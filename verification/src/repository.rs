use vstd::prelude::*;

use crate::VatError;
use crate::assoc::{
    assoc_get_str, assoc_set_str, assoc_remove_str, assoc_map, keys_distinct, lemma_assoc_push,
    lemma_assoc_absent, lemma_assoc_contains,
};
use crate::manifest::Package;
use crate::strutil::{join_path, path_join};
use crate::vat_repository::lemma_assoc_dom_has_index;
use crate::version::{Version, version_le, version_rep};

verus! {

/// One package's published versions, each with its publish message,
/// beside the workspace path.
#[derive(Debug, Clone)]
pub struct PublishedVersions {
    pub versions: Vec<(Version, String)>,
    pub package_path: String,
    pub repository: Option<String>,
}

/// A repository rooted at a directory of its own: package name to
/// published versions.
#[derive(Debug, Clone)]
pub struct VatRepository2 {
    pub packages: Vec<(String, PublishedVersions)>,
    pub path: String,
}

impl PublishedVersions {
    pub open spec fn versions_map(&self) -> Map<Version, String> {
        assoc_map(self.versions@)
    }

    pub open spec fn wf(&self) -> bool {
        keys_distinct(self.versions@)
    }

    /// A first entry: one version under its message.
    pub fn from(
        package: Package,
        message: String,
        package_path: String,
        repository: Option<String>,
    ) -> (r: PublishedVersions)
        ensures
            r.versions@.len() == 1,
            r.versions@[0].0 == package.package_info.version,
            r.versions@[0].1 == message,
            r.package_path == package_path,
            r.repository == repository,
            r.wf(),
    {
        let mut versions: Vec<(Version, String)> = Vec::new();
        versions.push((package.get_current_version(), message));
        PublishedVersions { versions, package_path, repository }
    }
}

impl VatRepository2 {
    pub open spec fn packages_map(&self) -> Map<Seq<char>, PublishedVersions> {
        assoc_map(self.packages@)
    }

    pub open spec fn wf(&self) -> bool {
        &&& keys_distinct(self.packages@)
        &&& forall|n: Seq<char>| #[trigger] self.packages_map().dom().contains(n)
            ==> self.packages_map()[n].wf()
    }

    /// Records a version of `package`: refused with `VersionConflict`
    /// where the version is already there, and a first publish needs a
    /// message.
    pub fn add_package(&mut self, package: Package, message: Option<String>, current_dir: String)
        -> (r: Result<(), VatError>)
        requires
            old(self).wf(),
        ensures
            final(self).wf(),
            final(self).path == old(self).path,
            ({
                let name = package.package_info.name@;
                let v = package.package_info.version;
                if old(self).packages_map().dom().contains(name) && old(self).packages_map()[
                    name].versions_map().dom().contains(v) {
                    r == Err::<(), VatError>(VatError::VersionConflict) && *final(self) == *old(
                        self,
                    )
                } else if !old(self).packages_map().dom().contains(name) && message is None {
                    r == Err::<(), VatError>(VatError::IoError) && *final(self) == *old(self)
                } else {
                    r matches Ok(_) && final(self).packages_map() == old(
                        self,
                    ).packages_map().insert(name, final(self).packages_map()[name]) && ({
                        let e = final(self).packages_map()[name];
                        e.versions_map().dom().contains(v) && e.versions_map() == (if old(
                            self,
                        ).packages_map().dom().contains(name) {
                            old(self).packages_map()[name].versions_map()
                        } else {
                            Map::<Version, String>::empty()
                        }).insert(v, e.versions_map()[v])
                    })
                }
            }),
    {
        let name = package.package_info.name.clone();
        let version = package.get_current_version();
        let ghost self0 = *self;
        match assoc_get_str(&self.packages, name.as_str()) {
            Some(entry) => {
                let mut i: usize = 0;
                let n = entry.versions.len();
                while i < n
                    invariant
                        *self == *old(self),
                        old(self).wf(),
                        name@ == package.package_info.name@,
                        version == package.package_info.version,
                        self.packages_map().dom().contains(name@),
                        *entry == self.packages_map()[name@],
                        i <= n,
                        n == entry.versions@.len(),
                        forall|j: int| 0 <= j < i ==> entry.versions@[j].0 != version,
                    decreases n - i,
                {
                    if entry.versions[i].0 == version {
                        proof {
                            lemma_assoc_contains(entry.versions@, i as int);
                        }
                        return Err(VatError::VersionConflict);
                    }
                    i = i + 1;
                }
                proof {
                    lemma_assoc_absent(entry.versions@, version);
                }
            },
            None => {
                if message.is_none() {
                    return Err(VatError::IoError);
                }
            },
        }
        let msg = match message {
            Some(m) => m,
            None => String::new(),
        };
        let mut entry = match crate::assoc::assoc_take_str(&mut self.packages, name.as_str()) {
            Some(e) => e,
            None => PublishedVersions {
                versions: Vec::new(),
                package_path: current_dir,
                repository: None,
            },
        };
        proof {
            if self0.packages_map().dom().contains(name@) {
                assert(entry == self0.packages_map()[name@]);
            }
        }
        let ghost vs0 = entry.versions@;
        let p = (version, msg);
        proof {
            assert forall|j: int| 0 <= j < vs0.len() implies vs0[j].0@ != p.0@ by {
                if vs0[j].0@ == p.0@ {
                    lemma_assoc_contains(vs0, j);
                }
            }
        }
        entry.versions.push(p);
        proof {
            lemma_assoc_push(vs0, p);
            let t = entry.versions@;
            assert forall|a: int, b: int| 0 <= a < b < t.len() implies t[a].0@ != t[b].0@ by {
                if b < vs0.len() {
                } else {
                    assert(t[b] == p);
                    assert(t[a] == vs0[a]);
                }
            }
        }
        let ghost updated = entry;
        assoc_set_str(&mut self.packages, name, entry);
        proof {
            assert forall|n2: Seq<char>| #[trigger] self.packages_map().dom().contains(n2) implies
                self.packages_map()[n2].wf() by {
                if n2 != package.package_info.name@ {
                    assert(self.packages_map()[n2] == self0.packages_map()[n2]);
                } else {
                    assert(self.packages_map()[n2] == updated);
                }
            }
        }
        Ok(())
    }

    /// Whether `package_name` has any published version recorded.
    pub fn package_exists(&self, package_name: &str) -> (r: bool)
        ensures
            r == self.packages_map().dom().contains(package_name@),
    {
        match assoc_get_str(&self.packages, package_name) {
            Some(_) => true,
            None => false,
        }
    }

    /// The recorded workspace path of `package_name`.
    pub fn get_package_path(&self, package_name: &str) -> (r: Option<String>)
        ensures
            match r {
                Some(p) => self.packages_map().dom().contains(package_name@) && p@
                    == self.packages_map()[package_name@].package_path@,
                None => !self.packages_map().dom().contains(package_name@),
            },
    {
        match assoc_get_str(&self.packages, package_name) {
            Some(e) => Some(e.package_path.clone()),
            None => None,
        }
    }

    /// The same workspace path, read for the live manifest.
    pub fn get_package_main_path(&self, package_name: &str) -> (r: Option<String>)
        ensures
            match r {
                Some(p) => self.packages_map().dom().contains(package_name@) && p@
                    == self.packages_map()[package_name@].package_path@,
                None => !self.packages_map().dom().contains(package_name@),
            },
    {
        self.get_package_path(package_name)
    }

    /// Takes a package and its record out of the catalog.
    pub fn remove_package(&mut self, package_name: &str) -> (r: Result<(), VatError>)
        requires
            old(self).wf(),
        ensures
            final(self).wf(),
            final(self).path == old(self).path,
            !old(self).packages_map().dom().contains(package_name@) ==> r == Err::<(), VatError>(
                VatError::PackageNotFound,
            ) && *final(self) == *old(self),
            old(self).packages_map().dom().contains(package_name@) ==> (r matches Ok(_)
                && final(self).packages_map() == old(self).packages_map().remove(package_name@)),
    {
        let ghost self0 = *self;
        match assoc_get_str(&self.packages, package_name) {
            None => {
                return Err(VatError::PackageNotFound);
            },
            Some(_) => {},
        }
        assoc_remove_str(&mut self.packages, package_name);
        proof {
            assert forall|n2: Seq<char>| #[trigger] self.packages_map().dom().contains(n2) implies
                self.packages_map()[n2].wf() by {
                assert(self.packages_map()[n2] == self0.packages_map()[n2]);
            }
        }
        Ok(())
    }

    /// The greatest published version of `package_name`, by the
    /// semantic order.
    pub fn get_latest_version(&self, package_name: &str) -> (r: Option<Version>)
        ensures
            match r {
                Some(v) => self.packages_map().dom().contains(package_name@) && ({
                    let e = self.packages_map()[package_name@];
                    e.versions_map().dom().contains(v) && (forall|w: Version|
                        e.versions_map().dom().contains(w) ==> version_le(w, v))
                }),
                None => !self.packages_map().dom().contains(package_name@)
                    || self.packages_map()[package_name@].versions@.len() == 0,
            },
    {
        let entry = match assoc_get_str(&self.packages, package_name) {
            Some(e) => e,
            None => {
                return None;
            },
        };
        if entry.versions.len() == 0 {
            return None;
        }
        let mut best = entry.versions[0].0;
        let mut i: usize = 1;
        proof {
            lemma_assoc_contains(entry.versions@, 0);
        }
        while i < entry.versions.len()
            invariant
                1 <= i <= entry.versions@.len(),
                entry.versions_map().dom().contains(best),
                forall|j: int| 0 <= j < i ==> version_le(entry.versions@[j].0, best),
            decreases entry.versions@.len() - i,
        {
            if best.lt(&entry.versions[i].0) {
                best = entry.versions[i].0;
                proof {
                    lemma_assoc_contains(entry.versions@, i as int);
                }
            }
            i = i + 1;
        }
        proof {
            assert forall|w: Version| entry.versions_map().dom().contains(w) implies version_le(
                w,
                best,
            ) by {
                lemma_assoc_dom_has_index(entry.versions@, w);
            }
        }
        Some(best)
    }

    /// Where the newest published version of `package_name` is stored.
    pub fn get_latest_package_path(&self, package_name: &str) -> (r: Option<String>)
        ensures
            r is Some ==> self.packages_map().dom().contains(package_name@),
            r is None ==> !self.packages_map().dom().contains(package_name@)
                || self.packages_map()[package_name@].versions@.len() == 0,
            match r {
                Some(p) => exists|v: Version|
                    self.packages_map()[package_name@].versions_map().dom().contains(v) && p@
                        == path_join(
                        path_join(path_join(self.path@, "packages"@), package_name@),
                        version_rep(v),
                    ),
                None => true,
            },
    {
        let latest = match self.get_latest_version(package_name) {
            Some(v) => v,
            None => {
                return None;
            },
        };
        let p = join_path(
            join_path(join_path(self.path.as_str(), "packages").as_str(), package_name).as_str(),
            latest.version_string().as_str(),
        );
        Some(p)
    }
}

} // verus!
