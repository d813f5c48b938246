use vstd::prelude::*;

use crate::VatError;
use crate::assoc::{
    assoc_map, assoc_get_str, assoc_set_str, assoc_take_str, keys_distinct, lemma_assoc_push,
    lemma_assoc_absent,
};
use crate::manifest::Package;
use crate::reference::{PackageFrom, PackageResolver};
use crate::strutil::{base_name, join_path, path_file_name, path_join, str_eq};
use crate::version::{Version, version_lt, version_le, version_rep};

verus! {

/// What the catalog records of one published version: when it was
/// published, and an optional comment.
#[derive(Debug, Clone)]
pub struct RepoPackageInfo {
    pub published_on: i64,
    pub version_comment: Option<String>,
}

/// One package's catalog entry: its published versions, the path of its
/// live workspace, and where its source lives.
#[derive(Debug, Clone)]
pub struct RepoPackage {
    pub versions: Vec<(Version, RepoPackageInfo)>,
    pub main_branch_path: String,
    pub git_url: Option<String>,
}

/// The repository catalog: every package name with its entry.
/// Entries only grow: versions are recorded once and never rewritten.
#[derive(Debug, Clone)]
pub struct VatRepo {
    pub packages: Vec<(String, RepoPackage)>,
}

/// Relies on chrono's Utc::now: the moment of the call, as seconds
/// since the epoch. Nothing is assumed of the value.
#[verifier::external_body]
fn now_timestamp() -> i64 {
    chrono::Utc::now().timestamp()
}

impl RepoPackage {
    /// The recorded versions, as a map.
    pub open spec fn versions_map(&self) -> Map<Version, RepoPackageInfo> {
        assoc_map(self.versions@)
    }

    pub open spec fn wf(&self) -> bool {
        keys_distinct(self.versions@)
    }

    pub fn new(package_path: &str, package_repository_path: &str) -> (r: RepoPackage)
        ensures
            r.versions@.len() == 0,
            r.main_branch_path@ == package_path@,
            r.git_url matches Some(u) && u@ == package_repository_path@,
            r.wf(),
    {
        RepoPackage {
            versions: Vec::new(),
            main_branch_path: package_path.to_owned(),
            git_url: Some(package_repository_path.to_owned()),
        }
    }

    /// Whether `version` is recorded.
    pub fn version_exists(&self, version: &Version) -> (r: bool)
        ensures
            r == self.versions_map().dom().contains(*version),
    {
        let mut i: usize = 0;
        while i < self.versions.len()
            invariant
                i <= self.versions@.len(),
                forall|j: int| 0 <= j < i ==> self.versions@[j].0 != *version,
            decreases self.versions@.len() - i,
        {
            if self.versions[i].0 == *version {
                proof {
                    crate::assoc::lemma_assoc_contains(self.versions@, i as int);
                }
                return true;
            }
            i = i + 1;
        }
        proof {
            lemma_assoc_absent(self.versions@, *version);
        }
        false
    }

    /// Records `version` with a comment and the present moment; a
    /// version already recorded is refused, the entry unchanged.
    pub fn add_version(&mut self, version: &Version, version_comment: &str) -> (r: Result<
        (),
        VatError,
    >)
        requires
            old(self).wf(),
        ensures
            final(self).wf(),
            final(self).main_branch_path == old(self).main_branch_path,
            final(self).git_url == old(self).git_url,
            old(self).versions_map().dom().contains(*version) ==> r == Err::<(), VatError>(
                VatError::VersionConflict,
            ) && final(self).versions == old(self).versions,
            !old(self).versions_map().dom().contains(*version) ==> (r matches Ok(_) && final(self).versions_map() == old(self).versions_map().insert(
                *version,
                final(self).versions_map()[*version],
            ) && (final(self).versions_map()[*version].version_comment matches Some(c) && c@
                == version_comment@)),
    {
        if self.version_exists(version) {
            return Err(VatError::VersionConflict);
        }
        let info = RepoPackageInfo {
            published_on: now_timestamp(),
            version_comment: Some(version_comment.to_owned()),
        };
        let ghost s0 = self.versions@;
        let p = (*version, info);
        proof {
            assert forall|j: int| 0 <= j < s0.len() implies s0[j].0@ != p.0@ by {
                if s0[j].0@ == p.0@ {
                    crate::assoc::lemma_assoc_contains(s0, j);
                }
            }
        }
        self.versions.push(p);
        proof {
            lemma_assoc_push(s0, p);
            let t = self.versions@;
            assert forall|a: int, b: int| 0 <= a < b < t.len() implies t[a].0@ != t[b].0@ by {
                if b < s0.len() {
                } else {
                    assert(t[b] == p);
                    assert(t[a] == s0[a]);
                }
            }
            assert(self.versions_map()[*version] == p.1);
        }
        Ok(())
    }

    /// The greatest recorded version, by the semantic order.
    pub fn latest_version(&self) -> (r: Option<Version>)
        ensures
            match r {
                Some(v) => self.versions@.len() > 0 && v == max_version_seq(self.versions@)
                    && self.versions_map().dom().contains(v) && (forall|w: Version|
                    self.versions_map().dom().contains(w) ==> version_le(w, v)),
                None => self.versions@.len() == 0,
            },
    {
        if self.versions.len() == 0 {
            return None;
        }
        let mut best = self.versions[0].0;
        let mut i: usize = 1;
        proof {
            assert(self.versions@.take(1).len() == 1);
            assert(self.versions@.take(1)[0] == self.versions@[0]);
        }
        while i < self.versions.len()
            invariant
                1 <= i <= self.versions@.len(),
                best == max_version_seq(self.versions@.take(i as int)),
                forall|j: int| 0 <= j < i ==> version_le(self.versions@[j].0, best),
            decreases self.versions@.len() - i,
        {
            let ghost t = self.versions@.take(i as int + 1);
            proof {
                assert(t.drop_last() =~= self.versions@.take(i as int));
                assert(t.last() == self.versions@[i as int]);
            }
            if best.lt(&self.versions[i].0) {
                best = self.versions[i].0;
            }
            i = i + 1;
        }
        proof {
            assert(self.versions@.take(self.versions@.len() as int) =~= self.versions@);
            lemma_max_version_props(self.versions@);
            let k = choose|k: int|
                0 <= k < self.versions@.len() && self.versions@[k].0 == max_version_seq(
                    self.versions@,
                );
            crate::assoc::lemma_assoc_contains(self.versions@, k);
            assert forall|w: Version| self.versions_map().dom().contains(w) implies version_le(
                w,
                best,
            ) by {
                lemma_assoc_dom_has_index(self.versions@, w);
                let j = choose|j: int|
                    0 <= j < self.versions@.len() && self.versions@[j].0@ == w;
                assert(self.versions@[j].0 == w);
            }
        }
        Some(best)
    }
}

/// A key in the denoted map always stands at some entry.
pub proof fn lemma_assoc_dom_has_index<K: View, V>(s: Seq<(K, V)>, k: <K as View>::V)
    requires
        assoc_map(s).dom().contains(k),
    ensures
        exists|i: int| 0 <= i < s.len() && s[i].0@ == k,
    decreases s.len(),
{
    if s.len() > 0 {
        if s[0].0@ != k {
            lemma_assoc_dom_has_index(s.skip(1), k);
            let i = choose|i: int| 0 <= i < s.skip(1).len() && s.skip(1)[i].0@ == k;
            assert(s[i + 1].0@ == k);
        }
    }
}

/// The catalog, seen as a map from package name to entry.
impl VatRepo {
    pub open spec fn packages_map(&self) -> Map<Seq<char>, RepoPackage> {
        assoc_map(self.packages@)
    }

    pub open spec fn wf(&self) -> bool {
        &&& keys_distinct(self.packages@)
        &&& forall|n: Seq<char>| #[trigger] self.packages_map().dom().contains(n)
            ==> self.packages_map()[n].wf()
    }

    /// Whether publishing into workspace `path` collides with a
    /// different package: the path's last component names an entry
    /// whose workspace is another path.
    pub open spec fn path_mismatch(&self, path: Seq<char>) -> bool {
        self.packages_map().dom().contains(base_name(path)) && self.packages_map()[base_name(
            path,
        )].main_branch_path@ != path
    }

    /// Whether `version` of `name` is recorded.
    pub open spec fn version_recorded(&self, name: Seq<char>, version: Version) -> bool {
        self.packages_map().dom().contains(name) && self.packages_map()[name].versions_map().dom()
            .contains(version)
    }

    /// What a publish call decides, before any change: a workspace
    /// collision is refused first, then a version already recorded.
    pub open spec fn publish_decision(&self, pkg: Package, path: Seq<char>) -> Result<
        (),
        VatError,
    > {
        if self.path_mismatch(path) {
            Err(VatError::WorkspaceMismatch)
        } else if self.version_recorded(pkg.package_info.name@, pkg.package_info.version) {
            Err(VatError::VersionConflict)
        } else {
            Ok(())
        }
    }

    pub fn new() -> (r: VatRepo)
        ensures
            r.packages@.len() == 0,
            r.wf(),
    {
        VatRepo { packages: Vec::new() }
    }

    /// The entry under `package_name`, if any.
    pub fn get_repo_package(&self, package_name: &str) -> (r: Option<&RepoPackage>)
        ensures
            match r {
                Some(p) => self.packages_map().dom().contains(package_name@) && *p
                    == self.packages_map()[package_name@] && (self.wf() ==> p.wf()),
                None => !self.packages_map().dom().contains(package_name@),
            },
    {
        assoc_get_str(&self.packages, package_name)
    }

    /// Whether the workspace at `package_path` may publish here: true
    /// where its name is registered with this very path, false where
    /// the name is free, and a collision with another path is refused.
    pub fn package_exists(&self, package_path: &str) -> (r: Result<bool, VatError>)
        ensures
            self.path_mismatch(package_path@) ==> r == Err::<bool, VatError>(
                VatError::WorkspaceMismatch,
            ),
            !self.path_mismatch(package_path@) ==> r == Ok::<bool, VatError>(
                self.packages_map().dom().contains(base_name(package_path@)),
            ),
    {
        let package_name = path_file_name(package_path);
        match self.get_repo_package(package_name.as_str()) {
            Some(p) => {
                if str_eq(p.main_branch_path.as_str(), package_path) {
                    Ok(true)
                } else {
                    Err(VatError::WorkspaceMismatch)
                }
            },
            None => Ok(false),
        }
    }

    /// Registers the workspace of `package` in the catalog without
    /// publishing any version. A name already bound is refused:
    /// with `WorkspaceMismatch`, whether it is bound to this
    /// workspace or to another.
    pub fn link_package(&mut self, package: &Package, package_path: &str) -> (r: Result<
        (),
        VatError,
    >)
        requires
            old(self).wf(),
        ensures
            final(self).wf(),
            old(self).path_mismatch(package_path@) ==> r == Err::<(), VatError>(
                VatError::WorkspaceMismatch,
            ) && *final(self) == *old(self),
            !old(self).path_mismatch(package_path@) && old(self).packages_map().dom().contains(
                base_name(package_path@),
            ) ==> r == Err::<(), VatError>(VatError::WorkspaceMismatch) && *final(self) == *old(self),
            !old(self).path_mismatch(package_path@) && !old(self).packages_map().dom().contains(
                base_name(package_path@),
            ) ==> (r matches Ok(_) && final(self).packages_map() == old(self).packages_map().insert(
                package.package_info.name@,
                final(self).packages_map()[package.package_info.name@],
            ) && ({
                let e = final(self).packages_map()[package.package_info.name@];
                e.versions@.len() == 0 && e.main_branch_path@ == package_path@ && (match package
                    .package_info.repository {
                    Some(u) => e.git_url matches Some(g) && g@ == u@,
                    None => e.git_url is None,
                })
            })),
    {
        match self.package_exists(package_path) {
            Err(e) => {
                return Err(e);
            },
            Ok(true) => {
                return Err(VatError::WorkspaceMismatch);
            },
            Ok(false) => {},
        }
        let git_url = match &package.package_info.repository {
            Some(u) => Some(u.clone()),
            None => None,
        };
        let repo_package = RepoPackage {
            versions: Vec::new(),
            main_branch_path: package_path.to_owned(),
            git_url,
        };
        let name = package.package_info.name.clone();
        let ghost self0 = *self;
        let ghost fresh = repo_package;
        assoc_set_str(&mut self.packages, name, repo_package);
        proof {
            assert forall|n: Seq<char>| #[trigger] self.packages_map().dom().contains(n) implies
                self.packages_map()[n].wf() by {
                if n != package.package_info.name@ {
                    assert(self.packages_map()[n] == self0.packages_map()[n]);
                } else {
                    assert(self.packages_map()[n] == fresh);
                }
            }
        }
        Ok(())
    }

    /// Publishes the version that `package`'s manifest declares, from
    /// the workspace at `package_path`: refused where that workspace
    /// collides with another package's name, or where the version is
    /// already recorded; otherwise the version is added under the
    /// manifest's name, and an entry is created on first publish.
    pub fn publish_package(
        &mut self,
        package: &Package,
        package_path: &str,
        version_comment: &str,
    ) -> (r: Result<(), VatError>)
        requires
            old(self).wf(),
        ensures
            final(self).wf(),
            r == old(self).publish_decision(*package, package_path@),
            r is Err ==> *final(self) == *old(self),
            r is Ok ==> ({
                let name = package.package_info.name@;
                let e = final(self).packages_map()[name];
                &&& final(self).packages_map() == old(self).packages_map().insert(name, e)
                &&& e.versions_map() == (if old(self).packages_map().dom().contains(name) {
                    old(self).packages_map()[name].versions_map()
                } else {
                    Map::<Version, RepoPackageInfo>::empty()
                }).insert(package.package_info.version, e.versions_map()[package.package_info.version])
                &&& e.versions_map()[package.package_info.version].version_comment matches Some(c)
                    && c@ == version_comment@
                &&& e.main_branch_path@ == (if old(self).packages_map().dom().contains(name) {
                    old(self).packages_map()[name].main_branch_path@
                } else {
                    package_path@
                })
            }),
    {
        match self.package_exists(package_path) {
            Err(e) => {
                return Err(e);
            },
            Ok(_) => {},
        }
        let version = package.get_current_version();
        match self.get_repo_package(package.package_info.name.as_str()) {
            Some(p) => {
                if p.version_exists(&version) {
                    return Err(VatError::VersionConflict);
                }
            },
            None => {},
        }
        let name = package.package_info.name.clone();
        let ghost self0 = *self;
        let mut repo_package = match assoc_take_str(&mut self.packages, name.as_str()) {
            Some(p) => p,
            None => {
                let git_url = match &package.package_info.repository {
                    Some(u) => Some(u.clone()),
                    None => None,
                };
                RepoPackage {
                    versions: Vec::new(),
                    main_branch_path: package_path.to_owned(),
                    git_url,
                }
            },
        };
        proof {
            if self0.packages_map().dom().contains(name@) {
                assert(repo_package == self0.packages_map()[name@]);
                assert(repo_package.wf());
            }
        }
        match repo_package.add_version(&version, version_comment) {
            Err(_) => {
                proof {
                    assert(false);
                }
                return Err(VatError::VersionConflict);
            },
            Ok(_) => {},
        }
        let ghost updated = repo_package;
        assoc_set_str(&mut self.packages, name, repo_package);
        proof {
            assert(self.packages_map() =~= self0.packages_map().insert(
                package.package_info.name@,
                updated,
            ));
            assert forall|n: Seq<char>| #[trigger] self.packages_map().dom().contains(n) implies
                self.packages_map()[n].wf() by {
                if n != package.package_info.name@ {
                    assert(self.packages_map()[n] == self0.packages_map()[n]);
                } else {
                    assert(self.packages_map()[n] == updated);
                }
            }
        }
        Ok(())
    }

    /// Whether `version` of `package_name` is published.
    pub fn version_exists(&self, package_name: &str, version: &Version) -> (r: bool)
        ensures
            r == self.version_recorded(package_name@, *version),
    {
        match self.get_repo_package(package_name) {
            Some(p) => p.version_exists(version),
            None => false,
        }
    }

    /// The greatest published version of `package_name`, by the
    /// semantic order — not by publish order.
    pub fn get_latest_version(&self, package_name: &str) -> (r: Option<Version>)
        ensures
            match r {
                Some(v) => self.version_recorded(package_name@, v) && (forall|w: Version|
                    self.packages_map()[package_name@].versions_map().dom().contains(w)
                        ==> version_le(w, v)),
                None => !self.packages_map().dom().contains(package_name@)
                    || self.packages_map()[package_name@].versions@.len() == 0,
            },
    {
        match self.get_repo_package(package_name) {
            Some(p) => p.latest_version(),
            None => None,
        }
    }

    /// The root path that a reference resolves to, under `repo_path`.
    ///
    /// `Latest` takes the greatest published version, or the live
    /// workspace where none is published. An exact version that is
    /// published takes its immutable storage; one that is not falls
    /// back to the whole `Latest` resolution rather than failing.
    /// `Main` always takes the live workspace. Only a name that was
    /// never registered fails, with `PackageNotFound`.
    pub fn resolve_package_path(&self, package_resolver: &PackageResolver, repo_path: &str) -> (r:
        Result<String, VatError>)
        ensures
            !self.packages_map().dom().contains(package_resolver.package_name@) ==> r == Err::<
                String,
                VatError,
            >(VatError::PackageNotFound),
            self.packages_map().dom().contains(package_resolver.package_name@) ==> (r matches Ok(
                p,
            ) && p@ == resolved_path_spec(
                *self,
                package_resolver.package_name@,
                package_resolver.from,
                repo_path@,
            )),
    {
        let name = package_resolver.package_name.as_str();
        match self.get_repo_package(name) {
            None => Err(VatError::PackageNotFound),
            Some(entry) => {
                match &package_resolver.from {
                    PackageFrom::Version(v) => {
                        if entry.version_exists(v) {
                            Ok(join_path(join_path(repo_path, name).as_str(),
                                v.version_string().as_str()))
                        } else {
                            Ok(Self::latest_or_main(entry, name, repo_path))
                        }
                    },
                    PackageFrom::Latest => Ok(Self::latest_or_main(entry, name, repo_path)),
                    PackageFrom::Main => Ok(entry.main_branch_path.clone()),
                }
            },
        }
    }

    fn latest_or_main(entry: &RepoPackage, name: &str, repo_path: &str) -> (r: String)
        ensures
            entry.versions@.len() == 0 ==> r@ == entry.main_branch_path@,
            entry.versions@.len() > 0 ==> r@ == path_join(
                path_join(repo_path@, name@),
                version_rep(max_version_seq(entry.versions@)),
            ),
    {
        match entry.latest_version() {
            Some(lv) => join_path(join_path(repo_path, name).as_str(), lv.version_string().as_str()),
            None => entry.main_branch_path.clone(),
        }
    }
}

/// Where a reference's selector lands for a registered package: an
/// exact published version under the repository, else the greatest
/// published version, else the live workspace.
pub open spec fn resolved_path_spec(
    c: VatRepo,
    name: Seq<char>,
    from: PackageFrom,
    repo_path: Seq<char>,
) -> Seq<char> {
    let entry = c.packages_map()[name];
    match from {
        PackageFrom::Version(v) => if entry.versions_map().dom().contains(v) {
            path_join(path_join(repo_path, name), version_rep(v))
        } else {
            latest_or_main_path(c, name, repo_path)
        },
        PackageFrom::Latest => latest_or_main_path(c, name, repo_path),
        PackageFrom::Main => entry.main_branch_path@,
    }
}

/// The greatest published version's storage, or the workspace where
/// nothing is published.
pub open spec fn latest_or_main_path(c: VatRepo, name: Seq<char>, repo_path: Seq<char>) -> Seq<
    char,
> {
    let entry = c.packages_map()[name];
    if entry.versions@.len() == 0 {
        entry.main_branch_path@
    } else {
        path_join(path_join(repo_path, name), version_rep(max_version_seq(entry.versions@)))
    }
}

/// The greatest version among the entries, by the semantic order.
pub open spec fn max_version_seq(s: Seq<(Version, RepoPackageInfo)>) -> Version
    decreases s.len(),
{
    if s.len() <= 1 {
        s[0].0
    } else {
        let m = max_version_seq(s.drop_last());
        if version_lt(m, s.last().0) {
            s.last().0
        } else {
            m
        }
    }
}

/// The greatest version stands among the entries and is at least each
/// of them.
pub proof fn lemma_max_version_props(s: Seq<(Version, RepoPackageInfo)>)
    requires
        s.len() > 0,
    ensures
        exists|i: int| 0 <= i < s.len() && s[i].0 == max_version_seq(s),
        forall|j: int| 0 <= j < s.len() ==> version_le(#[trigger] s[j].0, max_version_seq(s)),
    decreases s.len(),
{
    if s.len() == 1 {
        assert(s[0].0 == max_version_seq(s));
    } else {
        lemma_max_version_props(s.drop_last());
        let m = max_version_seq(s.drop_last());
        if version_lt(m, s.last().0) {
            assert(s[s.len() - 1].0 == max_version_seq(s));
        } else {
            let i = choose|i: int| 0 <= i < s.drop_last().len() && s.drop_last()[i].0 == m;
            assert(s.drop_last()[i].0 == s[i].0);
            assert(s[i].0 == max_version_seq(s));
        }
        assert forall|j: int| 0 <= j < s.len() implies version_le(#[trigger] s[j].0,
            max_version_seq(s)) by {
            if j < s.len() - 1 {
                assert(s.drop_last()[j].0 == s[j].0);
            }
        }
    }
}

/// The version that a `Latest` resolution selects: it is published,
/// and no published version of the package is greater.
pub proof fn lemma_latest_is_max(entry: RepoPackage)
    requires
        entry.versions@.len() > 0,
    ensures
        entry.versions_map().dom().contains(max_version_seq(entry.versions@)),
        forall|w: Version|
            entry.versions_map().dom().contains(w) ==> version_le(
                w,
                max_version_seq(entry.versions@),
            ),
{
    lemma_max_version_props(entry.versions@);
    let i = choose|i: int|
        0 <= i < entry.versions@.len() && entry.versions@[i].0 == max_version_seq(entry.versions@);
    crate::assoc::lemma_assoc_contains(entry.versions@, i);
    assert forall|w: Version| entry.versions_map().dom().contains(w) implies version_le(
        w,
        max_version_seq(entry.versions@),
    ) by {
        lemma_assoc_dom_has_index(entry.versions@, w);
    }
}

/// Publishing the same (name, version) pair twice: whatever else the
/// first, successful call changed, the second call is refused with
/// `VersionConflict`.
pub proof fn lemma_publish_twice_conflict(c1: VatRepo, c2: VatRepo, pkg: Package, path: Seq<char>)
    requires
        c1.publish_decision(pkg, path) is Ok,
        c2.packages_map() == c1.packages_map().insert(
            pkg.package_info.name@,
            c2.packages_map()[pkg.package_info.name@],
        ),
        c2.packages_map()[pkg.package_info.name@].versions_map().dom().contains(
            pkg.package_info.version,
        ),
        c2.packages_map()[pkg.package_info.name@].main_branch_path@ == (if c1.packages_map().dom()
            .contains(pkg.package_info.name@) {
            c1.packages_map()[pkg.package_info.name@].main_branch_path@
        } else {
            path
        }),
    ensures
        c2.publish_decision(pkg, path) == Err::<(), VatError>(VatError::VersionConflict),
{
    let name = pkg.package_info.name@;
    let base = base_name(path);
    assert(c2.packages_map().dom().contains(name));
    assert(c2.version_recorded(name, pkg.package_info.version));
    if base == name {
        assert(c2.packages_map()[base].main_branch_path@ == path);
    } else {
        assert(c2.packages_map().dom().contains(base) == c1.packages_map().dom().contains(base));
        if c2.packages_map().dom().contains(base) {
            assert(c2.packages_map()[base] == c1.packages_map()[base]);
        }
    }
    assert(!c2.path_mismatch(path));
}

} // verus!
