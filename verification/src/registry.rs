use vstd::prelude::*;

use crate::VatError;
use crate::assoc::{assoc_map, assoc_get_str, assoc_set_str, assoc_remove_str, keys_distinct};
use crate::manifest::Package;
use crate::strutil::{join_path, path_join};

verus! {

/// What the registry holds of one workspace: where it lives, what it
/// is, and where its source lives.
#[derive(Debug, Clone)]
pub struct PackageRegistry {
    pub path: String,
    pub description: String,
    pub repository: Option<String>,
}

/// The registry of known workspaces, by package name.
#[derive(Debug, Clone)]
pub struct Registry {
    pub registry: Vec<(String, PackageRegistry)>,
}

impl Default for Registry {
    fn default() -> (r: Registry)
        ensures
            r.registry@.len() == 0,
            r.wf(),
    {
        Registry { registry: Vec::new() }
    }
}

impl Registry {
    pub open spec fn registry_map(&self) -> Map<Seq<char>, PackageRegistry> {
        assoc_map(self.registry@)
    }

    pub open spec fn wf(&self) -> bool {
        keys_distinct(self.registry@)
    }

    /// Where the registry document lives under the application
    /// directory.
    pub fn registry_path(app_dir: &str) -> (r: String)
        ensures
            r@ == path_join(app_dir@, "registry.toml"@),
    {
        join_path(app_dir, "registry.toml")
    }

    /// Registers a workspace under its manifest's name. A name already
    /// registered is refused; so is a manifest without a description.
    pub fn add_package(&mut self, package: Package, path: String) -> (r: Result<(), VatError>)
        requires
            old(self).wf(),
        ensures
            final(self).wf(),
            old(self).registry_map().dom().contains(package.package_info.name@) ==> r == Err::<
                (),
                VatError,
            >(VatError::WorkspaceMismatch) && *final(self) == *old(self),
            !old(self).registry_map().dom().contains(package.package_info.name@) && package
                .package_info.description is None ==> r == Err::<(), VatError>(VatError::IoError)
                && *final(self) == *old(self),
            !old(self).registry_map().dom().contains(package.package_info.name@) && package
                .package_info.description is Some ==> (r matches Ok(_) && final(self).registry_map() == old(self).registry_map().insert(
                package.package_info.name@,
                final(self).registry_map()[package.package_info.name@],
            ) && ({
                let e = final(self).registry_map()[package.package_info.name@];
                &&& e.path == path
                &&& package.package_info.description matches Some(d) && e.description@ == d@
                &&& e.repository == package.package_info.repository
            })),
    {
        match assoc_get_str(&self.registry, package.package_info.name.as_str()) {
            Some(_) => {
                return Err(VatError::WorkspaceMismatch);
            },
            None => {},
        }
        let description = match package.package_info.description {
            Some(d) => d,
            None => {
                return Err(VatError::IoError);
            },
        };
        let package_registry = PackageRegistry {
            path,
            description,
            repository: package.package_info.repository,
        };
        assoc_set_str(&mut self.registry, package.package_info.name, package_registry);
        Ok(())
    }

    /// Takes a name out of the registry; an unknown name is refused.
    pub fn remove_package(&mut self, package_name: &str) -> (r: Result<(), VatError>)
        requires
            old(self).wf(),
        ensures
            final(self).wf(),
            !old(self).registry_map().dom().contains(package_name@) ==> r == Err::<(), VatError>(
                VatError::PackageNotFound,
            ) && *final(self) == *old(self),
            old(self).registry_map().dom().contains(package_name@) ==> (r matches Ok(_) && final(self).registry_map() == old(self).registry_map().remove(package_name@)),
    {
        match assoc_get_str(&self.registry, package_name) {
            None => {
                return Err(VatError::PackageNotFound);
            },
            Some(_) => {},
        }
        assoc_remove_str(&mut self.registry, package_name);
        Ok(())
    }

    /// The registered workspace under `package_name`, if any.
    pub fn get_package(&self, package_name: &str) -> (r: Option<PackageRegistry>)
        ensures
            match r {
                Some(p) => self.registry_map().dom().contains(package_name@) && ({
                    let e = self.registry_map()[package_name@];
                    p.path@ == e.path@ && p.description@ == e.description@ && (match e.repository {
                        Some(u) => p.repository matches Some(q) && q@ == u@,
                        None => p.repository is None,
                    })
                }),
                None => !self.registry_map().dom().contains(package_name@),
            },
    {
        match assoc_get_str(&self.registry, package_name) {
            Some(e) => Some(
                PackageRegistry {
                    path: e.path.clone(),
                    description: e.description.clone(),
                    repository: match &e.repository {
                        Some(u) => Some(u.clone()),
                        None => None,
                    },
                },
            ),
            None => None,
        }
    }
}

/// The advisory lock around catalog mutation: two persisted flags.
/// It carries no holder identity and no expiry; a crashed holder
/// leaves it set.
#[derive(Debug, Clone, Copy, PartialEq, Eq, Structural)]
pub struct RegistryLock {
    pub read: bool,
    pub write: bool,
}

impl Default for RegistryLock {
    fn default() -> (r: RegistryLock)
        ensures
            !r.read,
            !r.write,
    {
        RegistryLock { read: false, write: false }
    }
}

impl RegistryLock {
    pub fn new() -> (r: RegistryLock)
        ensures
            !r.read,
            !r.write,
    {
        RegistryLock { read: false, write: false }
    }

    pub fn is_read_locked(&self) -> (r: bool)
        ensures
            r == self.read,
    {
        self.read
    }

    pub fn is_write_locked(&self) -> (r: bool)
        ensures
            r == self.write,
    {
        self.write
    }

    /// Takes the read flag.
    pub fn lock_read(&mut self)
        ensures
            final(self).read,
            final(self).write == old(self).write,
    {
        self.read = true;
    }

    /// Takes the lock for writing: both flags set. Callers check
    /// `is_read_locked` first and abort on contention.
    pub fn lock_write(&mut self)
        ensures
            final(self).read,
            final(self).write,
    {
        self.write = true;
        self.read = true;
    }

    /// Releases the read flag.
    pub fn unlock_read(&mut self)
        ensures
            !final(self).read,
            final(self).write == old(self).write,
    {
        self.read = false;
    }

    /// Releases the lock entirely: both flags cleared.
    pub fn unlock_write(&mut self)
        ensures
            !final(self).read,
            !final(self).write,
    {
        self.write = false;
        self.read = false;
    }

    /// Takes the lock for writing only where nobody holds it: a caller
    /// that finds the read flag set is refused with `RegistryLocked`
    /// and must abort its mutation.
    pub fn try_lock_write(&mut self) -> (r: Result<(), crate::VatError>)
        ensures
            old(self).read ==> r == Err::<(), crate::VatError>(crate::VatError::RegistryLocked)
                && *final(self) == *old(self),
            !old(self).read ==> (r matches Ok(_) && final(self).read && final(self).write),
    {
        if self.is_read_locked() {
            return Err(crate::VatError::RegistryLocked);
        }
        self.lock_write();
        Ok(())
    }

    /// Where the lock document lives under the application directory.
    pub fn lock_file_path(app_dir: &str) -> (r: String)
        ensures
            r@ == path_join(app_dir@, "registry.lock"@),
    {
        join_path(app_dir, "registry.lock")
    }
}

} // verus!
