use vstd::prelude::*;

verus! {

/// The application's configuration: where the repository and the
/// packages live.
#[derive(Debug)]
pub struct VatConfig {
    pub repository_path: Option<String>,
    pub packages_path: Option<String>,
}

impl VatConfig {
    pub fn get_repository_path(&self) -> (r: Option<String>)
        ensures
            match self.repository_path {
                Some(p) => r matches Some(q) && q@ == p@,
                None => r is None,
            },
    {
        match &self.repository_path {
            Some(p) => Some(p.clone()),
            None => None,
        }
    }

    pub fn set_repository_path(&mut self, path: String)
        ensures
            final(self).repository_path == Some(path),
            final(self).packages_path == old(self).packages_path,
    {
        self.repository_path = Some(path);
    }
}

} // verus!
