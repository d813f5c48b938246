use vstd::prelude::*;

verus! {

/// A freshly initialized workspace: where it lives and what it is
/// called.
#[derive(Debug, Clone)]
pub struct Vat {
    pub package_path: String,
    pub package_name: String,
}

} // verus!
