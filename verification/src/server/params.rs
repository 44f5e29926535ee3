//! What the tools are asked.
use vstd::prelude::*;

verus! {

/// A search for names.
#[derive(Debug, Clone)]
pub struct SearchParams {
    pub query: String,
    /// How many results are wanted; ten where nothing is said.
    pub limit: Option<usize>,
}

/// A question about one name.
#[derive(Debug, Clone)]
pub struct InfoParams {
    pub name: String,
    /// `type`, `method` or `property`, where only one of them is meant.
    pub kind: Option<String>,
}

/// A question about a type.
#[derive(Debug, Clone)]
pub struct TypeNameParams {
    pub name: String,
}

/// A question about a member of a type.
#[derive(Debug, Clone)]
pub struct GetMemberParams {
    pub owner: String,
    pub member: String,
}

/// A question about a value of a system enumeration.
#[derive(Debug, Clone)]
pub struct ValidateEnumParams {
    pub owner: String,
    pub value: String,
}

/// A question about a call of a global method.
#[derive(Debug, Clone)]
pub struct ValidateMethodCallParams {
    pub method_name: String,
    pub arg_count: usize,
}

/// A request to check a module or a fragment.
#[derive(Debug, Clone)]
pub struct ValidateModuleParams {
    pub source: String,
    pub level: Option<u8>,
    /// `strict` or `full`.
    pub profile: Option<String>,
    /// The path of the module in the dump.
    pub path: Option<String>,
    /// The names of the attributes of the form, where they are known.
    pub form_attributes: Option<Vec<String>>,
    /// The configuration that the module belongs to.
    pub repo: Option<String>,
}

/// A request to make the index of a configuration anew.
#[derive(Debug, Clone)]
pub struct RebuildSymbolIndexParams {
    pub repo: Option<String>,
}

impl Default for RebuildSymbolIndexParams {
    fn default() -> (r: RebuildSymbolIndexParams)
        ensures
            r.repo is None,
    {
        RebuildSymbolIndexParams { repo: None }
    }
}

/// A request to connect to the names of a configuration anew.
#[derive(Debug, Clone)]
pub struct ReconnectSymbolSourceParams {
    pub repo: Option<String>,
}

} // verus!
