//! Plain data types describing models, parameters and profiles.

use vstd::prelude::*;

verus! {

/// A model's identifier.
#[derive(Clone, Debug)]
pub struct ModelId(pub String);

impl ModelId {
    /// An identifier from its text.
    pub fn new(id: String) -> (r: Self)
        ensures
            r.0@ == id@,
    {
        ModelId(id)
    }

    /// The identifier as text.
    pub fn as_str(&self) -> (r: &str)
        ensures
            r@ == self.0@,
    {
        self.0.as_str()
    }
}

/// What is known of a model.
#[derive(Clone, Debug)]
pub struct Model {
    pub id: ModelId,
    pub name: Option<String>,
    pub description: Option<String>,
    pub context_length: Option<u64>,
    pub tools_supported: Option<bool>,
    pub supports_parallel_tool_calls: Option<bool>,
    pub supports_reasoning: Option<bool>,
}

/// Per-request parameters.
#[derive(Clone, Copy, Debug, PartialEq, Eq, Structural)]
pub struct Parameters {
    pub tool_supported: bool,
}

impl Parameters {
    pub fn new(tool_supported: bool) -> (r: Self)
        ensures
            r.tool_supported == tool_supported,
    {
        Parameters { tool_supported }
    }
}

impl Default for Parameters {
    fn default() -> (r: Self)
        ensures
            !r.tool_supported,
    {
        Parameters { tool_supported: false }
    }
}

/// A profile's name.
#[derive(Clone, Debug)]
pub struct ProfileName(pub String);

impl ProfileName {
    /// A name from its text.
    pub fn new(name: String) -> (r: Self)
        ensures
            r.0@ == name@,
    {
        ProfileName(name)
    }

    /// The name as text.
    pub fn as_str(&self) -> (r: &str)
        ensures
            r@ == self.0@,
    {
        self.0.as_str()
    }
}

/// A provider entry as written in a profile definition.
#[derive(Clone, Debug)]
pub struct ProviderDef {
    pub provider_type: String,
    pub api_key: Option<String>,
    pub base_url: Option<String>,
}

} // verus!
