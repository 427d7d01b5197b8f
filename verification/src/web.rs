//! The web-search plugin: its descriptor and its execution logic on
//! already-parsed parameters. Parameter decoding from the plugin
//! framework's wire values happens outside this crate.

use vstd::prelude::*;

verus! {

/// What a plugin is allowed to touch.
#[derive(Clone, Copy, Debug, PartialEq, Eq, Structural)]
pub enum Permission {
    /// The plugin only reads; it changes nothing on the machine.
    ReadOnly,
}

/// What a plugin execution hands back.
pub struct PluginOutput {
    /// The rendered result text.
    pub content: String,
}

/// Parameters of a web search.
pub struct WebSearchParams {
    /// The search query.
    pub query: String,
    /// How many results to return at most, if bounded.
    pub max_results: Option<usize>,
}

/// Searches the web.
pub struct WebSearchPlugin;

impl WebSearchPlugin {
    /// Creates the plugin.
    pub fn new() -> (r: WebSearchPlugin) {
        WebSearchPlugin
    }

    /// The plugin's name.
    pub fn name(&self) -> (r: &'static str)
        ensures
            r@ == "web_search"@,
    {
        "web_search"
    }

    /// What the plugin does.
    pub fn description(&self) -> (r: &'static str)
        ensures
            r@ == "Search the web using DuckDuckGo"@,
    {
        "Search the web using DuckDuckGo"
    }

    /// The JSON schema of the plugin's parameters, as text.
    pub fn parameter_schema(&self) -> (r: &'static str)
        ensures
            r@ == web_search_schema(),
    {
        "{\"type\":\"object\",\"required\":[\"query\",\"max_results\"],\"properties\":{\"query\":{\"type\":\"string\",\"description\":\"The search query\"},\"max_results\":{\"type\":\"number\",\"description\":\"The maximum number of results to return\"}}}"
    }

    /// The permission the plugin needs.
    pub fn required_permission(&self) -> (r: Permission)
        ensures
            r == Permission::ReadOnly,
    {
        Permission::ReadOnly
    }

    /// Runs a search with the given parameters.
    pub fn execute(&self, params: WebSearchParams) -> (r: PluginOutput)
        ensures
            r.content@ == "Web search results"@,
    {
        let _ = params;
        PluginOutput { content: "Web search results".to_owned() }
    }
}

/// The schema text `parameter_schema` returns.
pub open spec fn web_search_schema() -> Seq<char> {
    "{\"type\":\"object\",\"required\":[\"query\",\"max_results\"],\"properties\":{\"query\":{\"type\":\"string\",\"description\":\"The search query\"},\"max_results\":{\"type\":\"number\",\"description\":\"The maximum number of results to return\"}}}"@
}

} // verus!
