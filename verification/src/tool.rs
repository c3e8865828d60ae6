use vstd::prelude::*;
use crate::context::ToolContext;

verus! {

/// What describes a tool: an identifier, used in variables and file names,
/// and a name for people.
pub trait Describable {
    fn get_id(&self) -> &str;

    fn get_name(&self) -> String;
}

/// A tool as the flows know it: its context and display name.
pub struct ToolInfo {
    pub context: ToolContext,
    pub name: String,
}

impl Describable for ToolInfo {
    fn get_id(&self) -> (r: &str)
        ensures
            r@ == self.context.id@,
    {
        self.context.id.as_str()
    }

    fn get_name(&self) -> (r: String)
        ensures
            r@ == self.name@,
    {
        self.name.clone()
    }
}

/// Sets up, installs, and tears down one tool.
pub struct Manager {
    pub tool: ToolInfo,
}

impl Manager {
    /// A manager of the tool.
    pub fn new(tool: ToolInfo) -> (r: Manager)
        ensures
            r.tool.context@ == tool.context@,
            r.tool.name@ == tool.name@,
    {
        Manager { tool }
    }
}

/// The format of a plugin.
#[derive(Clone, Copy, PartialEq, Eq, Structural, Debug)]
pub enum PluginFormat {
    Json,
    Toml,
    Wasm,
    Yaml,
}

} // verus!
