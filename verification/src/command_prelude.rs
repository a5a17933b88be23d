use vstd::prelude::*;

verus! {

/// A subcommand the command-line layer can dispatch to: either built in,
/// or an external executable found on the search path.
#[derive(PartialEq, PartialOrd, Eq, Ord)]
pub enum CommandInfo {
    BuiltIn { name: String, about: Option<String> },
    External { name: String, path: String },
}

impl CommandInfo {
    /// The name of this subcommand.
    pub open spec fn spec_name(self) -> Seq<char> {
        match self {
            CommandInfo::BuiltIn { name, .. } => name@,
            CommandInfo::External { name, .. } => name@,
        }
    }

    /// The name of this subcommand.
    pub fn name(&self) -> (r: String)
        ensures
            r@ == self.spec_name(),
    {
        match self {
            CommandInfo::BuiltIn { name, .. } => name.clone(),
            CommandInfo::External { name, .. } => name.clone(),
        }
    }
}

} // verus!
