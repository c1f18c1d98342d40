//! The list of matching commands shown above the command bar.
use vstd::prelude::*;

verus! {

pub struct CommandList {
    commands: Vec<String>,
    pattern: String,
}

pub open spec fn string_views(v: Seq<String>) -> Seq<Seq<char>> {
    v.map_values(|s: String| s@)
}

impl CommandList {
    pub closed spec fn entries(&self) -> Seq<Seq<char>> {
        string_views(self.commands@)
    }

    pub closed spec fn typed(&self) -> Seq<char> {
        self.pattern@
    }

    /// An empty list.
    pub fn new() -> (r: Self)
        ensures
            r.entries().len() == 0,
            r.typed().len() == 0,
    {
        CommandList { commands: Vec::new(), pattern: String::new() }
    }

    /// Empties the list and forgets the pattern.
    pub fn clear(&mut self)
        ensures
            final(self).entries().len() == 0,
            final(self).typed().len() == 0,
    {
        self.commands = Vec::new();
        self.pattern = String::new();
    }

    /// Shows `commands` as matching `pattern`.
    pub fn update_params(&mut self, commands: Vec<String>, pattern: String)
        ensures
            final(self).entries() == string_views(commands@),
            final(self).typed() == pattern@,
    {
        self.commands = commands;
        self.pattern = pattern;
    }
}

} // verus!
