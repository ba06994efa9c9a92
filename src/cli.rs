use vstd::prelude::*;

use crate::binaries::{is_binary_exist, Registry};

verus! {

/// The command-line options.
pub struct Cli {
    pub app_mode: AppModeArg,
    /// Copy the first name of the result to the clipboard.
    pub should_copy_result: bool,
    /// Show the descriptions of the executables in the result.
    pub show_descriptions: bool,
    /// How many names the simple mode prints.
    pub result_length: usize,
    /// The search path to scan instead of `$PATH`.
    pub search_path: Option<String>,
    /// The name to search for.
    pub input: Option<String>,
}

/// The mode flags as given.
pub struct AppModeArg {
    pub simple: bool,
    pub interactive: bool,
}

/// How the program presents the result.
#[derive(PartialEq, Eq, Structural)]
pub enum AppMode {
    Simple,
    Interactive,
}

impl AppMode {
    /// The simple mode where it was asked for, else the interactive one.
    pub fn from(value: &AppModeArg) -> (r: AppMode)
        ensures
            value.simple ==> r == AppMode::Simple,
            !value.simple ==> r == AppMode::Interactive,
    {
        if value.simple {
            AppMode::Simple
        } else {
            AppMode::Interactive
        }
    }
}

/// The name of the manual-page tool.
pub open spec fn man_name() -> Seq<char> {
    seq!['m', 'a', 'n']
}

/// The name of the typesetter.
pub open spec fn groff_name() -> Seq<char> {
    seq!['g', 'r', 'o', 'f', 'f']
}

impl Cli {
    /// Whether descriptions are shown: where they were asked for and both `man` and
    /// `groff` are on the search path.
    pub fn descriptions_enabled(&self, registry: &Registry) -> (r: bool)
        ensures
            r == (self.show_descriptions && registry.contains(man_name()) && registry.contains(groff_name())),
    {
        if !self.show_descriptions {
            return false;
        }
        let man = crate::text::string_of(&vec!['m', 'a', 'n']);
        let groff = crate::text::string_of(&vec!['g', 'r', 'o', 'f', 'f']);
        assert(man@ =~= man_name());
        assert(groff@ =~= groff_name());
        is_binary_exist(registry, &man) && is_binary_exist(registry, &groff)
    }
}

} // verus!
