//! Global settings that per-application rules override or fall back to.
use vstd::prelude::*;

use crate::text::same_text;

verus! {

/// How a smart symbol replaces what was typed before it.
#[derive(Debug, Clone, Copy, PartialEq, Eq, Structural)]
pub enum SmartMethod {
    /// Delete the typed text from the host, then insert the replacement.
    DeleteReplace,
    /// Hold the text in the composition and never delete from the host.
    HoldComposition,
}

impl SmartMethod {
    /// The name of the method in a configuration file.
    pub open spec fn name(self) -> Seq<char> {
        match self {
            SmartMethod::DeleteReplace => "delete_replace"@,
            SmartMethod::HoldComposition => "hold_composition"@,
        }
    }

    /// The method with the given name, letter for letter.
    pub open spec fn named(s: Seq<char>) -> Option<SmartMethod> {
        if s == SmartMethod::DeleteReplace.name() {
            Some(SmartMethod::DeleteReplace)
        } else if s == SmartMethod::HoldComposition.name() {
            Some(SmartMethod::HoldComposition)
        } else {
            None
        }
    }

    /// Reads a method from its name in a configuration file; the spelling must be exact.
    pub fn from_config(s: &str) -> (res: Option<Self>)
        ensures
            res == Self::named(s@),
    {
        if same_text(s, "delete_replace") {
            Some(SmartMethod::DeleteReplace)
        } else if same_text(s, "hold_composition") {
            Some(SmartMethod::HoldComposition)
        } else {
            None
        }
    }

    /// The name under which the method is written to a configuration file.
    pub fn as_config(self) -> (res: &'static str)
        ensures
            res@ == self.name(),
    {
        match self {
            SmartMethod::DeleteReplace => "delete_replace",
            SmartMethod::HoldComposition => "hold_composition",
        }
    }
}

/// The `ui.candidate` section of the global configuration, as far as rules fall back to it.
#[derive(Debug)]
pub struct UiCandidateConfig {
    /// The global first-show mode, by name.
    pub first_show_mode: String,
}

/// The global first-show mode of the factory settings.
pub open spec fn factory_first_show_mode() -> Seq<char> {
    "fast"@
}

impl Default for UiCandidateConfig {
    /// The factory settings.
    fn default() -> (res: Self)
        ensures
            res.first_show_mode@ == factory_first_show_mode(),
    {
        UiCandidateConfig { first_show_mode: "fast".to_owned() }
    }
}

/// Reading the name of a replacement method gives the method back.
pub proof fn law_smart_method_round_trip(method: SmartMethod)
    ensures
        SmartMethod::named(method.name()) == Some(method),
{
    reveal_strlit("delete_replace");
    reveal_strlit("hold_composition");
    assert("delete_replace"@.len() != "hold_composition"@.len());
}

} // verus!
