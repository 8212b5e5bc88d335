//! The choices that a rule can make for an application.
use vstd::prelude::*;

use crate::text;
use crate::text::same_text;

verus! {

/// When the candidate window of a new composition is shown for the first time.
///
/// A host has to lay out its text again after a composition starts before it can report where
/// the caret is, and that takes time. The modes trade speed against accuracy.
#[derive(Debug, Clone, Copy, PartialEq, Eq, Structural)]
pub enum FirstShowMode {
    /// Wait for the caret position that follows the new layout. Most accurate, slowest.
    Wait,
    /// Wait only until a reported position can be trusted. The default.
    Fast,
    /// Do not wait: show at the previous position and move if that was wrong.
    Instant,
}

impl FirstShowMode {
    /// The name of the mode in a configuration file.
    pub open spec fn name(self) -> Seq<char> {
        match self {
            FirstShowMode::Wait => "wait"@,
            FirstShowMode::Fast => "fast"@,
            FirstShowMode::Instant => "instant"@,
        }
    }

    /// The mode that `s` names, white space around it and the case of its letters aside.
    pub open spec fn named(s: Seq<char>) -> Option<FirstShowMode> {
        let key = text::lowered(text::trimmed(s));
        if key == FirstShowMode::Wait.name() {
            Some(FirstShowMode::Wait)
        } else if key == FirstShowMode::Fast.name() {
            Some(FirstShowMode::Fast)
        } else if key == FirstShowMode::Instant.name() {
            Some(FirstShowMode::Instant)
        } else {
            None
        }
    }

    /// The mode that counts where no other is named.
    pub open spec fn fallback() -> FirstShowMode {
        FirstShowMode::Fast
    }

    /// Reads a mode from a configuration value; `None` if the value names no mode.
    ///
    /// Falling back to the default is left to the caller that holds the global setting. For a
    /// single application an unknown name means the same as no name: follow the global setting.
    pub fn from_config(s: &str) -> (res: Option<Self>)
        ensures
            res == Self::named(s@),
    {
        let key = s.trim().to_ascii_lowercase();
        if same_text(key.as_str(), "wait") {
            Some(FirstShowMode::Wait)
        } else if same_text(key.as_str(), "fast") {
            Some(FirstShowMode::Fast)
        } else if same_text(key.as_str(), "instant") {
            Some(FirstShowMode::Instant)
        } else {
            None
        }
    }

    /// The name under which the mode is written to a configuration file.
    pub fn as_config(self) -> (res: &'static str)
        ensures
            res@ == self.name(),
    {
        match self {
            FirstShowMode::Wait => "wait",
            FirstShowMode::Fast => "fast",
            FirstShowMode::Instant => "instant",
        }
    }
}

impl Default for FirstShowMode {
    fn default() -> (res: Self)
        ensures
            res == FirstShowMode::fallback(),
    {
        FirstShowMode::Fast
    }
}

/// The language state that an application starts in.
///
/// It is a starting value, not a lock: it applies when the application is entered, and the user
/// may switch freely from there.
#[derive(Debug, Clone, Copy, PartialEq, Eq, Structural)]
pub enum InitialMode {
    English,
    Chinese,
}

impl InitialMode {
    /// The name of the mode in a configuration file.
    pub open spec fn name(self) -> Seq<char> {
        match self {
            InitialMode::English => "english"@,
            InitialMode::Chinese => "chinese"@,
        }
    }

    /// The mode that `s` names in full or by its language code, white space around it and the
    /// case of its letters aside.
    pub open spec fn named(s: Seq<char>) -> Option<InitialMode> {
        let key = text::lowered(text::trimmed(s));
        if key == InitialMode::English.name() || key == "en"@ {
            Some(InitialMode::English)
        } else if key == InitialMode::Chinese.name() || key == "zh"@ {
            Some(InitialMode::Chinese)
        } else {
            None
        }
    }

    /// Reads a mode from a configuration value; `None` if the value names no mode, which means
    /// that the rule does not interfere. A misspelt name never stands for either mode.
    pub fn from_config(s: &str) -> (res: Option<Self>)
        ensures
            res == Self::named(s@),
    {
        let key = s.trim().to_ascii_lowercase();
        if same_text(key.as_str(), "english") || same_text(key.as_str(), "en") {
            Some(InitialMode::English)
        } else if same_text(key.as_str(), "chinese") || same_text(key.as_str(), "zh") {
            Some(InitialMode::Chinese)
        } else {
            None
        }
    }

    /// The name under which the mode is written to a configuration file.
    pub fn as_config(self) -> (res: &'static str)
        ensures
            res@ == self.name(),
    {
        match self {
            InitialMode::English => "english",
            InitialMode::Chinese => "chinese",
        }
    }

    /// The mode as a switch: whether it is Chinese.
    pub open spec fn as_switch(self) -> bool {
        self == InitialMode::Chinese
    }

    /// The mode that a switch stands for.
    pub open spec fn of_switch(chinese: bool) -> InitialMode {
        if chinese {
            InitialMode::Chinese
        } else {
            InitialMode::English
        }
    }

    /// The mode as the switch that the input state holds.
    pub fn is_chinese(self) -> (res: bool)
        ensures
            res == self.as_switch(),
    {
        match self {
            InitialMode::English => false,
            InitialMode::Chinese => true,
        }
    }

    /// The mode that a switch of the input state stands for.
    pub fn from_chinese(chinese: bool) -> (res: Self)
        ensures
            res == Self::of_switch(chinese),
    {
        if chinese {
            InitialMode::Chinese
        } else {
            InitialMode::English
        }
    }
}

/// Trimming keeps a text that has no white space at either end.
proof fn lemma_trim_keeps(s: Seq<char>)
    requires
        s.len() > 0,
        !text::is_white(s[0]),
        !text::is_white(s.last()),
    ensures
        text::trimmed(s) == s,
{
}

/// Reading the name of a first-show mode gives the mode back.
pub proof fn law_first_show_mode_round_trip(mode: FirstShowMode)
    ensures
        FirstShowMode::named(mode.name()) == Some(mode),
{
    reveal_strlit("wait");
    reveal_strlit("fast");
    reveal_strlit("instant");
    lemma_trim_keeps(mode.name());
    assert(text::lowered(mode.name()) =~= mode.name());
    assert("wait"@[0] != "fast"@[0]);
    assert("instant"@.len() != "wait"@.len() && "instant"@.len() != "fast"@.len());
}

/// Reading the name of an initial mode gives the mode back.
pub proof fn law_initial_mode_round_trip(mode: InitialMode)
    ensures
        InitialMode::named(mode.name()) == Some(mode),
{
    reveal_strlit("english");
    reveal_strlit("chinese");
    reveal_strlit("en");
    lemma_trim_keeps(mode.name());
    assert(text::lowered(mode.name()) =~= mode.name());
    assert("english"@[0] != "chinese"@[0]);
    assert("en"@.len() != "chinese"@.len());
}

} // verus!
