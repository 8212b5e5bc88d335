//! Per-application compatibility rules and how they are edited.
use vstd::prelude::*;

use crate::config::SmartMethod;
use crate::mode::{FirstShowMode, InitialMode};
use crate::text;
use crate::text::same_text;

verus! {

/// The compatibility rule of one application.
///
/// Every field but the process name has a neutral value that leaves the matter to the global
/// settings. The optional fields tell "not set for this application" apart from an explicit
/// value, so that a changed global setting reaches every application that never set its own.
#[derive(Debug)]
pub struct AppCompatRule {
    /// Process name such as `Weixin.exe`; its case does not matter.
    pub process: String,
    /// A note for the reader of the file.
    pub comment: String,
    /// Place the candidate window by the top of the caret rectangle instead of its bottom, for
    /// hosts that report an unsteady height.
    pub caret_use_top: bool,
    /// Distrust a caret position that contradicts the one reported before the composition, for
    /// hosts that keep reporting where the previous composition was.
    pub stale_probe_guard: bool,
    /// Read a degraded caret report and the selection report after it as one sample, for hosts
    /// that alternate between the two. `None` takes the value of a lower layer.
    pub composition_start_pair_guard: Option<bool>,
    /// First-show mode; `None` follows the global one.
    pub first_show_mode: Option<FirstShowMode>,
    /// Language state on entering the application; `None` does not interfere.
    pub initial_mode: Option<InitialMode>,
    /// Punctuation state on entering the application; `None` does not interfere.
    pub initial_punct: Option<InitialMode>,
    /// Whether the host itself draws the candidate window.
    pub host_render: bool,
    /// Automatic pairing of symbols; `None` follows the global setting.
    pub auto_pair: Option<bool>,
    /// Smart symbol replacement; `None` follows the global setting.
    pub smart_method: Option<SmartMethod>,
    /// Horizontal caret correction in device independent pixels, positive to the right.
    pub caret_offset_x: i32,
    /// Vertical caret correction in device independent pixels, positive downwards.
    pub caret_offset_y: i32,
}

/// What an [`AppCompatRule`] says.
#[verifier::ext_equal]
pub ghost struct RuleView {
    pub process: Seq<char>,
    pub comment: Seq<char>,
    pub caret_use_top: bool,
    pub stale_probe_guard: bool,
    pub composition_start_pair_guard: Option<bool>,
    pub first_show_mode: Option<FirstShowMode>,
    pub initial_mode: Option<InitialMode>,
    pub initial_punct: Option<InitialMode>,
    pub host_render: bool,
    pub auto_pair: Option<bool>,
    pub smart_method: Option<SmartMethod>,
    pub caret_offset_x: i32,
    pub caret_offset_y: i32,
}

impl RuleView {
    /// The rule for `process` that sets nothing.
    pub open spec fn bare(process: Seq<char>) -> RuleView {
        RuleView {
            process,
            comment: Seq::empty(),
            caret_use_top: false,
            stale_probe_guard: false,
            composition_start_pair_guard: None,
            first_show_mode: None,
            initial_mode: None,
            initial_punct: None,
            host_render: false,
            auto_pair: None,
            smart_method: None,
            caret_offset_x: 0,
            caret_offset_y: 0,
        }
    }

    /// Whether the rule sets nothing.
    pub open spec fn is_bare(self) -> bool {
        self == RuleView::bare(self.process)
    }

    /// The name under which the rule is found.
    pub open spec fn key(self) -> Seq<char> {
        text::lowered(self.process)
    }
}

impl View for AppCompatRule {
    type V = RuleView;

    open spec fn view(&self) -> RuleView {
        RuleView {
            process: self.process@,
            comment: self.comment@,
            caret_use_top: self.caret_use_top,
            stale_probe_guard: self.stale_probe_guard,
            composition_start_pair_guard: self.composition_start_pair_guard,
            first_show_mode: self.first_show_mode,
            initial_mode: self.initial_mode,
            initial_punct: self.initial_punct,
            host_render: self.host_render,
            auto_pair: self.auto_pair,
            smart_method: self.smart_method,
            caret_offset_x: self.caret_offset_x,
            caret_offset_y: self.caret_offset_y,
        }
    }
}

/// What a list of rules says.
pub open spec fn rule_views(rules: Seq<AppCompatRule>) -> Seq<RuleView> {
    rules.map_values(|rule: AppCompatRule| rule@)
}

impl Clone for AppCompatRule {
    fn clone(&self) -> (res: Self)
        ensures
            res == *self,
    {
        AppCompatRule {
            process: self.process.clone(),
            comment: self.comment.clone(),
            caret_use_top: self.caret_use_top,
            stale_probe_guard: self.stale_probe_guard,
            composition_start_pair_guard: self.composition_start_pair_guard,
            first_show_mode: self.first_show_mode,
            initial_mode: self.initial_mode,
            initial_punct: self.initial_punct,
            host_render: self.host_render,
            auto_pair: self.auto_pair,
            smart_method: self.smart_method,
            caret_offset_x: self.caret_offset_x,
            caret_offset_y: self.caret_offset_y,
        }
    }
}

impl Default for AppCompatRule {
    /// A rule that names no process and sets nothing.
    fn default() -> (res: Self)
        ensures
            res@ == RuleView::bare(Seq::empty()),
    {
        AppCompatRule {
            process: String::new(),
            comment: String::new(),
            caret_use_top: false,
            stale_probe_guard: false,
            composition_start_pair_guard: None,
            first_show_mode: None,
            initial_mode: None,
            initial_punct: None,
            host_render: false,
            auto_pair: None,
            smart_method: None,
            caret_offset_x: 0,
            caret_offset_y: 0,
        }
    }
}

/// Restricts where the initial modes of a process are applied again.
///
/// One process name may stand for windows of opposite kinds: the desktop, where the user stays,
/// and the task bar, which every switch of applications passes through. A scope lists the window
/// classes on which the initial modes of the process apply. It is an allow list on purpose: a
/// window whose class is unknown or new is outside, and outside nothing changes.
///
/// Scopes are kept apart from the rules, so that a rule that replaces another one for the same
/// process does not take the scope with it.
#[derive(Debug, PartialEq, Eq)]
pub struct InitialModeScopeRule {
    /// Process name such as `explorer.exe`; its case does not matter.
    pub process: String,
    /// A note for the reader of the file.
    pub comment: String,
    /// The window classes that the initial modes apply to; their case does not matter. With no
    /// class they apply to no window of the process.
    pub classes: Vec<String>,
}

/// What an [`InitialModeScopeRule`] says.
#[verifier::ext_equal]
pub ghost struct ScopeView {
    pub process: Seq<char>,
    pub comment: Seq<char>,
    pub classes: Seq<Seq<char>>,
}

impl ScopeView {
    /// The name under which the scope is found.
    pub open spec fn key(self) -> Seq<char> {
        text::lowered(self.process)
    }

    /// Whether the scope lists a window class.
    pub open spec fn lists(self, class: Seq<char>) -> bool {
        exists|i: int|
            0 <= i < self.classes.len() && text::lowered(#[trigger] self.classes[i])
                == text::lowered(class)
    }
}

impl View for InitialModeScopeRule {
    type V = ScopeView;

    open spec fn view(&self) -> ScopeView {
        ScopeView {
            process: self.process@,
            comment: self.comment@,
            classes: text::texts(self.classes@),
        }
    }
}

/// What a list of scopes says.
pub open spec fn scope_views(scopes: Seq<InitialModeScopeRule>) -> Seq<ScopeView> {
    scopes.map_values(|scope: InitialModeScopeRule| scope@)
}

impl Clone for InitialModeScopeRule {
    fn clone(&self) -> (res: Self)
        ensures
            res@ == self@,
    {
        let classes = self.classes.clone();
        assert(text::texts(classes@) =~= text::texts(self.classes@));
        InitialModeScopeRule {
            process: self.process.clone(),
            comment: self.comment.clone(),
            classes,
        }
    }
}

impl Default for InitialModeScopeRule {
    /// A scope that names no process and lists no class.
    fn default() -> (res: Self)
        ensures
            res@ == (ScopeView {
                process: Seq::empty(),
                comment: Seq::empty(),
                classes: Seq::empty(),
            }),
    {
        let classes: Vec<String> = Vec::new();
        assert(text::texts(classes@) =~= Seq::<Seq<char>>::empty());
        InitialModeScopeRule { process: String::new(), comment: String::new(), classes }
    }
}

/// The index of the first rule found under `key`.
pub open spec fn first_index(rules: Seq<RuleView>, key: Seq<char>) -> Option<int>
    decreases rules.len(),
{
    if rules.len() == 0 {
        None
    } else {
        match first_index(rules.drop_last(), key) {
            Some(i) => Some(i),
            None => if rules.last().key() == key {
                Some(rules.len() - 1)
            } else {
                None
            },
        }
    }
}

/// `rules` with `edit` applied to the first rule of `process`, or, where there is none, with the
/// result of `edit` on a bare rule added at the end.
pub open spec fn upserted(
    rules: Seq<RuleView>,
    process: Seq<char>,
    edit: spec_fn(RuleView) -> RuleView,
) -> Seq<RuleView> {
    match first_index(rules, text::lowered(process)) {
        Some(i) => rules.update(i, edit(rules[i])),
        None => rules.push(edit(RuleView::bare(process))),
    }
}

/// Edits the rule of one process in place.
///
/// The first rule whose process name matches, case aside, is handed to `edit`; no other rule is
/// touched. Without a match a rule that sets nothing is added for the process, with the name as
/// given, and handed to `edit`.
pub fn upsert_rule(
    rules: &mut Vec<AppCompatRule>,
    process: &str,
    edit: impl FnOnce(&mut AppCompatRule),
)
    requires
        match first_index(rule_views(old(rules)@), text::lowered(process@)) {
            Some(i) => forall|rule: &mut AppCompatRule|
                *rule == old(rules)@[i] ==> #[trigger] call_requires(edit, (rule,)),
            None => forall|rule: &mut AppCompatRule|
                rule@ == RuleView::bare(process@) ==> #[trigger] call_requires(edit, (rule,)),
        },
    ensures
        match first_index(rule_views(old(rules)@), text::lowered(process@)) {
            Some(i) => exists|rule: &mut AppCompatRule|
                {
                    &&& #[trigger] call_ensures(edit, (rule,), ())
                    &&& *rule == old(rules)@[i]
                    &&& final(rules)@ == old(rules)@.update(i, *final(rule))
                },
            None => exists|rule: &mut AppCompatRule|
                {
                    &&& #[trigger] call_ensures(edit, (rule,), ())
                    &&& rule@ == RuleView::bare(process@)
                    &&& final(rules)@ == old(rules)@.push(*final(rule))
                },
        },
{
    let key = process.to_ascii_lowercase();
    let mut i: usize = 0;
    let ghost views = rule_views(rules@);
    while i < rules.len()
        invariant
            i <= rules@.len(),
            *rules == *old(rules),
            views == rule_views(rules@),
            key@ == text::lowered(process@),
            first_index(views.take(i as int), key@) is None,
            match first_index(views, key@) {
                Some(k) => forall|rule: &mut AppCompatRule|
                    *rule == rules@[k] ==> #[trigger] call_requires(edit, (rule,)),
                None => forall|rule: &mut AppCompatRule|
                    rule@ == RuleView::bare(process@) ==> #[trigger] call_requires(
                        edit,
                        (rule,),
                    ),
            },
        decreases rules@.len() - i,
    {
        let found = rules[i].process.as_str().to_ascii_lowercase();
        proof {
            assert(views.take(i + 1).drop_last() =~= views.take(i as int));
        }
        if same_text(found.as_str(), key.as_str()) {
            proof {
                lemma_first_index_prefix(views, key@, i + 1);
            }
            let rule = &mut rules[i];
            edit(rule);
            return;
        }
        i += 1;
    }
    assert(views.take(views.len() as int) =~= views);
    let mut fresh = AppCompatRule { process: process.to_owned(), ..Default::default() };
    edit(&mut fresh);
    rules.push(fresh);
}

/// What a prefix finds, the whole list finds.
proof fn lemma_first_index_prefix(rules: Seq<RuleView>, key: Seq<char>, n: int)
    requires
        0 <= n <= rules.len(),
        first_index(rules.take(n), key) is Some,
    ensures
        first_index(rules, key) == first_index(rules.take(n), key),
    decreases rules.len() - n,
{
    if n < rules.len() {
        assert(rules.take(n + 1).drop_last() =~= rules.take(n));
        lemma_first_index_prefix(rules, key, n + 1);
    } else {
        assert(rules.take(n) =~= rules);
    }
}

/// What the first index found under a key is.
pub proof fn lemma_first_index(rules: Seq<RuleView>, key: Seq<char>)
    ensures
        match first_index(rules, key) {
            Some(i) => {
                &&& 0 <= i < rules.len()
                &&& rules[i].key() == key
                &&& forall|j: int| 0 <= j < i ==> (#[trigger] rules[j]).key() != key
            },
            None => forall|j: int| 0 <= j < rules.len() ==> (#[trigger] rules[j]).key() != key,
        },
    decreases rules.len(),
{
    if rules.len() > 0 {
        let front = rules.drop_last();
        lemma_first_index(front, key);
        assert forall|j: int| 0 <= j < front.len() implies #[trigger] rules[j] == front[j] by {}
    }
}

/// A list in which exactly the rule of `process` was edited reads as the upserted one.
proof fn lemma_upserted(
    before: Seq<AppCompatRule>,
    after: Seq<AppCompatRule>,
    process: Seq<char>,
    edit: spec_fn(RuleView) -> RuleView,
)
    requires
        match first_index(rule_views(before), text::lowered(process)) {
            Some(i) => 0 <= i < before.len() ==> {
                &&& after == before.update(i, after[i])
                &&& after[i]@ == edit(before[i]@)
            },
            None => {
                &&& after == before.push(after.last())
                &&& after.last()@ == edit(RuleView::bare(process))
            },
        },
    ensures
        rule_views(after) == upserted(rule_views(before), process, edit),
{
    lemma_first_index(rule_views(before), text::lowered(process));
    assert(rule_views(after) =~= upserted(rule_views(before), process, edit));
}

/// Sets the first-show mode of a process; `None` makes it follow the global one again.
pub fn set_first_show_mode(
    rules: &mut Vec<AppCompatRule>,
    process: &str,
    mode: Option<FirstShowMode>,
)
    ensures
        rule_views(final(rules)@) == upserted(
            rule_views(old(rules)@),
            process@,
            |rule: RuleView| RuleView { first_show_mode: mode, ..rule },
        ),
{
    upsert_rule(
        rules,
        process,
        |rule: &mut AppCompatRule|
            ensures
                final(rule)@ == (RuleView { first_show_mode: mode, ..old(rule)@ })
            {
                rule.first_show_mode = mode;
            },
    );
    proof {
        lemma_upserted(
            old(rules)@,
            rules@,
            process@,
            |rule: RuleView| RuleView { first_show_mode: mode, ..rule },
        );
    }
}

/// Sets the initial language state of a process; `None` stops interfering.
pub fn set_initial_mode(rules: &mut Vec<AppCompatRule>, process: &str, mode: Option<InitialMode>)
    ensures
        rule_views(final(rules)@) == upserted(
            rule_views(old(rules)@),
            process@,
            |rule: RuleView| RuleView { initial_mode: mode, ..rule },
        ),
{
    upsert_rule(
        rules,
        process,
        |rule: &mut AppCompatRule|
            ensures
                final(rule)@ == (RuleView { initial_mode: mode, ..old(rule)@ })
            {
                rule.initial_mode = mode;
            },
    );
    proof {
        lemma_upserted(
            old(rules)@,
            rules@,
            process@,
            |rule: RuleView| RuleView { initial_mode: mode, ..rule },
        );
    }
}

/// Sets the initial punctuation state of a process; `None` stops interfering.
pub fn set_initial_punct(rules: &mut Vec<AppCompatRule>, process: &str, mode: Option<InitialMode>)
    ensures
        rule_views(final(rules)@) == upserted(
            rule_views(old(rules)@),
            process@,
            |rule: RuleView| RuleView { initial_punct: mode, ..rule },
        ),
{
    upsert_rule(
        rules,
        process,
        |rule: &mut AppCompatRule|
            ensures
                final(rule)@ == (RuleView { initial_punct: mode, ..old(rule)@ })
            {
                rule.initial_punct = mode;
            },
    );
    proof {
        lemma_upserted(
            old(rules)@,
            rules@,
            process@,
            |rule: RuleView| RuleView { initial_punct: mode, ..rule },
        );
    }
}

/// Sets whether the host draws the candidate window of a process.
pub fn set_host_render(rules: &mut Vec<AppCompatRule>, process: &str, enabled: bool)
    ensures
        rule_views(final(rules)@) == upserted(
            rule_views(old(rules)@),
            process@,
            |rule: RuleView| RuleView { host_render: enabled, ..rule },
        ),
{
    upsert_rule(
        rules,
        process,
        |rule: &mut AppCompatRule|
            ensures
                final(rule)@ == (RuleView { host_render: enabled, ..old(rule)@ })
            {
                rule.host_render = enabled;
            },
    );
    proof {
        lemma_upserted(
            old(rules)@,
            rules@,
            process@,
            |rule: RuleView| RuleView { host_render: enabled, ..rule },
        );
    }
}

/// Sets symbol pairing for a process; `None` makes it follow the global setting again.
pub fn set_auto_pair(rules: &mut Vec<AppCompatRule>, process: &str, enabled: Option<bool>)
    ensures
        rule_views(final(rules)@) == upserted(
            rule_views(old(rules)@),
            process@,
            |rule: RuleView| RuleView { auto_pair: enabled, ..rule },
        ),
{
    upsert_rule(
        rules,
        process,
        |rule: &mut AppCompatRule|
            ensures
                final(rule)@ == (RuleView { auto_pair: enabled, ..old(rule)@ })
            {
                rule.auto_pair = enabled;
            },
    );
    proof {
        lemma_upserted(
            old(rules)@,
            rules@,
            process@,
            |rule: RuleView| RuleView { auto_pair: enabled, ..rule },
        );
    }
}

/// Sets smart symbol replacement for a process; `None` makes it follow the global setting again.
pub fn set_smart_method(rules: &mut Vec<AppCompatRule>, process: &str, method: Option<SmartMethod>)
    ensures
        rule_views(final(rules)@) == upserted(
            rule_views(old(rules)@),
            process@,
            |rule: RuleView| RuleView { smart_method: method, ..rule },
        ),
{
    upsert_rule(
        rules,
        process,
        |rule: &mut AppCompatRule|
            ensures
                final(rule)@ == (RuleView { smart_method: method, ..old(rule)@ })
            {
                rule.smart_method = method;
            },
    );
    proof {
        lemma_upserted(
            old(rules)@,
            rules@,
            process@,
            |rule: RuleView| RuleView { smart_method: method, ..rule },
        );
    }
}

/// Sets the caret correction of a process; zero corrects nothing.
pub fn set_caret_offset(rules: &mut Vec<AppCompatRule>, process: &str, dx: i32, dy: i32)
    ensures
        rule_views(final(rules)@) == upserted(
            rule_views(old(rules)@),
            process@,
            |rule: RuleView| RuleView { caret_offset_x: dx, caret_offset_y: dy, ..rule },
        ),
{
    upsert_rule(
        rules,
        process,
        |rule: &mut AppCompatRule|
            ensures
                final(rule)@ == (RuleView { caret_offset_x: dx, caret_offset_y: dy, ..old(rule)@ })
            {
                rule.caret_offset_x = dx;
                rule.caret_offset_y = dy;
            },
    );
    proof {
        lemma_upserted(
            old(rules)@,
            rules@,
            process@,
            |rule: RuleView| RuleView { caret_offset_x: dx, caret_offset_y: dy, ..rule },
        );
    }
}

} // verus!
