//! What the operations mean, said of characters, places and fields.
//!
//! Each law here says of one operation what its result is, without the notions by which the
//! operation itself is described: a reader who knows no more than sequences can hold the operation
//! to it.
use vstd::prelude::*;

use crate::codec;
use crate::compat;
use crate::compat_file;
use crate::compat_file::AppCompatFile;
use crate::config;
use crate::config::SmartMethod;
use crate::laws;
use crate::merge;
use crate::mode::{FirstShowMode, InitialMode};
use crate::rule;
use crate::rule::{AppCompatRule, InitialModeScopeRule};
use crate::text;
use crate::toml_tree;
use crate::toml_tree::{Node, Piece, Shape};

verus! {

/// Lower case keeps the length of a text and every character but `A` to `Z`, which become the
/// letters 32 places further on.
pub proof fn law_lower_case(s: Seq<char>)
    ensures
        text::lowered(s).len() == s.len(),
        forall|i: int|
            0 <= i < s.len() ==> #[trigger] text::lowered(s)[i] as int == s[i] as int + if 65
                <= s[i] as int <= 90 {
                32int
            } else {
                0
            },
{
}

/// Where trimming at the start cuts.
proof fn lemma_trimmed_start(s: Seq<char>) -> (i: int)
    ensures
        0 <= i <= s.len(),
        text::trimmed_start(s) == s.skip(i),
        forall|k: int| 0 <= k < i ==> text::is_white(#[trigger] s[k]),
        i < s.len() ==> !text::is_white(s[i]),
    decreases s.len(),
{
    if s.len() > 0 && text::is_white(s[0]) {
        let i = lemma_trimmed_start(s.skip(1));
        assert(s.skip(1).skip(i) =~= s.skip(i + 1));
        assert forall|k: int| 0 <= k < i + 1 implies text::is_white(#[trigger] s[k]) by {
            if k > 0 {
                assert(s.skip(1)[k - 1] == s[k]);
            }
        }
        if i < s.skip(1).len() {
            assert(s.skip(1)[i] == s[i + 1]);
        }
        i + 1
    } else {
        assert(s.skip(0) =~= s);
        0
    }
}

/// Where trimming at the end cuts.
proof fn lemma_trimmed_end(s: Seq<char>) -> (j: int)
    ensures
        0 <= j <= s.len(),
        text::trimmed_end(s) == s.take(j),
        forall|k: int| j <= k < s.len() ==> text::is_white(#[trigger] s[k]),
        j > 0 ==> !text::is_white(s[j - 1]),
    decreases s.len(),
{
    if s.len() > 0 && text::is_white(s.last()) {
        let j = lemma_trimmed_end(s.drop_last());
        assert(s.drop_last().take(j) =~= s.take(j));
        assert forall|k: int| j <= k < s.len() implies text::is_white(#[trigger] s[k]) by {
            if k < s.len() - 1 {
                assert(s.drop_last()[k] == s[k]);
            }
        }
        j
    } else {
        assert(s.take(s.len() as int) =~= s);
        s.len() as int
    }
}

/// Trimming keeps the stretch of a text that starts and ends with something else than white space
/// and has nothing but white space around it.
pub proof fn law_trimming(s: Seq<char>)
    ensures
        exists|i: int, j: int|
            {
                &&& 0 <= i <= j <= s.len()
                &&& text::trimmed(s) == #[trigger] s.subrange(i, j)
                &&& forall|k: int|
                    0 <= k < i || j <= k < s.len() ==> text::is_white(#[trigger] s[k])
                &&& i < j ==> !text::is_white(s[i]) && !text::is_white(s[j - 1])
            },
{
    let i = lemma_trimmed_start(s);
    let rest = s.skip(i);
    let n = lemma_trimmed_end(rest);
    assert(rest.take(n) =~= s.subrange(i, i + n));
    assert forall|k: int| 0 <= k < i || i + n <= k < s.len() implies text::is_white(
        #[trigger] s[k],
    ) by {
        if k >= i {
            assert(rest[k - i] == s[k]);
        }
    }
    if n > 0 {
        assert(rest[n - 1] == s[i + n - 1]);
        assert(rest[0] == s[i]);
    }
}

/// A text names a first-show mode only where it is, trimmed and in lower case, the word for that
/// mode, letter for letter; any other text names none.
pub proof fn law_first_show_mode_is_named_exactly(s: Seq<char>)
    ensures
        FirstShowMode::named(s) == Some(FirstShowMode::Wait) <==> {
            ||| text::lowered(text::trimmed(s)) == seq!['w', 'a', 'i', 't']
        },
        FirstShowMode::named(s) == Some(FirstShowMode::Fast) <==> {
            ||| text::lowered(text::trimmed(s)) == seq!['f', 'a', 's', 't']
        },
        FirstShowMode::named(s) == Some(FirstShowMode::Instant) <==> {
            ||| text::lowered(text::trimmed(s)) == seq!['i', 'n', 's', 't', 'a', 'n', 't']
        },
        FirstShowMode::Wait.name() == seq!['w', 'a', 'i', 't'],
        FirstShowMode::Fast.name() == seq!['f', 'a', 's', 't'],
        FirstShowMode::Instant.name() == seq!['i', 'n', 's', 't', 'a', 'n', 't'],
{
    reveal_strlit("wait");
    reveal_strlit("fast");
    reveal_strlit("instant");
    assert("wait"@ =~= seq!['w', 'a', 'i', 't']);
    assert("fast"@ =~= seq!['f', 'a', 's', 't']);
    assert("instant"@ =~= seq!['i', 'n', 's', 't', 'a', 'n', 't']);
    assert("wait"@[0] != "fast"@[0]);
    assert("wait"@.len() != "instant"@.len());
    assert("fast"@.len() != "instant"@.len());
}

/// A text names an initial mode only where it is, trimmed and in lower case, the word or the code
/// for that mode, letter for letter; any other text names none.
pub proof fn law_initial_mode_is_named_exactly(s: Seq<char>)
    ensures
        InitialMode::named(s) == Some(InitialMode::English) <==> {
            ||| text::lowered(text::trimmed(s)) == seq!['e', 'n', 'g', 'l', 'i', 's', 'h']
            ||| text::lowered(text::trimmed(s)) == seq!['e', 'n']
        },
        InitialMode::named(s) == Some(InitialMode::Chinese) <==> {
            ||| text::lowered(text::trimmed(s)) == seq!['c', 'h', 'i', 'n', 'e', 's', 'e']
            ||| text::lowered(text::trimmed(s)) == seq!['z', 'h']
        },
        InitialMode::English.name() == seq!['e', 'n', 'g', 'l', 'i', 's', 'h'],
        InitialMode::Chinese.name() == seq!['c', 'h', 'i', 'n', 'e', 's', 'e'],
{
    reveal_strlit("english");
    reveal_strlit("en");
    reveal_strlit("chinese");
    reveal_strlit("zh");
    assert("english"@ =~= seq!['e', 'n', 'g', 'l', 'i', 's', 'h']);
    assert("en"@ =~= seq!['e', 'n']);
    assert("chinese"@ =~= seq!['c', 'h', 'i', 'n', 'e', 's', 'e']);
    assert("zh"@ =~= seq!['z', 'h']);
    assert("english"@.len() != "en"@.len());
    assert("english"@[0] != "chinese"@[0]);
    assert("english"@.len() != "zh"@.len());
    assert("en"@.len() != "chinese"@.len());
    assert("en"@[0] != "zh"@[0]);
    assert("chinese"@.len() != "zh"@.len());
}

/// A text names a replacement method only where it is the word for that method, letter for letter.
pub proof fn law_smart_method_is_named_exactly(s: Seq<char>)
    ensures
        SmartMethod::named(s) == Some(SmartMethod::DeleteReplace) <==> {
            ||| s == seq!['d', 'e', 'l', 'e', 't', 'e', '_', 'r', 'e', 'p', 'l', 'a', 'c', 'e']
        },
        SmartMethod::named(s) == Some(SmartMethod::HoldComposition) <==> {
            ||| s == seq![
                'h', 'o', 'l', 'd', '_', 'c', 'o', 'm', 'p', 'o', 's', 'i', 't', 'i',
                'o', 'n',
            ]
        },
        SmartMethod::DeleteReplace.name() == seq![
            'd', 'e', 'l', 'e', 't', 'e', '_', 'r', 'e', 'p', 'l', 'a', 'c', 'e',
        ],
        SmartMethod::HoldComposition.name() == seq![
            'h', 'o', 'l', 'd', '_', 'c', 'o', 'm', 'p', 'o', 's', 'i', 't', 'i',
            'o', 'n',
        ],
{
    reveal_strlit("delete_replace");
    reveal_strlit("hold_composition");
    assert("delete_replace"@ =~= seq![
        'd', 'e', 'l', 'e', 't', 'e', '_', 'r', 'e', 'p', 'l', 'a', 'c', 'e',
    ]);
    assert("hold_composition"@ =~= seq![
        'h', 'o', 'l', 'd', '_', 'c', 'o', 'm', 'p', 'o', 's', 'i', 't', 'i',
        'o', 'n',
    ]);
    assert("delete_replace"@.len() != "hold_composition"@.len());
}

/// Without a name the mode is `Fast`, which the factory settings name too, and of the two initial
/// modes `Chinese` is the switch that is on.
pub proof fn law_defaults_of_modes(mode: InitialMode)
    ensures
        FirstShowMode::fallback() == FirstShowMode::Fast,
        config::factory_first_show_mode() == seq!['f', 'a', 's', 't'],
        InitialMode::of_switch(true) == InitialMode::Chinese,
        InitialMode::of_switch(false) == InitialMode::English,
        mode.as_switch() <==> mode == InitialMode::Chinese,
{
    reveal_strlit("fast");
    assert("fast"@ =~= seq!['f', 'a', 's', 't']);
}

/// A rule says what its fields hold.
pub proof fn law_view_of_rule(rule: AppCompatRule)
    ensures
        rule@.process == rule.process@,
        rule@.comment == rule.comment@,
        rule@.caret_use_top == rule.caret_use_top,
        rule@.stale_probe_guard == rule.stale_probe_guard,
        rule@.composition_start_pair_guard == rule.composition_start_pair_guard,
        rule@.first_show_mode == rule.first_show_mode,
        rule@.initial_mode == rule.initial_mode,
        rule@.initial_punct == rule.initial_punct,
        rule@.host_render == rule.host_render,
        rule@.auto_pair == rule.auto_pair,
        rule@.smart_method == rule.smart_method,
        rule@.caret_offset_x == rule.caret_offset_x,
        rule@.caret_offset_y == rule.caret_offset_y,
{
}

/// A scope says what its fields hold.
pub proof fn law_view_of_scope(scope: InitialModeScopeRule)
    ensures
        scope@.process == scope.process@,
        scope@.comment == scope.comment@,
        scope@.classes.len() == scope.classes@.len(),
        forall|i: int|
            0 <= i < scope.classes@.len() ==> #[trigger] scope@.classes[i] == scope.classes@[i]@,
{
}

/// A file says what its lists hold, each in order, and an optional one what it says if it is there.
pub proof fn law_view_of_file(file: AppCompatFile)
    ensures
        file@.apps.len() == file.apps@.len(),
        forall|i: int| 0 <= i < file.apps@.len() ==> #[trigger] file@.apps[i] == file.apps@[i]@,
        file@.initial_mode_scope.len() == file.initial_mode_scope@.len(),
        forall|i: int|
            0 <= i < file.initial_mode_scope@.len() ==> #[trigger] file@.initial_mode_scope[i]
                == file.initial_mode_scope@[i]@,
        compat::file_view(Some(file)) == Some(file@),
        compat::file_view(None) is None,
        compat_file::FileView::empty().apps.len() == 0,
        compat_file::FileView::empty().initial_mode_scope.len() == 0,
{
}

/// A list of rules says what its rules say, a list of scopes what its scopes say, and a list of
/// texts what its texts say, each in order.
pub proof fn law_view_of_lists(
    rules: Seq<AppCompatRule>,
    scopes: Seq<InitialModeScopeRule>,
    list: Seq<String>,
)
    ensures
        rule::rule_views(rules).len() == rules.len(),
        forall|i: int| 0 <= i < rules.len() ==> #[trigger] rule::rule_views(rules)[i] == rules[i]@,
        rule::scope_views(scopes).len() == scopes.len(),
        forall|i: int|
            0 <= i < scopes.len() ==> #[trigger] rule::scope_views(scopes)[i] == scopes[i]@,
        text::texts(list).len() == list.len(),
        forall|i: int| 0 <= i < list.len() ==> #[trigger] text::texts(list)[i] == list[i]@,
{
}

/// Rules and scopes are found under their process in lower case, and a scope lists the classes
/// that are, case aside, among its own.
pub proof fn law_names_are_lower_case(
    rule: rule::RuleView,
    scope: rule::ScopeView,
    class: Seq<char>,
)
    ensures
        rule.key() == text::lowered(rule.process),
        scope.key() == text::lowered(scope.process),
        scope.lists(class) <==> scope.classes.map_values(
            |listed: Seq<char>| text::lowered(listed),
        ).contains(text::lowered(class)),
{
    let keys = scope.classes.map_values(|listed: Seq<char>| text::lowered(listed));
    if scope.lists(class) {
        let i = choose|i: int|
            0 <= i < scope.classes.len() && text::lowered(#[trigger] scope.classes[i])
                == text::lowered(class);
        assert(keys[i] == text::lowered(class));
    }
    if keys.contains(text::lowered(class)) {
        let i = keys.index_of(text::lowered(class));
        assert(text::lowered(scope.classes[i]) == text::lowered(class));
    }
}

/// A rule sets nothing exactly where every field beside its process is neutral.
pub proof fn law_rule_that_sets_nothing(rule: rule::RuleView)
    ensures
        rule.is_bare() <==> {
            &&& rule.comment.len() == 0
            &&& !rule.caret_use_top
            &&& !rule.stale_probe_guard
            &&& rule.composition_start_pair_guard is None
            &&& rule.first_show_mode is None
            &&& rule.initial_mode is None
            &&& rule.initial_punct is None
            &&& !rule.host_render
            &&& rule.auto_pair is None
            &&& rule.smart_method is None
            &&& rule.caret_offset_x == 0
            &&& rule.caret_offset_y == 0
        },
        rule::RuleView::bare(rule.process).is_bare(),
        rule::RuleView::bare(rule.process).process == rule.process,
{
    if rule.comment.len() == 0 {
        assert(rule.comment =~= Seq::empty());
    }
}

/// The rule in force for a process is one of the list with its name, case aside, and no later one
/// has that name; there is none exactly where no rule has it.
pub proof fn law_rule_in_force(rules: Seq<rule::RuleView>, process: Seq<char>)
    ensures
        match merge::rule_for(rules, process) {
            Some(rule) => exists|i: int|
                {
                    &&& 0 <= i < rules.len()
                    &&& #[trigger] rules[i] == rule
                    &&& text::lowered(rule.process) == text::lowered(process)
                    &&& forall|j: int|
                        i < j < rules.len() ==> text::lowered((#[trigger] rules[j]).process)
                            != text::lowered(process)
                },
            None => forall|i: int|
                0 <= i < rules.len() ==> text::lowered((#[trigger] rules[i]).process)
                    != text::lowered(process),
        },
{
    let key = text::lowered(process);
    merge::lemma_last_index(rules, key);
    assert forall|i: int| 0 <= i < rules.len() implies (#[trigger] rules[i]).key()
        == text::lowered(rules[i].process) by {}
}

/// The scope of a process is one of the list with its name, case aside, and no later one has that
/// name; there is none exactly where no scope has it or the process has no name.
pub proof fn law_scope_in_force(scopes: Seq<rule::ScopeView>, process: Seq<char>)
    ensures
        match merge::scope_for(scopes, process) {
            Some(scope) => process.len() > 0 && exists|i: int|
                {
                    &&& 0 <= i < scopes.len()
                    &&& #[trigger] scopes[i] == scope
                    &&& text::lowered(scope.process) == text::lowered(process)
                    &&& forall|j: int|
                        i < j < scopes.len() ==> text::lowered((#[trigger] scopes[j]).process)
                            != text::lowered(process)
                },
            None => process.len() == 0 || forall|i: int|
                0 <= i < scopes.len() ==> text::lowered((#[trigger] scopes[i]).process)
                    != text::lowered(process),
        },
{
    let key = text::lowered(process);
    merge::lemma_last_scope_index(scopes, key);
    assert forall|i: int| 0 <= i < scopes.len() implies (#[trigger] scopes[i]).key()
        == text::lowered(scopes[i].process) by {}
}

/// Where a process has a scope, the last one with its name, case aside, its initial modes apply to
/// a window exactly where the class of the window is not empty and is, case aside, one of those
/// that this scope lists.
pub proof fn law_scoped_process_applies_to_listed_classes(
    scopes: Seq<rule::ScopeView>,
    i: int,
    process: Seq<char>,
    class: Seq<char>,
)
    requires
        process.len() > 0,
        0 <= i < scopes.len(),
        text::lowered(scopes[i].process) == text::lowered(process),
        forall|j: int|
            i < j < scopes.len() ==> text::lowered((#[trigger] scopes[j]).process)
                != text::lowered(process),
    ensures
        compat::applies_to_window(scopes, process, class) <==> class.len() > 0 && exists|k: int|
            0 <= k < scopes[i].classes.len() && text::lowered(#[trigger] scopes[i].classes[k])
                == text::lowered(class),
{
    merge::lemma_last_scope_index(scopes, text::lowered(process));
    assert(scopes[i].key() == text::lowered(process));
}

/// Where a process has no scope, or no name, its initial modes apply to every window.
pub proof fn law_unscoped_process_applies_everywhere(
    scopes: Seq<rule::ScopeView>,
    process: Seq<char>,
    class: Seq<char>,
)
    requires
        process.len() == 0 || forall|i: int|
            0 <= i < scopes.len() ==> text::lowered((#[trigger] scopes[i]).process)
                != text::lowered(process),
    ensures
        compat::applies_to_window(scopes, process, class),
{
    merge::lemma_last_scope_index(scopes, text::lowered(process));
}

/// An edit of a process that has a rule changes the first one with its name, case aside, and
/// nothing else.
pub proof fn law_edit_of_first_rule(
    rules: Seq<rule::RuleView>,
    i: int,
    process: Seq<char>,
    edit: spec_fn(rule::RuleView) -> rule::RuleView,
)
    requires
        0 <= i < rules.len(),
        text::lowered(rules[i].process) == text::lowered(process),
        forall|j: int|
            0 <= j < i ==> text::lowered((#[trigger] rules[j]).process) != text::lowered(process),
    ensures
        rule::upserted(rules, process, edit) == rules.update(i, edit(rules[i])),
        rule::first_index(rules, text::lowered(process)) == Some(i),
{
    rule::lemma_first_index(rules, text::lowered(process));
    assert(rules[i].key() == text::lowered(process));
}

/// An edit of a process that has no rule adds one at the end: the edit of the rule that bears the
/// name as given and sets nothing.
pub proof fn law_edit_without_rule(
    rules: Seq<rule::RuleView>,
    process: Seq<char>,
    edit: spec_fn(rule::RuleView) -> rule::RuleView,
    bare: rule::RuleView,
)
    requires
        forall|i: int|
            0 <= i < rules.len() ==> text::lowered((#[trigger] rules[i]).process)
                != text::lowered(process),
        bare.process == process,
        bare.comment.len() == 0,
        !bare.caret_use_top,
        !bare.stale_probe_guard,
        bare.composition_start_pair_guard is None,
        bare.first_show_mode is None,
        bare.initial_mode is None,
        bare.initial_punct is None,
        !bare.host_render,
        bare.auto_pair is None,
        bare.smart_method is None,
        bare.caret_offset_x == 0,
        bare.caret_offset_y == 0,
    ensures
        rule::upserted(rules, process, edit) == rules.push(edit(bare)),
        rule::first_index(rules, text::lowered(process)) is None,
{
    rule::lemma_first_index(rules, text::lowered(process));
    assert(bare.comment =~= Seq::empty());
    assert(bare == rule::RuleView::bare(process));
}

/// Two choices that agree on every element choose alike.
proof fn lemma_filters_agree<A>(s: Seq<A>, p: spec_fn(A) -> bool, q: spec_fn(A) -> bool)
    requires
        forall|x: A| #[trigger] p(x) == q(x),
    ensures
        s.filter(p) == s.filter(q),
    decreases s.len(),
{
    reveal(Seq::filter);
    if s.len() > 0 {
        lemma_filters_agree(s.drop_last(), p, q);
        assert(p(s.last()) == q(s.last()));
    }
}

/// A merged list is the rules of the lower layer whose process no rule of the upper layer names,
/// case aside, in their order, and then the rules of the upper layer in theirs. Those differ from
/// what they were in the pair guard at most, and there only where they set none: then it is that
/// of the last rule of the lower layer with their name, if there is one.
pub proof fn law_merged_list(base: Seq<rule::RuleView>, user: Seq<rule::RuleView>)
    ensures
        ({
            let all = merge::merged(base, user);
            let n = all.len() - user.len();
            &&& n >= 0
            &&& all.take(n) == base.filter(
                |rule: rule::RuleView|
                    forall|k: int|
                        0 <= k < user.len() ==> text::lowered((#[trigger] user[k]).process)
                            != text::lowered(rule.process),
            )
            &&& forall|k: int|
                0 <= k < user.len() ==> #[trigger] user[k] == (rule::RuleView {
                    composition_start_pair_guard: user[k].composition_start_pair_guard,
                    ..all[n + k]
                })
            &&& forall|k: int|
                0 <= k < user.len() && (#[trigger] user[k]).composition_start_pair_guard is Some
                    ==> all[n + k] == user[k]
            &&& forall|k: int, j: int|
                #![trigger user[k], base[j]]
                {
                    &&& 0 <= k < user.len()
                    &&& 0 <= j < base.len()
                    &&& user[k].composition_start_pair_guard is None
                    &&& text::lowered(base[j].process) == text::lowered(user[k].process)
                    &&& forall|m: int|
                        j < m < base.len() ==> text::lowered((#[trigger] base[m]).process)
                            != text::lowered(user[k].process)
                } ==> all[n + k].composition_start_pair_guard
                    == base[j].composition_start_pair_guard
            &&& forall|k: int|
                0 <= k < user.len() && (#[trigger] user[k]).composition_start_pair_guard is None
                    && (forall|j: int|
                    0 <= j < base.len() ==> text::lowered((#[trigger] base[j]).process)
                        != text::lowered(user[k].process)) ==> all[n + k] == user[k]
        }),
{
    let all = merge::merged(base, user);
    let n = all.len() - user.len();
    let replaced = |rule: rule::RuleView| merge::rule_for(user, rule.process) is None;
    let unnamed = |rule: rule::RuleView|
        forall|k: int|
            0 <= k < user.len() ==> text::lowered((#[trigger] user[k]).process) != text::lowered(
                rule.process,
            );
    assert forall|rule: rule::RuleView| #[trigger] replaced(rule) == unnamed(rule) by {
        law_rule_in_force(user, rule.process);
    }
    lemma_filters_agree(base, replaced, unnamed);
    assert(all.take(n) =~= base.filter(unnamed));
    assert forall|k: int| 0 <= k < user.len() implies all[n + k] == merge::inheriting(
        base,
        #[trigger] user[k],
    ) by {}
    assert forall|k: int, j: int|
        #![trigger user[k], base[j]]
        {
            &&& 0 <= k < user.len()
            &&& 0 <= j < base.len()
            &&& user[k].composition_start_pair_guard is None
            &&& text::lowered(base[j].process) == text::lowered(user[k].process)
            &&& forall|m: int|
                j < m < base.len() ==> text::lowered((#[trigger] base[m]).process)
                    != text::lowered(user[k].process)
        } implies all[n + k].composition_start_pair_guard == base[j].composition_start_pair_guard by {
        let key = text::lowered(user[k].process);
        merge::lemma_last_index(base, key);
        assert(base[j].key() == key);
    }
    assert forall|k: int|
        0 <= k < user.len() && (#[trigger] user[k]).composition_start_pair_guard is None && (forall|
            j: int,
        |
            0 <= j < base.len() ==> text::lowered((#[trigger] base[j]).process) != text::lowered(
                user[k].process,
            )) implies all[n + k] == user[k] by {
        law_rule_in_force(base, user[k].process);
    }
}

/// A merged list of scopes is the scopes of the lower layer whose process no scope of the upper
/// layer names, case aside, in their order, and then those of the upper layer as they are.
pub proof fn law_merged_scopes(base: Seq<rule::ScopeView>, user: Seq<rule::ScopeView>)
    ensures
        merge::merged_scopes(base, user) == base.filter(
            |scope: rule::ScopeView|
                forall|k: int|
                    0 <= k < user.len() ==> text::lowered((#[trigger] user[k]).process)
                        != text::lowered(scope.process),
        ) + user,
{
    let replaced = |scope: rule::ScopeView| merge::last_scope_index(user, scope.key()) is None;
    let unnamed = |scope: rule::ScopeView|
        forall|k: int|
            0 <= k < user.len() ==> text::lowered((#[trigger] user[k]).process) != text::lowered(
                scope.process,
            );
    assert forall|scope: rule::ScopeView| #[trigger] replaced(scope) == unnamed(scope) by {
        merge::lemma_last_scope_index(user, scope.key());
        assert forall|k: int| 0 <= k < user.len() implies (#[trigger] user[k]).key()
            == text::lowered(user[k].process) by {}
    }
    lemma_filters_agree(base, replaced, unnamed);
}

/// After a merge no rule of the lower layer stands for a process that the upper layer names: a
/// merged rule with the name of some upper rule is one of the upper rules but for its pair guard.
pub proof fn law_no_replaced_rule_stays(
    base: Seq<rule::RuleView>,
    user: Seq<rule::RuleView>,
    i: int,
)
    requires
        0 <= i < merge::merged(base, user).len(),
        exists|k: int|
            0 <= k < user.len() && text::lowered((#[trigger] user[k]).process) == text::lowered(
                merge::merged(base, user)[i].process,
            ),
    ensures
        exists|k: int|
            0 <= k < user.len() && #[trigger] user[k] == (rule::RuleView {
                composition_start_pair_guard: user[k].composition_start_pair_guard,
                ..merge::merged(base, user)[i]
            }),
{
    law_merged_list(base, user);
    let all = merge::merged(base, user);
    let n = all.len() - user.len();
    let unnamed = |rule: rule::RuleView|
        forall|k: int|
            0 <= k < user.len() ==> text::lowered((#[trigger] user[k]).process) != text::lowered(
                rule.process,
            );
    if i < n {
        assert(all.take(n)[i] == all[i]);
        base.lemma_filter_pred(unnamed, i);
        assert(unnamed(all[i]));
    } else {
        assert(user[i - n] == user[i - n]);
    }
}

/// Where each of two layers names a process at most once, so does the merged list.
pub proof fn law_merged_names_stay_unique(
    base: Seq<rule::RuleView>,
    user: Seq<rule::RuleView>,
    process: Seq<char>,
    i: int,
    j: int,
)
    requires
        forall|a: int, b: int|
            #![trigger base[a], base[b]]
            0 <= a < b < base.len() && text::lowered(base[a].process) == text::lowered(process)
                ==> text::lowered(base[b].process) != text::lowered(process),
        forall|a: int, b: int|
            #![trigger user[a], user[b]]
            0 <= a < b < user.len() && text::lowered(user[a].process) == text::lowered(process)
                ==> text::lowered(user[b].process) != text::lowered(process),
        0 <= i < merge::merged(base, user).len(),
        0 <= j < merge::merged(base, user).len(),
        text::lowered(merge::merged(base, user)[i].process) == text::lowered(process),
        text::lowered(merge::merged(base, user)[j].process) == text::lowered(process),
    ensures
        i == j,
{
    let key = text::lowered(process);
    let keep = |rule: rule::RuleView| merge::rule_for(user, rule.process) is None;
    let front = base.filter(keep);
    assert forall|a: int, b: int|
        #![trigger base[a], base[b]]
        0 <= a < base.len() && 0 <= b < base.len() && base[a].key() == key && base[b].key()
            == key implies a == b by {
        assert(text::lowered(base[a].process) == key && text::lowered(base[b].process) == key);
    }
    laws::lemma_at_most_one_in_filter(base, keep, key);
    lemma_place_in_merged(base, user, process, i);
    lemma_place_in_merged(base, user, process, j);
    let n = front.len() as int;
    if i < n {
        assert(front[i].key() == key);
    } else {
        assert(text::lowered(user[i - n].process) == key);
    }
    if j < n {
        assert(front[j].key() == key);
    } else {
        assert(text::lowered(user[j - n].process) == key);
    }
}

/// Where a merged rule for a process stands: among those of the lower layer only if the upper one
/// has none for the process.
proof fn lemma_place_in_merged(
    base: Seq<rule::RuleView>,
    user: Seq<rule::RuleView>,
    process: Seq<char>,
    i: int,
)
    requires
        0 <= i < merge::merged(base, user).len(),
        text::lowered(merge::merged(base, user)[i].process) == text::lowered(process),
    ensures
        ({
            let front = base.filter(
                |rule: rule::RuleView| merge::rule_for(user, rule.process) is None,
            );
            let n = front.len();
            &&& merge::merged(base, user).len() == n + user.len()
            &&& i < n ==> front[i] == merge::merged(base, user)[i] && forall|k: int|
                0 <= k < user.len() ==> text::lowered((#[trigger] user[k]).process)
                    != text::lowered(process)
            &&& i >= n ==> user[i - n].process == merge::merged(base, user)[i].process
        }),
{
    let keep = |rule: rule::RuleView| merge::rule_for(user, rule.process) is None;
    let front = base.filter(keep);
    if i < front.len() {
        base.lemma_filter_pred(keep, i);
        law_rule_in_force(user, front[i].process);
    }
}

/// Of rules that name a process at most once, the process is among those whose host draws the
/// candidate window exactly where the rule in force for it says so.
pub proof fn law_host_render_follows_rule_in_force(
    rules: Seq<rule::RuleView>,
    process: Seq<char>,
)
    requires
        forall|a: int, b: int|
            #![trigger rules[a], rules[b]]
            0 <= a < b < rules.len() && text::lowered(rules[a].process) == text::lowered(process)
                ==> text::lowered(rules[b].process) != text::lowered(process),
    ensures
        ({
            let listed = rules.filter(|rule: rule::RuleView| rule.host_render).map_values(
                |rule: rule::RuleView| rule.process,
            );
            let found = merge::rule_for(rules, process);
            (exists|i: int|
                0 <= i < listed.len() && text::lowered(#[trigger] listed[i]) == text::lowered(
                    process,
                )) <==> found is Some && found->0.host_render
        }),
{
    let key = text::lowered(process);
    let enabled = |rule: rule::RuleView| rule.host_render;
    let chosen = rules.filter(enabled);
    let listed = chosen.map_values(|rule: rule::RuleView| rule.process);
    law_rule_in_force(rules, process);
    let found = merge::rule_for(rules, process);
    if found is Some && found->0.host_render {
        let i = choose|i: int|
            0 <= i < rules.len() && #[trigger] rules[i] == found->0 && text::lowered(
                found->0.process,
            ) == key;
        rules.lemma_filter_contains(enabled, i);
        let k = chosen.index_of(rules[i]);
        assert(listed[k] == found->0.process);
    }
    if exists|i: int| 0 <= i < listed.len() && text::lowered(#[trigger] listed[i]) == key {
        let i = choose|i: int| 0 <= i < listed.len() && text::lowered(#[trigger] listed[i]) == key;
        rules.lemma_filter_pred(enabled, i);
        let j = lemma_filter_source(rules, enabled, i);
        assert(text::lowered(rules[j].process) == key);
    }
}

/// What is chosen is one of the elements.
proof fn lemma_filter_source<A>(s: Seq<A>, keep: spec_fn(A) -> bool, i: int) -> (j: int)
    requires
        0 <= i < s.filter(keep).len(),
    ensures
        0 <= j < s.len(),
        s[j] == s.filter(keep)[i],
    decreases s.len(),
{
    reveal(Seq::filter);
    let front = s.drop_last();
    if i < front.filter(keep).len() {
        lemma_filter_source(front, keep, i)
    } else {
        s.len() - 1
    }
}

/// After a merge of layers that each name a process at most once, the process is among those whose
/// host draws the candidate window exactly where the rule in force for it says so.
pub proof fn law_host_render_after_merge(
    base: Seq<rule::RuleView>,
    user: Seq<rule::RuleView>,
    process: Seq<char>,
)
    requires
        forall|a: int, b: int|
            #![trigger base[a], base[b]]
            0 <= a < b < base.len() && text::lowered(base[a].process) == text::lowered(process)
                ==> text::lowered(base[b].process) != text::lowered(process),
        forall|a: int, b: int|
            #![trigger user[a], user[b]]
            0 <= a < b < user.len() && text::lowered(user[a].process) == text::lowered(process)
                ==> text::lowered(user[b].process) != text::lowered(process),
    ensures
        ({
            let all = merge::merged(base, user);
            let listed = all.filter(|rule: rule::RuleView| rule.host_render).map_values(
                |rule: rule::RuleView| rule.process,
            );
            let found = merge::rule_for(all, process);
            (exists|i: int|
                0 <= i < listed.len() && text::lowered(#[trigger] listed[i]) == text::lowered(
                    process,
                )) <==> found is Some && found->0.host_render
        }),
{
    let all = merge::merged(base, user);
    assert forall|a: int, b: int|
        #![trigger all[a], all[b]]
        0 <= a < b < all.len() && text::lowered(all[a].process) == text::lowered(
            process,
        ) implies text::lowered(all[b].process) != text::lowered(process) by {
        if text::lowered(all[b].process) == text::lowered(process) {
            law_merged_names_stay_unique(base, user, process, a, b);
        }
    }
    law_host_render_follows_rule_in_force(all, process);
}

/// A layer is what its text reads as: nothing without a text or with one that does not read as a
/// file, and else that file, whatever it holds.
pub proof fn law_layer_is_its_file(text: &str)
    ensures
        compat::text_view(Some(text)) == compat_file::parsed_file(text@),
        compat::text_view(None) is None,
        compat_file::text_of(Some(text)) == Some(text@),
        compat_file::text_of(None) is None,
{
}

/// The lists in force are those of the layers that are there, merged in their order: rules with
/// rules and scopes with scopes, whatever the other list of the layer holds.
pub proof fn law_layers_in_force(
    data: Option<compat_file::FileView>,
    custom: Option<compat_file::FileView>,
    user: Option<compat_file::FileView>,
)
    ensures
        match (data, custom, user) {
            (None, None, None) => {
                &&& compat::layered(data, custom, user).apps.len() == 0
                &&& compat::layered(data, custom, user).scope.len() == 0
            },
            (Some(file), None, None) | (None, Some(file), None) | (None, None, Some(file)) => {
                &&& compat::layered(data, custom, user).apps == file.apps
                &&& compat::layered(data, custom, user).scope == file.initial_mode_scope
            },
            (Some(low), Some(high), None) | (Some(low), None, Some(high)) | (
                None,
                Some(low),
                Some(high),
            ) => {
                &&& compat::layered(data, custom, user).apps == merge::merged(low.apps, high.apps)
                &&& compat::layered(data, custom, user).scope == merge::merged_scopes(
                    low.initial_mode_scope,
                    high.initial_mode_scope,
                )
            },
            (Some(low), Some(middle), Some(high)) => {
                &&& compat::layered(data, custom, user).apps == merge::merged(
                    merge::merged(low.apps, middle.apps),
                    high.apps,
                )
                &&& compat::layered(data, custom, user).scope == merge::merged_scopes(
                    merge::merged_scopes(low.initial_mode_scope, middle.initial_mode_scope),
                    high.initial_mode_scope,
                )
            },
        },
{
    if let Some(file) = custom {
        laws::law_empty_lower_layer_keeps_user(file.apps);
        laws::law_merging_scopes_is_associative(
            Seq::empty(),
            Seq::empty(),
            file.initial_mode_scope,
        );
    }
    if let Some(file) = user {
        laws::law_empty_lower_layer_keeps_user(file.apps);
        laws::law_merging_scopes_is_associative(
            Seq::empty(),
            Seq::empty(),
            file.initial_mode_scope,
        );
    }
}

/// A single layer given by a text that reads as a file puts just the rules and scopes of that file
/// in force, whichever layer it is and whatever the file holds.
pub proof fn law_single_layer_in_force(
    text: &str,
    file: compat_file::FileView,
    process: Seq<char>,
    place: int,
)
    requires
        compat_file::parsed_file(text@) == Some(file),
        0 <= place < 3,
    ensures
        ({
            let in_force = compat::layered(
                compat::text_view(
                    if place == 0 {
                        Some(text)
                    } else {
                        None
                    },
                ),
                compat::text_view(
                    if place == 1 {
                        Some(text)
                    } else {
                        None
                    },
                ),
                compat::text_view(
                    if place == 2 {
                        Some(text)
                    } else {
                        None
                    },
                ),
            );
            &&& in_force.apps == file.apps
            &&& in_force.scope == file.initial_mode_scope
            &&& merge::scope_for(in_force.scope, process) == merge::scope_for(
                file.initial_mode_scope,
                process,
            )
            &&& merge::rule_for(in_force.apps, process) == merge::rule_for(file.apps, process)
        }),
{
    law_layers_in_force(Some(file), None, None);
    law_layers_in_force(None, Some(file), None);
    law_layers_in_force(None, None, Some(file));
}

/// A setting starts from what the user file says: from the file that its text reads as, whatever
/// that holds, and from an empty one only where there is no text or it does not read as a file.
pub proof fn law_setting_starts_from_the_file(text: Seq<char>)
    ensures
        match compat_file::parsed_file(text) {
            Some(file) => compat_file::current_file(Some(text)) == file,
            None => {
                &&& compat_file::current_file(Some(text)).apps.len() == 0
                &&& compat_file::current_file(Some(text)).initial_mode_scope.len() == 0
            },
        },
        compat_file::current_file(None).apps.len() == 0,
        compat_file::current_file(None).initial_mode_scope.len() == 0,
{
}

/// The rules that are kept are those of which some field beside the process is not neutral, in
/// their order.
pub proof fn law_kept_rules(rules: Seq<rule::RuleView>)
    ensures
        compat_file::kept(rules) == rules.filter(
            |rule: rule::RuleView|
                {
                    ||| rule.comment.len() > 0
                    ||| rule.caret_use_top
                    ||| rule.stale_probe_guard
                    ||| rule.composition_start_pair_guard is Some
                    ||| rule.first_show_mode is Some
                    ||| rule.initial_mode is Some
                    ||| rule.initial_punct is Some
                    ||| rule.host_render
                    ||| rule.auto_pair is Some
                    ||| rule.smart_method is Some
                    ||| rule.caret_offset_x != 0
                    ||| rule.caret_offset_y != 0
                },
        ),
{
    let sets_something = |rule: rule::RuleView| !rule.is_bare();
    let some_field = |rule: rule::RuleView|
        {
            ||| rule.comment.len() > 0
            ||| rule.caret_use_top
            ||| rule.stale_probe_guard
            ||| rule.composition_start_pair_guard is Some
            ||| rule.first_show_mode is Some
            ||| rule.initial_mode is Some
            ||| rule.initial_punct is Some
            ||| rule.host_render
            ||| rule.auto_pair is Some
            ||| rule.smart_method is Some
            ||| rule.caret_offset_x != 0
            ||| rule.caret_offset_y != 0
        };
    assert forall|rule: rule::RuleView| #[trigger] sets_something(rule) == some_field(rule) by {
        law_rule_that_sets_nothing(rule);
    }
    lemma_filters_agree(rules, sets_something, some_field);
}

/// What a setting writes for a text that reads as a file: the scopes of that file as they are, and
/// its rules with the edit made and without those that set nothing, whatever the file holds.
pub proof fn law_setting_keeps_the_rest_of_the_file(
    text: Seq<char>,
    file: compat_file::FileView,
    process: Seq<char>,
    edit: spec_fn(rule::RuleView) -> rule::RuleView,
)
    requires
        compat_file::parsed_file(text) == Some(file),
    ensures
        ({
            let after = compat_file::updated(
                compat_file::current_file(Some(text)),
                process,
                edit,
            );
            &&& after.initial_mode_scope == file.initial_mode_scope
            &&& after.apps == compat_file::kept(rule::upserted(file.apps, process, edit))
        }),
{
}

/// A user file that says `file` is the header followed by the document written for `file`; it
/// parses to the entries of `file` and reads as `file`.
pub proof fn law_user_file(text: Seq<char>, file: compat_file::FileView)
    requires
        compat_file::is_user_file(text, file),
    ensures
        text == compat_file::USER_COMPAT_HEADER@ + toml_tree::rendered_toml(
            compat_file::encoded_file(file),
        ),
        toml_tree::parsed_toml(text) == Some(compat_file::encoded_file(file)),
        compat_file::parsed_file(text) == Some(file),
{
}

/// What is found under a key is the value of an entry with that key and with none after it, and
/// nothing is found exactly where no entry has the key.
pub proof fn law_lookup(entries: Seq<(Seq<char>, Node)>, key: Seq<char>)
    ensures
        match toml_tree::lookup(entries, key) {
            Some(value) => exists|i: int|
                {
                    &&& 0 <= i < entries.len()
                    &&& #[trigger] entries[i] == (key, value)
                    &&& forall|j: int| i < j < entries.len() ==> (#[trigger] entries[j]).0 != key
                },
            None => forall|i: int| 0 <= i < entries.len() ==> (#[trigger] entries[i]).0 != key,
        },
    decreases entries.len(),
{
    if entries.len() > 0 {
        let front = entries.drop_last();
        law_lookup(front, key);
        assert forall|i: int| 0 <= i < front.len() implies #[trigger] entries[i] == front[i] by {}
        assert(entries.last() == entries[entries.len() - 1]);
        if entries.last().0 == key {
            assert(entries[entries.len() - 1] == (key, entries.last().1));
        } else if let Some(value) = toml_tree::lookup(front, key) {
            let i = choose|i: int|
                {
                    &&& 0 <= i < front.len()
                    &&& #[trigger] front[i] == (key, value)
                    &&& forall|j: int| i < j < front.len() ==> (#[trigger] front[j]).0 != key
                };
            assert(entries[i] == (key, value));
        }
    }
}

/// A field is found by its name in a table and by its place in an array; nothing else has fields.
pub proof fn law_field(record: Node, place: int, name: Seq<char>)
    requires
        place >= 0,
    ensures
        codec::field(record, place, name) == match record {
            Node::Table(entries) => toml_tree::lookup(entries, name),
            Node::Array(items) => if place < items.len() {
                Some(items[place])
            } else {
                None
            },
            _ => None,
        },
{
}

/// A record is read as a rule exactly where it is a table, an array or a date and each of its
/// fields is missing, and then neutral in the rule, or of the type of the field, and then what the
/// rule says. A text in place of a mode sets the mode that it names, if any.
pub proof fn law_reading_of_rule(record: Node, rule: rule::RuleView)
    ensures
        codec::decoded_rule(record) == Some(rule) <==> {
            &&& record is Table || record is Array || record is Datetime
            &&& match codec::field(record, 0, "process"@) {
                None => rule.process.len() == 0,
                Some(Node::Text(text)) => rule.process == text,
                _ => false,
            }
            &&& match codec::field(record, 1, "comment"@) {
                None => rule.comment.len() == 0,
                Some(Node::Text(text)) => rule.comment == text,
                _ => false,
            }
            &&& match codec::field(record, 2, "caret_use_top"@) {
                None => !rule.caret_use_top,
                Some(Node::Boolean(flag)) => rule.caret_use_top == flag,
                _ => false,
            }
            &&& match codec::field(record, 3, "stale_probe_guard"@) {
                None => !rule.stale_probe_guard,
                Some(Node::Boolean(flag)) => rule.stale_probe_guard == flag,
                _ => false,
            }
            &&& match codec::field(record, 4, "composition_start_pair_guard"@) {
                None => rule.composition_start_pair_guard is None,
                Some(Node::Boolean(flag)) => rule.composition_start_pair_guard == Some(flag),
                _ => false,
            }
            &&& match codec::field(record, 5, "first_show_mode"@) {
                None => rule.first_show_mode is None,
                Some(Node::Text(text)) => rule.first_show_mode == FirstShowMode::named(text),
                _ => false,
            }
            &&& match codec::field(record, 6, "initial_mode"@) {
                None => rule.initial_mode is None,
                Some(Node::Text(text)) => rule.initial_mode == InitialMode::named(text),
                _ => false,
            }
            &&& match codec::field(record, 7, "initial_punct"@) {
                None => rule.initial_punct is None,
                Some(Node::Text(text)) => rule.initial_punct == InitialMode::named(text),
                _ => false,
            }
            &&& match codec::field(record, 8, "host_render"@) {
                None => !rule.host_render,
                Some(Node::Boolean(flag)) => rule.host_render == flag,
                _ => false,
            }
            &&& match codec::field(record, 9, "auto_pair"@) {
                None => rule.auto_pair is None,
                Some(Node::Boolean(flag)) => rule.auto_pair == Some(flag),
                _ => false,
            }
            &&& match codec::field(record, 10, "smart_method"@) {
                None => rule.smart_method is None,
                Some(Node::Text(text)) => rule.smart_method is Some && text == rule.smart_method->0.name(),
                Some(Node::Table(entries)) => rule.smart_method is Some && entries == seq![
                    (rule.smart_method->0.name(), Node::Table(Seq::empty())),
                ],
                _ => false,
            }
            &&& match codec::field(record, 11, "caret_offset_x"@) {
                None => rule.caret_offset_x == 0,
                Some(Node::Integer(number)) => rule.caret_offset_x == number,
                _ => false,
            }
            &&& match codec::field(record, 12, "caret_offset_y"@) {
                None => rule.caret_offset_y == 0,
                Some(Node::Integer(number)) => rule.caret_offset_y == number,
                _ => false,
            }
        },
{
    lemma_reading_of_texts(codec::field(record, 0, "process"@), rule.process);
    lemma_reading_of_texts(codec::field(record, 1, "comment"@), rule.comment);
    lemma_reading_of_method(codec::field(record, 10, "smart_method"@), rule.smart_method);
}

/// When a field is read as a text.
proof fn lemma_reading_of_texts(value: Option<Node>, s: Seq<char>)
    ensures
        codec::text_value(value) == Some(s) <==> match value {
            None => s.len() == 0,
            Some(Node::Text(text)) => s == text,
            _ => false,
        },
{
    if s.len() == 0 {
        assert(s =~= Seq::empty());
    }
}

/// When a field is read as a replacement method.
proof fn lemma_reading_of_method(value: Option<Node>, method: Option<SmartMethod>)
    ensures
        codec::method_value(value) == Some(method) <==> match value {
            None => method is None,
            Some(Node::Text(text)) => method is Some && text == method->0.name(),
            Some(Node::Table(entries)) => method is Some && entries == seq![
                (method->0.name(), Node::Table(Seq::empty())),
            ],
            _ => false,
        },
{
    config::law_smart_method_round_trip(SmartMethod::DeleteReplace);
    config::law_smart_method_round_trip(SmartMethod::HoldComposition);
    if let Some(Node::Table(entries)) = value {
        if entries.len() == 1 {
            assert(entries =~= seq![entries[0]]);
        }
        if let Some(method) = method {
            let only = seq![(method.name(), Node::Table(Seq::<(Seq<char>, Node)>::empty()))];
            if entries == only {
                assert(entries[0] == only[0]);
                assert(entries.len() == 1);
            }
        }
    }
}

/// A record is read as a scope exactly where it is a table, an array or a date, names its process
/// by a text, and has its comment and its classes missing, and then empty in the scope, or as a
/// text and as a list of texts, and then as the scope says.
pub proof fn law_reading_of_scope(record: Node, scope: rule::ScopeView)
    ensures
        codec::decoded_scope(record) == Some(scope) <==> {
            &&& record is Table || record is Array || record is Datetime
            &&& codec::field(record, 0, "process"@) == Some(Node::Text(scope.process))
            &&& match codec::field(record, 1, "comment"@) {
                None => scope.comment.len() == 0,
                Some(Node::Text(text)) => scope.comment == text,
                _ => false,
            }
            &&& match codec::field(record, 2, "classes"@) {
                None => scope.classes.len() == 0,
                Some(Node::Array(items)) => items.len() == scope.classes.len() && forall|i: int|
                    0 <= i < items.len() ==> #[trigger] items[i] == Node::Text(scope.classes[i]),
                _ => false,
            }
        },
{
    lemma_reading_of_texts(codec::field(record, 1, "comment"@), scope.comment);
    lemma_reading_of_classes(codec::field(record, 2, "classes"@), scope.classes);
}

/// When a field is read as a list of texts.
proof fn lemma_reading_of_classes(value: Option<Node>, classes: Seq<Seq<char>>)
    ensures
        codec::texts_value(value) == Some(classes) <==> match value {
            None => classes.len() == 0,
            Some(Node::Array(items)) => items.len() == classes.len() && forall|i: int|
                0 <= i < items.len() ==> #[trigger] items[i] == Node::Text(classes[i]),
            _ => false,
        },
{
    if classes.len() == 0 {
        assert(classes =~= Seq::empty());
    }
    if let Some(Node::Array(items)) = value {
        let read = items.map_values(|item: Node| item->Text_0);
        if items.len() == classes.len() && forall|i: int|
            0 <= i < items.len() ==> #[trigger] items[i] == Node::Text(classes[i]) {
            assert(read =~= classes);
        }
        if toml_tree::is_text_list(Node::Array(items)) && read == classes {
            assert forall|i: int| 0 <= i < items.len() implies #[trigger] items[i] == Node::Text(
                classes[i],
            ) by {
                assert(read[i] == classes[i]);
            }
        }
    }
}

/// A list is read as rules, or as scopes, exactly where it is missing, and then empty, or an array
/// of which each item is read as the rule, or the scope, in its place.
pub proof fn law_reading_of_lists(
    value: Option<Node>,
    rules: Seq<rule::RuleView>,
    scopes: Seq<rule::ScopeView>,
)
    ensures
        compat_file::decoded_rules(value) == Some(rules) <==> match value {
            None => rules.len() == 0,
            Some(Node::Array(items)) => items.len() == rules.len() && forall|i: int|
                0 <= i < items.len() ==> codec::decoded_rule(#[trigger] items[i]) == Some(rules[i]),
            _ => false,
        },
        compat_file::decoded_scopes(value) == Some(scopes) <==> match value {
            None => scopes.len() == 0,
            Some(Node::Array(items)) => items.len() == scopes.len() && forall|i: int|
                0 <= i < items.len() ==> codec::decoded_scope(#[trigger] items[i]) == Some(
                    scopes[i],
                ),
            _ => false,
        },
{
    if rules.len() == 0 {
        assert(rules =~= Seq::empty());
    }
    if scopes.len() == 0 {
        assert(scopes =~= Seq::empty());
    }
    if let Some(Node::Array(items)) = value {
        let read_rules = items.map_values(|item: Node| codec::decoded_rule(item)->0);
        if items.len() == rules.len() && forall|i: int|
            0 <= i < items.len() ==> codec::decoded_rule(#[trigger] items[i]) == Some(rules[i]) {
            assert(read_rules =~= rules);
        }
        if compat_file::decoded_rules(value) == Some(rules) {
            assert forall|i: int| 0 <= i < items.len() implies codec::decoded_rule(
                #[trigger] items[i],
            ) == Some(rules[i]) by {
                assert(read_rules[i] == rules[i]);
            }
        }
        let read_scopes = items.map_values(|item: Node| codec::decoded_scope(item)->0);
        if items.len() == scopes.len() && forall|i: int|
            0 <= i < items.len() ==> codec::decoded_scope(#[trigger] items[i]) == Some(scopes[i]) {
            assert(read_scopes =~= scopes);
        }
        if compat_file::decoded_scopes(value) == Some(scopes) {
            assert forall|i: int| 0 <= i < items.len() implies codec::decoded_scope(
                #[trigger] items[i],
            ) == Some(scopes[i]) by {
                assert(read_scopes[i] == scopes[i]);
            }
        }
    }
}

/// A root table reads as a file exactly where the lists under the two names read as the rules and
/// the scopes of that file.
pub proof fn law_reading_of_root_table(
    entries: Seq<(Seq<char>, Node)>,
    file: compat_file::FileView,
)
    ensures
        compat_file::decoded_file(entries) == Some(file) <==> {
            &&& compat_file::decoded_rules(toml_tree::lookup(entries, "apps"@)) == Some(file.apps)
            &&& compat_file::decoded_scopes(toml_tree::lookup(entries, "initial_mode_scope"@))
                == Some(file.initial_mode_scope)
        },
{
}

/// A text reads as a file exactly where it is a document whose lists under the two names read as
/// the rules and the scopes of that file.
pub proof fn law_reading_of_file(text: Seq<char>, file: compat_file::FileView)
    ensures
        compat_file::parsed_file(text) == Some(file) <==> {
            let root = toml_tree::parsed_toml(text);
            &&& root is Some
            &&& compat_file::decoded_rules(toml_tree::lookup(root->0, "apps"@)) == Some(file.apps)
            &&& compat_file::decoded_scopes(toml_tree::lookup(root->0, "initial_mode_scope"@))
                == Some(file.initial_mode_scope)
        },
{
}

/// Writing a field adds an entry behind those of the fields before it, or none.
proof fn lemma_present_push(
    fields: Seq<(Seq<char>, Option<Node>)>,
    name: Seq<char>,
    value: Option<Node>,
)
    ensures
        codec::present(fields.push((name, value))) == codec::present(fields) + match value {
            Some(node) => seq![(name, node)],
            None => seq![],
        },
{
    let longer = fields.push((name, value));
    assert(longer.drop_last() =~= fields);
    assert(longer.last() == (name, value));
    assert(codec::present(longer) =~= codec::present(fields) + match value {
        Some(node) => seq![(name, node)],
        None => seq![],
    });
}

/// One entry where `shown`, or none.
pub open spec fn entry_if(shown: bool, name: Seq<char>, value: Node) -> Seq<(Seq<char>, Node)> {
    if shown {
        seq![(name, value)]
    } else {
        seq![]
    }
}

/// A rule is written as its process and then, in this order, those fields that are not neutral.
pub proof fn law_writing_of_rule(rule: rule::RuleView)
    ensures
        codec::encoded_rule(rule) == Node::Table(
            entry_if(true, "process"@, Node::Text(rule.process))
                + entry_if(rule.comment.len() > 0, "comment"@, Node::Text(rule.comment))
                + entry_if(rule.caret_use_top, "caret_use_top"@, Node::Boolean(true))
                + entry_if(rule.stale_probe_guard, "stale_probe_guard"@, Node::Boolean(true))
                + entry_if(
                    rule.composition_start_pair_guard is Some,
                    "composition_start_pair_guard"@,
                    Node::Boolean(rule.composition_start_pair_guard->0),
                )
                + entry_if(
                    rule.first_show_mode is Some,
                    "first_show_mode"@,
                    Node::Text(rule.first_show_mode->0.name()),
                )
                + entry_if(
                    rule.initial_mode is Some,
                    "initial_mode"@,
                    Node::Text(rule.initial_mode->0.name()),
                )
                + entry_if(
                    rule.initial_punct is Some,
                    "initial_punct"@,
                    Node::Text(rule.initial_punct->0.name()),
                )
                + entry_if(rule.host_render, "host_render"@, Node::Boolean(true))
                + entry_if(rule.auto_pair is Some, "auto_pair"@, Node::Boolean(rule.auto_pair->0))
                + entry_if(
                    rule.smart_method is Some,
                    "smart_method"@,
                    Node::Text(rule.smart_method->0.name()),
                )
                + entry_if(
                    rule.caret_offset_x != 0,
                    "caret_offset_x"@,
                    Node::Integer(rule.caret_offset_x as i64),
                )
                + entry_if(
                    rule.caret_offset_y != 0,
                    "caret_offset_y"@,
                    Node::Integer(rule.caret_offset_y as i64),
                ),
        ),
{
    let fields = codec::rule_fields(rule);
    lemma_writing_of_notes(fields, rule);
    let t3 = codec::present(fields.take(3));
    lemma_writing_of_guards(fields, rule, t3);
    let t6 = codec::present(fields.take(6));
    lemma_writing_of_modes(fields, rule, t6);
    let t9 = codec::present(fields.take(9));
    lemma_writing_of_overrides(fields, rule, t9);
    assert(fields.take(13) =~= fields);
}

/// How the first three fields of a rule are written.
proof fn lemma_writing_of_notes(
    fields: Seq<(Seq<char>, Option<Node>)>,
    rule: rule::RuleView,
)
    requires
        fields.len() == 13,
        fields[0] == ("process"@, Some(Node::Text(rule.process))),
        fields[1] == ("comment"@, codec::text_field(rule.comment)),
        fields[2] == ("caret_use_top"@, codec::flag_field(rule.caret_use_top)),
    ensures
        Node::Table(codec::present(fields.take(3))) == Node::Table(
            entry_if(true, "process"@, Node::Text(rule.process))
                + entry_if(rule.comment.len() > 0, "comment"@, Node::Text(rule.comment))
                + entry_if(rule.caret_use_top, "caret_use_top"@, Node::Boolean(true)),
        ),
{
    let t0 = Seq::<(Seq<char>, Node)>::empty();
    assert(fields.take(0) =~= Seq::empty());
    let t1 = lemma_written(fields, 0, t0, "process"@, true, Node::Text(rule.process));
    let t2 = lemma_written(
        fields,
        1,
        t1,
        "comment"@,
        rule.comment.len() > 0,
        Node::Text(rule.comment),
    );
    let t3 = lemma_written(
        fields,
        2,
        t2,
        "caret_use_top"@,
        rule.caret_use_top,
        Node::Boolean(true),
    );
    assert(t1 =~= entry_if(true, "process"@, Node::Text(rule.process)));
}

/// How the next three fields of a rule are written.
proof fn lemma_writing_of_guards(
    fields: Seq<(Seq<char>, Option<Node>)>,
    rule: rule::RuleView,
    written: Seq<(Seq<char>, Node)>,
)
    requires
        fields.len() == 13,
        codec::present(fields.take(3)) == written,
        fields[3] == ("stale_probe_guard"@, codec::flag_field(rule.stale_probe_guard)),
        fields[4] == (
            "composition_start_pair_guard"@,
            codec::choice_field(rule.composition_start_pair_guard),
        ),
        fields[5] == ("first_show_mode"@, codec::first_show_field(rule.first_show_mode)),
    ensures
        Node::Table(codec::present(fields.take(6))) == Node::Table(
            written
                + entry_if(rule.stale_probe_guard, "stale_probe_guard"@, Node::Boolean(true))
                + entry_if(
                    rule.composition_start_pair_guard is Some,
                    "composition_start_pair_guard"@,
                    Node::Boolean(rule.composition_start_pair_guard->0),
                )
                + entry_if(
                    rule.first_show_mode is Some,
                    "first_show_mode"@,
                    Node::Text(rule.first_show_mode->0.name()),
                ),
        ),
{
    let t3 = written;
    let t4 = lemma_written(
        fields,
        3,
        t3,
        "stale_probe_guard"@,
        rule.stale_probe_guard,
        Node::Boolean(true),
    );
    let t5 = lemma_written(
        fields,
        4,
        t4,
        "composition_start_pair_guard"@,
        rule.composition_start_pair_guard is Some,
        Node::Boolean(rule.composition_start_pair_guard->0),
    );
    let t6 = lemma_written(
        fields,
        5,
        t5,
        "first_show_mode"@,
        rule.first_show_mode is Some,
        Node::Text(rule.first_show_mode->0.name()),
    );
}

/// How the next three fields of a rule are written.
proof fn lemma_writing_of_modes(
    fields: Seq<(Seq<char>, Option<Node>)>,
    rule: rule::RuleView,
    written: Seq<(Seq<char>, Node)>,
)
    requires
        fields.len() == 13,
        codec::present(fields.take(6)) == written,
        fields[6] == ("initial_mode"@, codec::initial_field(rule.initial_mode)),
        fields[7] == ("initial_punct"@, codec::initial_field(rule.initial_punct)),
        fields[8] == ("host_render"@, codec::flag_field(rule.host_render)),
    ensures
        Node::Table(codec::present(fields.take(9))) == Node::Table(
            written
                + entry_if(
                    rule.initial_mode is Some,
                    "initial_mode"@,
                    Node::Text(rule.initial_mode->0.name()),
                )
                + entry_if(
                    rule.initial_punct is Some,
                    "initial_punct"@,
                    Node::Text(rule.initial_punct->0.name()),
                )
                + entry_if(rule.host_render, "host_render"@, Node::Boolean(true)),
        ),
{
    let t6 = written;
    let t7 = lemma_written(
        fields,
        6,
        t6,
        "initial_mode"@,
        rule.initial_mode is Some,
        Node::Text(rule.initial_mode->0.name()),
    );
    let t8 = lemma_written(
        fields,
        7,
        t7,
        "initial_punct"@,
        rule.initial_punct is Some,
        Node::Text(rule.initial_punct->0.name()),
    );
    let t9 = lemma_written(fields, 8, t8, "host_render"@, rule.host_render, Node::Boolean(true));
}

/// How the last four fields of a rule are written.
proof fn lemma_writing_of_overrides(
    fields: Seq<(Seq<char>, Option<Node>)>,
    rule: rule::RuleView,
    written: Seq<(Seq<char>, Node)>,
)
    requires
        fields.len() == 13,
        codec::present(fields.take(9)) == written,
        fields[9] == ("auto_pair"@, codec::choice_field(rule.auto_pair)),
        fields[10] == ("smart_method"@, codec::method_field(rule.smart_method)),
        fields[11] == ("caret_offset_x"@, codec::offset_field(rule.caret_offset_x)),
        fields[12] == ("caret_offset_y"@, codec::offset_field(rule.caret_offset_y)),
    ensures
        Node::Table(codec::present(fields.take(13))) == Node::Table(
            written
                + entry_if(rule.auto_pair is Some, "auto_pair"@, Node::Boolean(rule.auto_pair->0))
                + entry_if(
                    rule.smart_method is Some,
                    "smart_method"@,
                    Node::Text(rule.smart_method->0.name()),
                )
                + entry_if(
                    rule.caret_offset_x != 0,
                    "caret_offset_x"@,
                    Node::Integer(rule.caret_offset_x as i64),
                )
                + entry_if(
                    rule.caret_offset_y != 0,
                    "caret_offset_y"@,
                    Node::Integer(rule.caret_offset_y as i64),
                ),
        ),
{
    let t9 = written;
    let t10 = lemma_written(
        fields,
        9,
        t9,
        "auto_pair"@,
        rule.auto_pair is Some,
        Node::Boolean(rule.auto_pair->0),
    );
    let t11 = lemma_written(
        fields,
        10,
        t10,
        "smart_method"@,
        rule.smart_method is Some,
        Node::Text(rule.smart_method->0.name()),
    );
    let t12 = lemma_written(
        fields,
        11,
        t11,
        "caret_offset_x"@,
        rule.caret_offset_x != 0,
        Node::Integer(rule.caret_offset_x as i64),
    );
    let t13 = lemma_written(
        fields,
        12,
        t12,
        "caret_offset_y"@,
        rule.caret_offset_y != 0,
        Node::Integer(rule.caret_offset_y as i64),
    );
}

/// Writing the next field adds its entry where it is shown.
proof fn lemma_written(
    fields: Seq<(Seq<char>, Option<Node>)>,
    n: int,
    entries: Seq<(Seq<char>, Node)>,
    name: Seq<char>,
    shown: bool,
    node: Node,
) -> (longer: Seq<(Seq<char>, Node)>)
    requires
        0 <= n < fields.len(),
        codec::present(fields.take(n)) == entries,
        fields[n].0 == name,
        shown ==> fields[n].1 == Some(node),
        !shown ==> fields[n].1 is None,
    ensures
        longer == entries + entry_if(shown, name, node),
        codec::present(fields.take(n + 1)) == longer,
{
    lemma_present_push(fields.take(n), name, fields[n].1);
    assert(fields.take(n + 1) =~= fields.take(n).push((name, fields[n].1)));
    entries + entry_if(shown, name, node)
}

/// A scope is written as its process, its comment if it has one, and its classes in order.
pub proof fn law_writing_of_scope(scope: rule::ScopeView, classes: Seq<Node>)
    requires
        classes.len() == scope.classes.len(),
        forall|i: int|
            0 <= i < classes.len() ==> #[trigger] classes[i] == Node::Text(scope.classes[i]),
    ensures
        codec::encoded_scope(scope) == Node::Table(
            entry_if(true, "process"@, Node::Text(scope.process)) + entry_if(
                scope.comment.len() > 0,
                "comment"@,
                Node::Text(scope.comment),
            ) + entry_if(true, "classes"@, Node::Array(classes)),
        ),
{
    let listed = scope.classes.map_values(|class: Seq<char>| Node::Text(class));
    assert(classes =~= listed);
    let f0 = Seq::<(Seq<char>, Option<Node>)>::empty();
    let f1 = f0.push(("process"@, Some(Node::Text(scope.process))));
    let f2 = f1.push(("comment"@, codec::text_field(scope.comment)));
    let f3 = f2.push(("classes"@, Some(Node::Array(listed))));
    lemma_present_push(f0, "process"@, Some(Node::Text(scope.process)));
    lemma_present_push(f1, "comment"@, codec::text_field(scope.comment));
    lemma_present_push(f2, "classes"@, Some(Node::Array(listed)));
    assert(codec::scope_fields(scope) =~= f3);
    assert(codec::present(f1) =~= entry_if(true, "process"@, Node::Text(scope.process)));
}

/// A file is written as the list of its rules, also where it is empty, and then the list of its
/// scopes unless it is empty.
pub proof fn law_writing_of_file(
    file: compat_file::FileView,
    apps: Seq<Node>,
    scopes: Seq<Node>,
)
    requires
        apps.len() == file.apps.len(),
        forall|i: int|
            0 <= i < apps.len() ==> #[trigger] apps[i] == codec::encoded_rule(file.apps[i]),
        scopes.len() == file.initial_mode_scope.len(),
        forall|i: int|
            0 <= i < scopes.len() ==> #[trigger] scopes[i] == codec::encoded_scope(
                file.initial_mode_scope[i],
            ),
    ensures
        compat_file::encoded_file(file) == entry_if(true, "apps"@, Node::Array(apps)) + entry_if(
            scopes.len() > 0,
            "initial_mode_scope"@,
            Node::Array(scopes),
        ),
{
    let written_apps = file.apps.map_values(|rule: rule::RuleView| codec::encoded_rule(rule));
    let written_scopes = file.initial_mode_scope.map_values(
        |scope: rule::ScopeView| codec::encoded_scope(scope),
    );
    assert(apps =~= written_apps);
    assert(scopes =~= written_scopes);
    let shown = if scopes.len() == 0 {
        None
    } else {
        Some(Node::Array(scopes))
    };
    let f0 = Seq::<(Seq<char>, Option<Node>)>::empty();
    let f1 = f0.push(("apps"@, Some(Node::Array(apps))));
    let f2 = f1.push(("initial_mode_scope"@, shown));
    lemma_present_push(f0, "apps"@, Some(Node::Array(apps)));
    lemma_present_push(f1, "initial_mode_scope"@, shown);
    assert(compat_file::file_fields(file) =~= f2);
    assert(codec::present(f1) =~= entry_if(true, "apps"@, Node::Array(apps)));
}

/// A value that is taken apart, or made, holds what its parts hold.
pub proof fn law_parts_of_values(shape: Shape, piece: Piece)
    ensures
        match shape {
            Shape::Text(text) => toml_tree::shape_node(shape) == Node::Text(text@),
            Shape::Integer(number) => toml_tree::shape_node(shape) == Node::Integer(number),
            Shape::Boolean(flag) => toml_tree::shape_node(shape) == Node::Boolean(flag),
            Shape::Float => toml_tree::shape_node(shape) is Float,
            Shape::Datetime => toml_tree::shape_node(shape) is Datetime,
            Shape::Absent => toml_tree::shape_node(shape) is Absent,
            Shape::Array(array) => toml_tree::shape_node(shape) == Node::Array(
                toml_tree::array_items(*array),
            ),
            Shape::Sections(sections) => toml_tree::shape_node(shape) == Node::Array(
                toml_tree::section_items(*sections),
            ),
            Shape::Inline(table) => toml_tree::shape_node(shape) == Node::Table(
                toml_tree::inline_entries(*table),
            ),
            Shape::Table(table) => toml_tree::shape_node(shape) == Node::Table(
                toml_tree::read_entries(*table),
            ),
        },
        toml_tree::node_of(Some(shape)) == Some(toml_tree::shape_node(shape)),
        toml_tree::node_of(None) is None,
        match piece {
            Piece::Text(text) => toml_tree::piece_node(piece) == Node::Text(text@),
            Piece::Integer(number) => toml_tree::piece_node(piece) == Node::Integer(number),
            Piece::Boolean(flag) => toml_tree::piece_node(piece) == Node::Boolean(flag),
            Piece::Array(values) => {
                let made = toml_tree::piece_node(piece);
                &&& made is Array
                &&& made->Array_0.len() == values@.len()
                &&& forall|i: int|
                    0 <= i < values@.len() ==> made->Array_0[i] == toml_tree::value_node(
                        #[trigger] values@[i],
                    )
            },
            Piece::Table(table) => toml_tree::piece_node(piece) == Node::Table(
                toml_tree::table_entries(table),
            ),
        },
{
}

} // verus!
