//! What holds of the library as a whole.
use vstd::prelude::*;

use crate::codec;
use crate::compat;
use crate::compat_file;
use crate::config;
use crate::merge;
use crate::mode;
use crate::mode::{FirstShowMode, InitialMode};
use crate::rule;
use crate::text;
use crate::toml_tree;
use crate::toml_tree::Node;

verus! {

/// What is found in two lists after each other: what the second one finds, or else what the first
/// one finds.
proof fn lemma_found_in_sum(a: Seq<rule::RuleView>, b: Seq<rule::RuleView>, key: Seq<char>)
    ensures
        merge::last_index(a + b, key) == match merge::last_index(b, key) {
            Some(i) => Some(a.len() + i),
            None => merge::last_index(a, key),
        },
    decreases b.len(),
{
    if b.len() == 0 {
        assert(a + b =~= a);
    } else {
        assert((a + b).drop_last() =~= a + b.drop_last());
        assert((a + b).last() == b.last());
        lemma_found_in_sum(a, b.drop_last(), key);
    }
}

/// A change of rules that leaves their names alone does not change what is found where.
proof fn lemma_found_in_map(
    rules: Seq<rule::RuleView>,
    change: spec_fn(rule::RuleView) -> rule::RuleView,
    key: Seq<char>,
)
    requires
        forall|rule: rule::RuleView| (#[trigger] change(rule)).key() == rule.key(),
    ensures
        merge::last_index(rules.map_values(change), key) == merge::last_index(rules, key),
    decreases rules.len(),
{
    if rules.len() > 0 {
        assert(rules.map_values(change).drop_last() =~= rules.drop_last().map_values(change));
        assert(rules.map_values(change).last() == change(rules.last()));
        lemma_found_in_map(rules.drop_last(), change, key);
    }
}

/// A choice that keeps every rule found under a key finds what the whole list finds, and one that
/// drops every such rule finds nothing.
proof fn lemma_found_in_filter(
    rules: Seq<rule::RuleView>,
    keep: spec_fn(rule::RuleView) -> bool,
    process: Seq<char>,
)
    ensures
        (forall|i: int|
            0 <= i < rules.len() && (#[trigger] rules[i]).key() == text::lowered(process)
                ==> keep(rules[i])) ==> merge::rule_for(rules.filter(keep), process)
            == merge::rule_for(rules, process),
        (forall|i: int|
            0 <= i < rules.len() && (#[trigger] rules[i]).key() == text::lowered(process)
                ==> !keep(rules[i])) ==> merge::rule_for(rules.filter(keep), process) is None,
    decreases rules.len(),
{
    reveal(Seq::filter);
    let key = text::lowered(process);
    if rules.len() > 0 {
        let front = rules.drop_last();
        lemma_found_in_filter(front, keep, process);
        merge::lemma_last_index(front, key);
        merge::lemma_last_index(front.filter(keep), key);
        assert forall|i: int| 0 <= i < front.len() implies #[trigger] front[i] == rules[i] by {}
        assert(rules.last() == rules[rules.len() - 1]);
        let kept = rules.filter(keep);
        if keep(rules.last()) {
            assert(kept =~= front.filter(keep).push(rules.last()));
            assert(kept.drop_last() =~= front.filter(keep));
        } else {
            assert(kept =~= front.filter(keep));
        }
    }
}

/// The rule of an upper layer over that of a lower one: it stands as a whole, except that a pair
/// guard that it does not set is taken from below.
pub open spec fn over(lower: Option<rule::RuleView>, upper: Option<rule::RuleView>) -> Option<
    rule::RuleView,
> {
    match upper {
        None => lower,
        Some(rule) => if rule.composition_start_pair_guard is Some || lower is None {
            Some(rule)
        } else {
            Some(
                rule::RuleView {
                    composition_start_pair_guard: lower->0.composition_start_pair_guard,
                    ..rule
                },
            )
        },
    }
}

/// After a merge a process has the rule of the upper layer, as a whole but for an inherited pair
/// guard, or where the upper layer has none the rule of the lower layer.
pub proof fn law_upper_layer_overrides(
    base: Seq<rule::RuleView>,
    user: Seq<rule::RuleView>,
    process: Seq<char>,
)
    ensures
        merge::rule_for(merge::merged(base, user), process) == over(
            merge::rule_for(base, process),
            merge::rule_for(user, process),
        ),
{
    let key = text::lowered(process);
    let keep = |rule: rule::RuleView| merge::rule_for(user, rule.process) is None;
    let inherit = |rule: rule::RuleView| merge::inheriting(base, rule);
    lemma_found_in_sum(base.filter(keep), user.map_values(inherit), key);
    lemma_found_in_map(user, inherit, key);
    lemma_found_in_filter(base, keep, process);
    merge::lemma_last_index(user, key);
    merge::lemma_last_index(base.filter(keep), key);
}

/// An upper layer without rules leaves the lower one as it is.
pub proof fn law_empty_upper_layer_keeps_base(base: Seq<rule::RuleView>)
    ensures
        merge::merged(base, Seq::empty()) == base,
{
    let keep = |rule: rule::RuleView| {
        merge::rule_for(Seq::<rule::RuleView>::empty(), rule.process) is None
    };
    merge::lemma_filter_all(base, keep);
    assert(merge::merged(base, Seq::empty()) =~= base);
}

/// A lower layer without rules leaves the upper one as it is.
pub proof fn law_empty_lower_layer_keeps_user(user: Seq<rule::RuleView>)
    ensures
        merge::merged(Seq::empty(), user) == user,
{
    let base = Seq::<rule::RuleView>::empty();
    assert forall|i: int| 0 <= i < user.len() implies merge::inheriting(base, #[trigger] user[i])
        == user[i] by {}
    let keep = |rule: rule::RuleView| merge::rule_for(user, rule.process) is None;
    base.lemma_filter_len(keep);
    assert(merge::merged(base, user) =~= user);
}

/// To choose twice is to choose once by both.
proof fn lemma_filter_twice<A>(
    s: Seq<A>,
    first: spec_fn(A) -> bool,
    second: spec_fn(A) -> bool,
    both: spec_fn(A) -> bool,
)
    requires
        forall|x: A| #[trigger] both(x) <==> first(x) && second(x),
    ensures
        s.filter(first).filter(second) == s.filter(both),
    decreases s.len(),
{
    reveal(Seq::filter);
    if s.len() > 0 {
        lemma_filter_twice(s.drop_last(), first, second, both);
        let x = s.last();
        assert(both(x) <==> first(x) && second(x));
        if first(x) {
            assert(s.filter(first).drop_last() =~= s.drop_last().filter(first));
        }
    }
}

/// A choice that a change does not affect may be made before or after it.
proof fn lemma_filter_of_map(
    rules: Seq<rule::RuleView>,
    change: spec_fn(rule::RuleView) -> rule::RuleView,
    keep: spec_fn(rule::RuleView) -> bool,
)
    requires
        forall|rule: rule::RuleView| keep(#[trigger] change(rule)) <==> keep(rule),
    ensures
        rules.map_values(change).filter(keep) == rules.filter(keep).map_values(change),
    decreases rules.len(),
{
    reveal(Seq::filter);
    if rules.len() > 0 {
        let front = rules.drop_last();
        lemma_filter_of_map(front, change, keep);
        assert(rules.map_values(change).drop_last() =~= front.map_values(change));
        assert(rules.map_values(change).last() == change(rules.last()));
        assert(keep(change(rules.last())) <==> keep(rules.last()));
    }
    assert(rules.map_values(change).filter(keep) =~= rules.filter(keep).map_values(change));
}

/// Of three layers it does not matter which two are merged first.
pub proof fn law_merging_is_associative(
    low: Seq<rule::RuleView>,
    middle: Seq<rule::RuleView>,
    high: Seq<rule::RuleView>,
)
    ensures
        merge::merged(merge::merged(low, middle), high) == merge::merged(
            low,
            merge::merged(middle, high),
        ),
{
    let lower = merge::merged(low, middle);
    let upper = merge::merged(middle, high);
    let not_middle = |rule: rule::RuleView| merge::rule_for(middle, rule.process) is None;
    let not_high = |rule: rule::RuleView| merge::rule_for(high, rule.process) is None;
    let not_upper = |rule: rule::RuleView| merge::rule_for(upper, rule.process) is None;
    let from_low = |rule: rule::RuleView| merge::inheriting(low, rule);
    let from_middle = |rule: rule::RuleView| merge::inheriting(middle, rule);
    let from_lower = |rule: rule::RuleView| merge::inheriting(lower, rule);
    assert forall|rule: rule::RuleView| #[trigger]
        not_upper(rule) <==> not_middle(rule) && not_high(rule) by {
        law_upper_layer_overrides(middle, high, rule.process);
    }
    Seq::filter_distributes_over_add(
        low.filter(not_middle),
        middle.map_values(from_low),
        not_high,
    );
    lemma_filter_twice(low, not_middle, not_high, not_upper);
    lemma_filter_of_map(middle, from_low, not_high);
    let kept = middle.filter(not_high);
    let raised = high.map_values(from_middle);
    assert forall|i: int| 0 <= i < high.len() implies from_lower(#[trigger] high[i]) == from_low(
        from_middle(high[i]),
    ) by {
        law_upper_layer_overrides(low, middle, high[i].process);
    }
    assert((kept + raised).map_values(from_low) =~= kept.map_values(from_low)
        + high.map_values(from_lower));
    assert(merge::merged(lower, high) =~= merge::merged(low, upper));
}

/// Of three layers of scopes it does not matter which two are merged first, and a layer without
/// scopes changes nothing.
pub proof fn law_merging_scopes_is_associative(
    low: Seq<rule::ScopeView>,
    middle: Seq<rule::ScopeView>,
    high: Seq<rule::ScopeView>,
)
    ensures
        merge::merged_scopes(merge::merged_scopes(low, middle), high) == merge::merged_scopes(
            low,
            merge::merged_scopes(middle, high),
        ),
        merge::merged_scopes(low, Seq::empty()) == low,
        merge::merged_scopes(Seq::empty(), high) == high,
{
    let upper = merge::merged_scopes(middle, high);
    let not_middle = |scope: rule::ScopeView| {
        merge::last_scope_index(middle, scope.key()) is None
    };
    let not_high = |scope: rule::ScopeView| merge::last_scope_index(high, scope.key()) is None;
    let not_upper = |scope: rule::ScopeView| merge::last_scope_index(upper, scope.key()) is None;
    assert forall|scope: rule::ScopeView| #[trigger]
        not_upper(scope) <==> not_middle(scope) && not_high(scope) by {
        lemma_scope_found_in_sum(middle.filter(not_high), high, scope.key());
        if not_high(scope) {
            lemma_scope_found_in_filter_by_key(middle, not_high, scope.key());
        }
    }
    Seq::filter_distributes_over_add(low.filter(not_middle), middle, not_high);
    lemma_filter_twice(low, not_middle, not_high, not_upper);
    assert(merge::merged_scopes(merge::merged_scopes(low, middle), high)
        =~= merge::merged_scopes(low, upper));
    let all = |scope: rule::ScopeView| {
        merge::last_scope_index(Seq::<rule::ScopeView>::empty(), scope.key()) is None
    };
    merge::lemma_filter_all(low, all);
    assert(merge::merged_scopes(low, Seq::empty()) =~= low);
    Seq::<rule::ScopeView>::empty().lemma_filter_len(not_high);
    assert(merge::merged_scopes(Seq::empty(), high) =~= high);
}

/// A pair guard that an upper layer does not set is inherited, and one that it sets, also to
/// `false`, stands.
pub proof fn law_pair_guard_is_inherited(
    base: Seq<rule::RuleView>,
    user: Seq<rule::RuleView>,
    process: Seq<char>,
)
    requires
        merge::rule_for(base, process) is Some,
        merge::rule_for(user, process) is Some,
    ensures
        ({
            let lower = merge::rule_for(base, process)->0.composition_start_pair_guard;
            let upper = merge::rule_for(user, process)->0.composition_start_pair_guard;
            merge::rule_for(merge::merged(base, user), process)->0.composition_start_pair_guard
                == if upper is Some {
                upper
            } else {
                lower
            }
        }),
{
    law_upper_layer_overrides(base, user, process);
}

/// What is found in two lists of scopes after each other.
proof fn lemma_scope_found_in_sum(
    a: Seq<rule::ScopeView>,
    b: Seq<rule::ScopeView>,
    key: Seq<char>,
)
    ensures
        merge::last_scope_index(a + b, key) == match merge::last_scope_index(b, key) {
            Some(i) => Some(a.len() + i),
            None => merge::last_scope_index(a, key),
        },
    decreases b.len(),
{
    if b.len() == 0 {
        assert(a + b =~= a);
    } else {
        assert((a + b).drop_last() =~= a + b.drop_last());
        assert((a + b).last() == b.last());
        lemma_scope_found_in_sum(a, b.drop_last(), key);
    }
}

/// A choice that keeps every scope found under a key finds what the whole list finds.
proof fn lemma_scope_found_in_filter(
    scopes: Seq<rule::ScopeView>,
    keep: spec_fn(rule::ScopeView) -> bool,
    process: Seq<char>,
)
    requires
        forall|i: int|
            0 <= i < scopes.len() && (#[trigger] scopes[i]).key() == text::lowered(process)
                ==> keep(scopes[i]),
    ensures
        merge::scope_for(scopes.filter(keep), process) == merge::scope_for(scopes, process),
    decreases scopes.len(),
{
    reveal(Seq::filter);
    let key = text::lowered(process);
    if scopes.len() > 0 {
        let front = scopes.drop_last();
        assert forall|i: int| 0 <= i < front.len() implies #[trigger] front[i] == scopes[i] by {}
        lemma_scope_found_in_filter(front, keep, process);
        merge::lemma_last_scope_index(front, key);
        merge::lemma_last_scope_index(front.filter(keep), key);
        assert(scopes.last() == scopes[scopes.len() - 1]);
        let kept = scopes.filter(keep);
        if keep(scopes.last()) {
            assert(kept =~= front.filter(keep).push(scopes.last()));
            assert(kept.drop_last() =~= front.filter(keep));
        } else {
            assert(kept =~= front.filter(keep));
        }
    }
}

/// A choice that keeps every scope found under a key finds one there where the whole list does.
proof fn lemma_scope_found_in_filter_by_key(
    scopes: Seq<rule::ScopeView>,
    keep: spec_fn(rule::ScopeView) -> bool,
    key: Seq<char>,
)
    requires
        forall|scope: rule::ScopeView| #[trigger] keep(scope) || scope.key() != key,
    ensures
        merge::last_scope_index(scopes.filter(keep), key) is None <==> merge::last_scope_index(
            scopes,
            key,
        ) is None,
    decreases scopes.len(),
{
    reveal(Seq::filter);
    if scopes.len() > 0 {
        let front = scopes.drop_last();
        lemma_scope_found_in_filter_by_key(front, keep, key);
        let x = scopes.last();
        assert(keep(x) || x.key() != key);
        if keep(x) {
            assert(scopes.filter(keep).drop_last() =~= front.filter(keep));
        }
    }
}

/// After a merge a process has the scope of the upper layer as a whole, or where the upper layer
/// has none that of the lower layer.
pub proof fn law_upper_scope_overrides(
    base: Seq<rule::ScopeView>,
    user: Seq<rule::ScopeView>,
    process: Seq<char>,
)
    ensures
        merge::scope_for(merge::merged_scopes(base, user), process) == match merge::scope_for(
            user,
            process,
        ) {
            Some(scope) => Some(scope),
            None => merge::scope_for(base, process),
        },
{
    let key = text::lowered(process);
    let keep = |scope: rule::ScopeView| merge::last_scope_index(user, scope.key()) is None;
    lemma_scope_found_in_sum(base.filter(keep), user, key);
    merge::lemma_last_scope_index(user, key);
    if merge::last_scope_index(user, key) is None {
        lemma_scope_found_in_filter(base, keep, process);
        merge::lemma_last_scope_index(base.filter(keep), key);
    }
}

/// The rule of a process in an optional layer.
pub open spec fn layer_rule(file: Option<compat_file::FileView>, process: Seq<char>) -> Option<
    rule::RuleView,
> {
    match file {
        Some(file) => merge::rule_for(file.apps, process),
        None => None,
    }
}

/// The scope of a process in an optional layer.
pub open spec fn layer_scope(file: Option<compat_file::FileView>, process: Seq<char>) -> Option<
    rule::ScopeView,
> {
    match file {
        Some(file) => merge::scope_for(file.initial_mode_scope, process),
        None => None,
    }
}

/// Of three layers the user's rule stands over the vendor's, and that over the system's.
pub proof fn law_layers_override_in_order(
    data: Option<compat_file::FileView>,
    custom: Option<compat_file::FileView>,
    user: Option<compat_file::FileView>,
    process: Seq<char>,
)
    ensures
        merge::rule_for(compat::layered(data, custom, user).apps, process) == over(
            over(layer_rule(data, process), layer_rule(custom, process)),
            layer_rule(user, process),
        ),
        merge::scope_for(compat::layered(data, custom, user).scope, process) == match layer_scope(
            user,
            process,
        ) {
            Some(scope) => Some(scope),
            None => match layer_scope(custom, process) {
                Some(scope) => Some(scope),
                None => layer_scope(data, process),
            },
        },
{
    let base = match data {
        Some(file) => file,
        None => compat_file::FileView::empty(),
    };
    let middle = compat::stacked(base, custom);
    if let Some(file) = custom {
        law_upper_layer_overrides(base.apps, file.apps, process);
        law_upper_scope_overrides(base.initial_mode_scope, file.initial_mode_scope, process);
    }
    if let Some(file) = user {
        law_upper_layer_overrides(middle.apps, file.apps, process);
        law_upper_scope_overrides(middle.initial_mode_scope, file.initial_mode_scope, process);
    }
}

/// A file whose scopes are those of another one, or that is missing where the other one is.
pub open spec fn same_scopes(
    a: Option<compat_file::FileView>,
    b: Option<compat_file::FileView>,
) -> bool {
    match (a, b) {
        (Some(a), Some(b)) => a.initial_mode_scope == b.initial_mode_scope,
        (None, None) => true,
        _ => false,
    }
}

/// A file whose rules are those of another one, or that is missing where the other one is.
pub open spec fn same_apps(
    a: Option<compat_file::FileView>,
    b: Option<compat_file::FileView>,
) -> bool {
    match (a, b) {
        (Some(a), Some(b)) => a.apps == b.apps,
        (None, None) => true,
        _ => false,
    }
}

/// The scopes in force do not depend on the rules of any layer, nor the rules on the scopes: a
/// rule for a process never drops a scope of that process.
pub proof fn law_rules_and_scopes_merge_independently(
    data: (Option<compat_file::FileView>, Option<compat_file::FileView>),
    custom: (Option<compat_file::FileView>, Option<compat_file::FileView>),
    user: (Option<compat_file::FileView>, Option<compat_file::FileView>),
)
    ensures
        same_scopes(data.0, data.1) && same_scopes(custom.0, custom.1) && same_scopes(
            user.0,
            user.1,
        ) ==> compat::layered(data.0, custom.0, user.0).scope == compat::layered(
            data.1,
            custom.1,
            user.1,
        ).scope,
        same_apps(data.0, data.1) && same_apps(custom.0, custom.1) && same_apps(user.0, user.1)
            ==> compat::layered(data.0, custom.0, user.0).apps == compat::layered(
            data.1,
            custom.1,
            user.1,
        ).apps,
{
}

/// Rules and scopes are found by the name of the process and listed classes by the name of the
/// class, whatever the case of its letters. That goes for a rule to be edited too.
pub proof fn law_names_are_case_insensitive(
    compat: compat::CompatView,
    edit: spec_fn(rule::RuleView) -> rule::RuleView,
    process: Seq<char>,
    other_process: Seq<char>,
    class: Seq<char>,
    other_class: Seq<char>,
)
    requires
        text::lowered(process) == text::lowered(other_process),
        text::lowered(class) == text::lowered(other_class),
    ensures
        merge::rule_for(compat.apps, process) == merge::rule_for(compat.apps, other_process),
        compat::applies_to_window(compat.scope, process, class) == compat::applies_to_window(
            compat.scope,
            other_process,
            other_class,
        ),
        merge::rule_for(compat.apps, process) is Some ==> rule::upserted(compat.apps, process, edit)
            == rule::upserted(compat.apps, other_process, edit),
{
    rule::lemma_first_index(compat.apps, text::lowered(process));
    merge::lemma_last_index(compat.apps, text::lowered(process));
    assert(process.len() == text::lowered(process).len());
    assert(other_process.len() == text::lowered(other_process).len());
    assert(class.len() == text::lowered(class).len());
    assert(other_class.len() == text::lowered(other_class).len());
}

/// A process without a scope is not restricted, whatever the window, and neither is a process
/// without a name.
pub proof fn law_unscoped_process_is_unrestricted(
    scopes: Seq<rule::ScopeView>,
    process: Seq<char>,
    class: Seq<char>,
)
    requires
        process.len() == 0 || forall|i: int|
            0 <= i < scopes.len() ==> (#[trigger] scopes[i]).key() != text::lowered(process),
    ensures
        compat::applies_to_window(scopes, process, class),
{
    merge::lemma_last_scope_index(scopes, text::lowered(process));
}

/// A window whose class could not be found out is outside every scope, and a scope that lists no
/// class covers no window.
pub proof fn law_unknown_windows_are_outside(
    scopes: Seq<rule::ScopeView>,
    process: Seq<char>,
    class: Seq<char>,
)
    requires
        merge::scope_for(scopes, process) is Some,
        class.len() == 0 || merge::scope_for(scopes, process)->0.classes.len() == 0,
    ensures
        !compat::applies_to_window(scopes, process, class),
{
}

/// Editing the rule of a process changes that rule alone, or adds one rule at the end.
pub proof fn law_edit_touches_one_rule(
    rules: Seq<rule::RuleView>,
    process: Seq<char>,
    edit: spec_fn(rule::RuleView) -> rule::RuleView,
)
    ensures
        ({
            let after = rule::upserted(rules, process, edit);
            match rule::first_index(rules, text::lowered(process)) {
                Some(i) => {
                    &&& after.len() == rules.len()
                    &&& after[i] == edit(rules[i])
                    &&& forall|j: int|
                        0 <= j < rules.len() && j != i ==> #[trigger] after[j] == rules[j]
                },
                None => {
                    &&& after.len() == rules.len() + 1
                    &&& after.last() == edit(rule::RuleView::bare(process))
                    &&& forall|j: int| 0 <= j < rules.len() ==> #[trigger] after[j] == rules[j]
                },
            }
        }),
{
    rule::lemma_first_index(rules, text::lowered(process));
}

/// Where the first rule with the given properties is.
proof fn lemma_first_index_is(rules: Seq<rule::RuleView>, key: Seq<char>, i: int)
    requires
        0 <= i < rules.len(),
        rules[i].key() == key,
        forall|j: int| 0 <= j < i ==> (#[trigger] rules[j]).key() != key,
    ensures
        rule::first_index(rules, key) == Some(i),
{
    rule::lemma_first_index(rules, key);
}

/// Editing a rule twice is one edit made of both, as long as the first one leaves the name alone:
/// of two settings of one field the second one counts.
pub proof fn law_edits_compose(
    rules: Seq<rule::RuleView>,
    process: Seq<char>,
    first: spec_fn(rule::RuleView) -> rule::RuleView,
    second: spec_fn(rule::RuleView) -> rule::RuleView,
)
    requires
        forall|rule: rule::RuleView| (#[trigger] first(rule)).key() == rule.key(),
    ensures
        rule::upserted(rule::upserted(rules, process, first), process, second) == rule::upserted(
            rules,
            process,
            |rule: rule::RuleView| second(first(rule)),
        ),
{
    let key = text::lowered(process);
    let after = rule::upserted(rules, process, first);
    rule::lemma_first_index(rules, key);
    match rule::first_index(rules, key) {
        Some(i) => {
            lemma_first_index_is(after, key, i);
        },
        None => {
            assert(first(rule::RuleView::bare(process)).key() == key);
            lemma_first_index_is(after, key, rules.len() as int);
        },
    }
    assert(rule::upserted(after, process, second) =~= rule::upserted(
        rules,
        process,
        |rule: rule::RuleView| second(first(rule)),
    ));
}

/// Whether at most one rule is found under `key`.
pub open spec fn at_most_one(rules: Seq<rule::RuleView>, key: Seq<char>) -> bool {
    forall|i: int, j: int|
        #![trigger rules[i], rules[j]]
        0 <= i < rules.len() && 0 <= j < rules.len() && rules[i].key() == key && rules[j].key()
            == key ==> i == j
}

/// What an edit does to the rule in force, where the process has one rule at most.
proof fn lemma_edit_takes_effect(
    rules: Seq<rule::RuleView>,
    process: Seq<char>,
    edit: spec_fn(rule::RuleView) -> rule::RuleView,
)
    requires
        at_most_one(rules, text::lowered(process)),
        forall|rule: rule::RuleView| (#[trigger] edit(rule)).key() == rule.key(),
    ensures
        merge::rule_for(rule::upserted(rules, process, edit), process) == Some(
            edit(
                match merge::rule_for(rules, process) {
                    Some(rule) => rule,
                    None => rule::RuleView::bare(process),
                },
            ),
        ),
        at_most_one(rule::upserted(rules, process, edit), text::lowered(process)),
{
    let key = text::lowered(process);
    let after = rule::upserted(rules, process, edit);
    rule::lemma_first_index(rules, key);
    merge::lemma_last_index(rules, key);
    merge::lemma_last_index(after, key);
    match rule::first_index(rules, key) {
        Some(i) => {
            assert(after[i].key() == key);
            assert forall|j: int| 0 <= j < after.len() && j != i implies (#[trigger] after[j]).key()
                != key by {
                assert(after[j] == rules[j]);
                assert(rules[i].key() == key);
            }
        },
        None => {
            assert(edit(rule::RuleView::bare(process)).key() == key);
            assert(after.last() == after[after.len() - 1]);
            assert forall|j: int| 0 <= j < rules.len() implies (#[trigger] after[j]).key() != key by {
                assert(after[j] == rules[j]);
            }
        },
    }
}

/// A setting made in the user file is in force as soon as the file is read again, where the file
/// has one rule for the process at most: the process has its rule from before, or a bare one,
/// with the edit applied. Where that sets nothing any more the process has no rule.
pub proof fn law_setting_takes_effect(
    file: compat_file::FileView,
    process: Seq<char>,
    edit: spec_fn(rule::RuleView) -> rule::RuleView,
)
    requires
        at_most_one(file.apps, text::lowered(process)),
        forall|rule: rule::RuleView| (#[trigger] edit(rule)).key() == rule.key(),
    ensures
        ({
            let edited = edit(
                match merge::rule_for(file.apps, process) {
                    Some(rule) => rule,
                    None => rule::RuleView::bare(process),
                },
            );
            merge::rule_for(compat_file::updated(file, process, edit).apps, process)
                == if edited.is_bare() {
                None
            } else {
                Some(edited)
            }
        }),
{
    let key = text::lowered(process);
    let after = rule::upserted(file.apps, process, edit);
    let keep = |rule: rule::RuleView| !rule.is_bare();
    lemma_edit_takes_effect(file.apps, process, edit);
    merge::lemma_last_index(after, key);
    lemma_found_in_filter(after, keep, process);
    let found = merge::last_index(after, key)->0;
    assert forall|i: int| 0 <= i < after.len() && (#[trigger] after[i]).key() == key implies after[i]
        == after[found] by {
        assert(after[found].key() == key);
    }
}

/// Clearing the last setting of a process in the user file leaves the lower layers in force for
/// it, as if the user had never set anything.
pub proof fn law_cleared_rule_uncovers_lower_layer(
    base: Seq<rule::RuleView>,
    file: compat_file::FileView,
    process: Seq<char>,
    edit: spec_fn(rule::RuleView) -> rule::RuleView,
)
    requires
        at_most_one(file.apps, text::lowered(process)),
        forall|rule: rule::RuleView| (#[trigger] edit(rule)).key() == rule.key(),
        edit(
            match merge::rule_for(file.apps, process) {
                Some(rule) => rule,
                None => rule::RuleView::bare(process),
            },
        ).is_bare(),
    ensures
        merge::rule_for(
            merge::merged(base, compat_file::updated(file, process, edit).apps),
            process,
        ) == merge::rule_for(base, process),
{
    law_setting_takes_effect(file, process, edit);
    law_upper_layer_overrides(base, compat_file::updated(file, process, edit).apps, process);
}

/// A user file is written without rules that set nothing, and a rule that sets something is never
/// dropped.
pub proof fn law_written_rules_set_something(rules: Seq<rule::RuleView>)
    ensures
        forall|i: int|
            0 <= i < compat_file::kept(rules).len() ==> !(#[trigger] compat_file::kept(
                rules,
            )[i]).is_bare(),
        forall|i: int|
            0 <= i < rules.len() && !(#[trigger] rules[i]).is_bare() ==> compat_file::kept(
                rules,
            ).contains(rules[i]),
{
    let keep = |rule: rule::RuleView| !rule.is_bare();
    assert forall|i: int| 0 <= i < compat_file::kept(rules).len() implies !(
    #[trigger] compat_file::kept(rules)[i]).is_bare() by {
        rules.lemma_filter_pred(keep, i);
    }
    assert forall|i: int| 0 <= i < rules.len() && !(#[trigger] rules[i]).is_bare() implies
        compat_file::kept(rules).contains(rules[i]) by {
        rules.lemma_filter_contains(keep, i);
    }
}

/// A choice among rules finds under a key no more than the whole list does.
pub(crate) proof fn lemma_at_most_one_in_filter(
    rules: Seq<rule::RuleView>,
    keep: spec_fn(rule::RuleView) -> bool,
    key: Seq<char>,
)
    requires
        at_most_one(rules, key),
    ensures
        at_most_one(rules.filter(keep), key),
        (forall|i: int| 0 <= i < rules.len() ==> (#[trigger] rules[i]).key() != key) ==> forall|
            i: int,
        |
            0 <= i < rules.filter(keep).len() ==> (#[trigger] rules.filter(keep)[i]).key() != key,
    decreases rules.len(),
{
    reveal(Seq::filter);
    if rules.len() > 0 {
        let front = rules.drop_last();
        assert forall|i: int| 0 <= i < front.len() implies #[trigger] front[i] == rules[i] by {}
        lemma_at_most_one_in_filter(front, keep, key);
        assert(rules.last() == rules[rules.len() - 1]);
        let fewer = front.filter(keep);
        let kept = rules.filter(keep);
        if keep(rules.last()) {
            assert(kept =~= fewer.push(rules.last()));
            assert forall|i: int| 0 <= i < fewer.len() implies #[trigger] kept[i] == fewer[i] by {}
        } else {
            assert(kept =~= fewer);
        }
    }
}

/// A setting leaves the process with one rule at most, so that further settings take effect too.
pub proof fn law_setting_keeps_rules_unique(
    file: compat_file::FileView,
    process: Seq<char>,
    edit: spec_fn(rule::RuleView) -> rule::RuleView,
)
    requires
        at_most_one(file.apps, text::lowered(process)),
        forall|rule: rule::RuleView| (#[trigger] edit(rule)).key() == rule.key(),
    ensures
        at_most_one(compat_file::updated(file, process, edit).apps, text::lowered(process)),
{
    lemma_edit_takes_effect(file.apps, process, edit);
    lemma_at_most_one_in_filter(
        rule::upserted(file.apps, process, edit),
        |rule: rule::RuleView| !rule.is_bare(),
        text::lowered(process),
    );
}

/// A setting leaves the other processes alone: each has the rule that it had, unless its rules
/// set nothing to begin with. The scopes stay as they are.
pub proof fn law_setting_leaves_others_alone(
    file: compat_file::FileView,
    process: Seq<char>,
    edit: spec_fn(rule::RuleView) -> rule::RuleView,
    other: Seq<char>,
)
    requires
        forall|rule: rule::RuleView| (#[trigger] edit(rule)).key() == rule.key(),
        text::lowered(other) != text::lowered(process),
        forall|i: int|
            0 <= i < file.apps.len() && (#[trigger] file.apps[i]).key() == text::lowered(other)
                ==> !file.apps[i].is_bare(),
    ensures
        merge::rule_for(compat_file::updated(file, process, edit).apps, other)
            == merge::rule_for(file.apps, other),
        compat_file::updated(file, process, edit).initial_mode_scope == file.initial_mode_scope,
{
    let key = text::lowered(other);
    let rules = file.apps;
    let after = rule::upserted(rules, process, edit);
    rule::lemma_first_index(rules, text::lowered(process));
    merge::lemma_last_index(rules, key);
    merge::lemma_last_index(after, key);
    assert(edit(rule::RuleView::bare(process)).key() == text::lowered(process));
    assert forall|i: int| 0 <= i < rules.len() implies (#[trigger] after[i]).key()
        == rules[i].key() && (rules[i].key() == key ==> after[i] == rules[i]) by {}
    assert forall|i: int| 0 <= i < after.len() && (#[trigger] after[i]).key() == key implies i
        < rules.len() && !after[i].is_bare() by {
        if i < rules.len() {
            assert(rules[i].key() == key);
        }
    }
    match merge::last_index(rules, key) {
        Some(i) => {
            assert(after[i].key() == key);
        },
        None => {},
    }
    match merge::last_index(after, key) {
        Some(i) => {
            assert(rules[i].key() == key);
        },
        None => {},
    }
    lemma_found_in_filter(after, |rule: rule::RuleView| !rule.is_bare(), other);
}

/// Whether two records agree on a field.
pub open spec fn agree(a: Node, b: Node, place: int, name: Seq<char>) -> bool {
    codec::field(a, place, name) == codec::field(b, place, name)
}

/// Whether a field is missing or a text.
pub open spec fn text_or_nothing(record: Node, place: int, name: Seq<char>) -> bool {
    match codec::field(record, place, name) {
        None => true,
        Some(value) => value is Text,
    }
}

/// Whatever texts stand for the modes of a rule, they cost nothing but those modes: a misspelt
/// mode neither makes the rule unreadable nor touches another field.
pub proof fn law_misspelt_mode_costs_one_field(a: Node, b: Node)
    requires
        codec::holds_fields(a),
        codec::holds_fields(b),
        agree(a, b, 0, "process"@),
        agree(a, b, 1, "comment"@),
        agree(a, b, 2, "caret_use_top"@),
        agree(a, b, 3, "stale_probe_guard"@),
        agree(a, b, 4, "composition_start_pair_guard"@),
        agree(a, b, 8, "host_render"@),
        agree(a, b, 9, "auto_pair"@),
        agree(a, b, 10, "smart_method"@),
        agree(a, b, 11, "caret_offset_x"@),
        agree(a, b, 12, "caret_offset_y"@),
        text_or_nothing(a, 5, "first_show_mode"@),
        text_or_nothing(b, 5, "first_show_mode"@),
        text_or_nothing(a, 6, "initial_mode"@),
        text_or_nothing(b, 6, "initial_mode"@),
        text_or_nothing(a, 7, "initial_punct"@),
        text_or_nothing(b, 7, "initial_punct"@),
    ensures
        codec::decoded_rule(a) is Some <==> codec::decoded_rule(b) is Some,
        codec::decoded_rule(a) is Some ==> codec::decoded_rule(b)->0 == (rule::RuleView {
            first_show_mode: codec::decoded_rule(b)->0.first_show_mode,
            initial_mode: codec::decoded_rule(b)->0.initial_mode,
            initial_punct: codec::decoded_rule(b)->0.initial_punct,
            ..codec::decoded_rule(a)->0
        }),
{
}

/// The names of the fields of a rule.
pub open spec fn is_rule_name(name: Seq<char>) -> bool {
    ||| name == "process"@
    ||| name == "comment"@
    ||| name == "caret_use_top"@
    ||| name == "stale_probe_guard"@
    ||| name == "composition_start_pair_guard"@
    ||| name == "first_show_mode"@
    ||| name == "initial_mode"@
    ||| name == "initial_punct"@
    ||| name == "host_render"@
    ||| name == "auto_pair"@
    ||| name == "smart_method"@
    ||| name == "caret_offset_x"@
    ||| name == "caret_offset_y"@
}

/// A field that nobody knows is passed over.
pub proof fn law_unknown_fields_are_ignored(
    entries: Seq<(Seq<char>, Node)>,
    name: Seq<char>,
    value: Node,
)
    requires
        !is_rule_name(name),
    ensures
        codec::decoded_rule(Node::Table(entries.push((name, value)))) == codec::decoded_rule(
            Node::Table(entries),
        ),
{
    let longer = entries.push((name, value));
    assert(longer.drop_last() =~= entries);
    assert forall|key: Seq<char>| is_rule_name(key) implies #[trigger] toml_tree::lookup(longer, key)
        == toml_tree::lookup(entries, key) by {}
}

/// A field that is missing has its neutral value.
pub proof fn law_missing_fields_are_neutral(record: Node)
    requires
        codec::decoded_rule(record) is Some,
    ensures
        ({
            let rule = codec::decoded_rule(record)->0;
            let bare = rule::RuleView::bare(Seq::empty());
            &&& codec::field(record, 0, "process"@) is None ==> rule.process
                == bare.process
            &&& codec::field(record, 1, "comment"@) is None ==> rule.comment
                == bare.comment
            &&& codec::field(record, 2, "caret_use_top"@) is None ==> rule.caret_use_top
                == bare.caret_use_top
            &&& codec::field(record, 3, "stale_probe_guard"@) is None ==> rule.stale_probe_guard
                == bare.stale_probe_guard
            &&& codec::field(record, 4, "composition_start_pair_guard"@) is None
                ==> rule.composition_start_pair_guard == bare.composition_start_pair_guard
            &&& codec::field(record, 5, "first_show_mode"@) is None ==> rule.first_show_mode
                == bare.first_show_mode
            &&& codec::field(record, 6, "initial_mode"@) is None ==> rule.initial_mode
                == bare.initial_mode
            &&& codec::field(record, 7, "initial_punct"@) is None ==> rule.initial_punct
                == bare.initial_punct
            &&& codec::field(record, 8, "host_render"@) is None ==> rule.host_render
                == bare.host_render
            &&& codec::field(record, 9, "auto_pair"@) is None ==> rule.auto_pair
                == bare.auto_pair
            &&& codec::field(record, 10, "smart_method"@) is None ==> rule.smart_method
                == bare.smart_method
            &&& codec::field(record, 11, "caret_offset_x"@) is None ==> rule.caret_offset_x
                == bare.caret_offset_x
            &&& codec::field(record, 12, "caret_offset_y"@) is None ==> rule.caret_offset_y
                == bare.caret_offset_y
        }),
{
}

/// A list in a file that nobody knows is passed over.
pub proof fn law_unknown_lists_are_ignored(
    entries: Seq<(Seq<char>, Node)>,
    name: Seq<char>,
    value: Node,
)
    requires
        name != "apps"@,
        name != "initial_mode_scope"@,
    ensures
        compat_file::decoded_file(entries.push((name, value))) == compat_file::decoded_file(
            entries,
        ),
{
    assert(entries.push((name, value)).drop_last() =~= entries);
}

/// Whether `s` holds nothing but white space.
pub open spec fn is_blank(s: Seq<char>) -> bool {
    forall|i: int| 0 <= i < s.len() ==> text::is_white(#[trigger] s[i])
}

/// White space before a text is trimmed from its start.
proof fn lemma_trim_start(blank: Seq<char>, s: Seq<char>)
    requires
        is_blank(blank),
    ensures
        text::trimmed_start(blank + s) == text::trimmed_start(s),
    decreases blank.len(),
{
    if blank.len() == 0 {
        assert(blank + s =~= s);
    } else {
        assert((blank + s)[0] == blank[0]);
        assert((blank + s).skip(1) =~= blank.skip(1) + s);
        assert forall|i: int| 0 <= i < blank.skip(1).len() implies text::is_white(
            #[trigger] blank.skip(1)[i],
        ) by {
            assert(blank.skip(1)[i] == blank[i + 1]);
        }
        lemma_trim_start(blank.skip(1), s);
    }
}

/// White space after a text is trimmed from its end.
proof fn lemma_trim_end(s: Seq<char>, blank: Seq<char>)
    requires
        is_blank(blank),
    ensures
        text::trimmed_end(s + blank) == text::trimmed_end(s),
    decreases blank.len(),
{
    if blank.len() == 0 {
        assert(s + blank =~= s);
    } else {
        assert((s + blank).last() == blank[blank.len() - 1]);
        assert((s + blank).drop_last() =~= s + blank.drop_last());
        assert forall|i: int| 0 <= i < blank.drop_last().len() implies text::is_white(
            #[trigger] blank.drop_last()[i],
        ) by {
            assert(blank.drop_last()[i] == blank[i]);
        }
        lemma_trim_end(s, blank.drop_last());
    }
}

/// Trimming a text from its start does not reach what follows it, unless nothing is left of it.
proof fn lemma_trim_start_of_sum(s: Seq<char>, t: Seq<char>)
    ensures
        text::trimmed_start(s + t) == if text::trimmed_start(s).len() == 0 {
            text::trimmed_start(t)
        } else {
            text::trimmed_start(s) + t
        },
    decreases s.len(),
{
    if s.len() == 0 {
        assert(s + t =~= t);
    } else {
        assert((s + t)[0] == s[0]);
        if text::is_white(s[0]) {
            assert((s + t).skip(1) =~= s.skip(1) + t);
            lemma_trim_start_of_sum(s.skip(1), t);
        }
    }
}

/// White space around a text does not matter where it is trimmed.
proof fn lemma_trim_ignores_blanks(before: Seq<char>, s: Seq<char>, after: Seq<char>)
    requires
        is_blank(before),
        is_blank(after),
    ensures
        text::trimmed(before + s + after) == text::trimmed(s),
{
    assert(before + s + after =~= before + (s + after));
    lemma_trim_start(before, s + after);
    lemma_trim_start_of_sum(s, after);
    lemma_trim_end(text::trimmed_start(s), after);
    if text::trimmed_start(s).len() == 0 {
        lemma_trim_start(after, Seq::empty());
        assert(after + Seq::<char>::empty() =~= after);
    }
}

/// Lower case neither makes nor removes white space.
proof fn lemma_trim_of_lowered(s: Seq<char>)
    ensures
        text::trimmed_start(text::lowered(s)) == text::lowered(text::trimmed_start(s)),
        text::trimmed_end(text::lowered(s)) == text::lowered(text::trimmed_end(s)),
    decreases s.len(),
{
    if s.len() > 0 {
        assert(text::lowered(s)[0] == text::ascii_lower(s[0]));
        assert(text::lowered(s).last() == text::ascii_lower(s.last()));
        assert(text::lowered(s).skip(1) =~= text::lowered(s.skip(1)));
        assert(text::lowered(s).drop_last() =~= text::lowered(s.drop_last()));
        lemma_trim_of_lowered(s.skip(1));
        lemma_trim_of_lowered(s.drop_last());
    }
}

/// What is in lower case stays as it is.
proof fn lemma_lowered_twice(s: Seq<char>)
    ensures
        text::lowered(text::lowered(s)) == text::lowered(s),
{
    assert(text::lowered(text::lowered(s)) =~= text::lowered(s));
}

/// White space around the name of a mode and the case of its letters do not matter.
pub proof fn law_mode_names_are_lenient(before: Seq<char>, s: Seq<char>, after: Seq<char>)
    requires
        is_blank(before),
        is_blank(after),
    ensures
        FirstShowMode::named(before + s + after) == FirstShowMode::named(s),
        FirstShowMode::named(text::lowered(s)) == FirstShowMode::named(s),
        InitialMode::named(before + s + after) == InitialMode::named(s),
        InitialMode::named(text::lowered(s)) == InitialMode::named(s),
{
    lemma_trim_ignores_blanks(before, s, after);
    lemma_trim_of_lowered(s);
    lemma_trim_of_lowered(text::trimmed_start(s));
    lemma_lowered_twice(text::trimmed(s));
}

/// A mode is the mode of its switch, and a switch the switch of its mode.
pub proof fn law_initial_mode_is_a_switch(mode: InitialMode, chinese: bool)
    ensures
        InitialMode::of_switch(mode.as_switch()) == mode,
        InitialMode::of_switch(chinese).as_switch() == chinese,
{
}

/// What the factory settings name is the mode that an unknown name falls back to.
pub proof fn law_factory_mode_is_default()
    ensures
        FirstShowMode::named(config::factory_first_show_mode()) == Some(
            FirstShowMode::fallback(),
        ),
{
    mode::law_first_show_mode_round_trip(FirstShowMode::Fast);
}

} // verus!
