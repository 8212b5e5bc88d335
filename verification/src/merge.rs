//! Merging a layer of rules over a lower one.
use vstd::hash_map::StringHashMap;
use vstd::hash_set::StringHashSet;
use vstd::prelude::*;

use crate::rule;
use crate::rule::{AppCompatRule, InitialModeScopeRule};
use crate::text;

verus! {

/// The index of the last rule found under `key`.
pub open spec fn last_index(rules: Seq<rule::RuleView>, key: Seq<char>) -> Option<int>
    decreases rules.len(),
{
    if rules.len() == 0 {
        None
    } else if rules.last().key() == key {
        Some(rules.len() - 1)
    } else {
        last_index(rules.drop_last(), key)
    }
}

/// The rule that applies to `process`: the last one with its name, case aside.
pub open spec fn rule_for(rules: Seq<rule::RuleView>, process: Seq<char>) -> Option<
    rule::RuleView,
> {
    match last_index(rules, text::lowered(process)) {
        Some(i) => Some(rules[i]),
        None => None,
    }
}

/// `rule` with the pair guard of the lower layer where it sets none itself.
pub open spec fn inheriting(base: Seq<rule::RuleView>, rule: rule::RuleView) -> rule::RuleView {
    if rule.composition_start_pair_guard is Some {
        rule
    } else {
        rule::RuleView {
            composition_start_pair_guard: match rule_for(base, rule.process) {
                Some(lower) => lower.composition_start_pair_guard,
                None => None,
            },
            ..rule
        }
    }
}

/// The rules of two layers: those of `base` that `user` does not replace, then all of `user`.
pub open spec fn merged(base: Seq<rule::RuleView>, user: Seq<rule::RuleView>) -> Seq<
    rule::RuleView,
> {
    base.filter(|rule: rule::RuleView| rule_for(user, rule.process) is None) + user.map_values(
        |rule: rule::RuleView| inheriting(base, rule),
    )
}

/// What the last index found under a key is.
pub proof fn lemma_last_index(rules: Seq<rule::RuleView>, key: Seq<char>)
    ensures
        match last_index(rules, key) {
            Some(i) => {
                &&& 0 <= i < rules.len()
                &&& rules[i].key() == key
                &&& forall|j: int| i < j < rules.len() ==> (#[trigger] rules[j]).key() != key
            },
            None => forall|j: int| 0 <= j < rules.len() ==> (#[trigger] rules[j]).key() != key,
        },
    decreases rules.len(),
{
    if rules.len() > 0 {
        let front = rules.drop_last();
        lemma_last_index(front, key);
        assert forall|j: int| 0 <= j < front.len() implies #[trigger] rules[j] == front[j] by {}
    }
}

/// The pair guard that each process name of a layer stands for.
fn pair_guards(rules: &Vec<AppCompatRule>) -> (guards: StringHashMap<Option<bool>>)
    ensures
        forall|key: Seq<char>| #[trigger]
            guards@.contains_key(key) <==> last_index(rule::rule_views(rules@), key) is Some,
        forall|key: Seq<char>| #[trigger]
            guards@.contains_key(key) ==> guards@[key] == rule::rule_views(
                rules@,
            )[last_index(rule::rule_views(rules@), key)->0].composition_start_pair_guard,
{
    let mut guards: StringHashMap<Option<bool>> = StringHashMap::new();
    let ghost views = rule::rule_views(rules@);
    let mut i: usize = 0;
    while i < rules.len()
        invariant
            i <= rules@.len(),
            views == rule::rule_views(rules@),
            forall|key: Seq<char>| #[trigger]
                guards@.contains_key(key) <==> last_index(views.take(i as int), key) is Some,
            forall|key: Seq<char>| #[trigger]
                guards@.contains_key(key) ==> guards@[key] == views[last_index(
                    views.take(i as int),
                    key,
                )->0].composition_start_pair_guard,
        decreases rules@.len() - i,
    {
        let key = rules[i].process.as_str().to_ascii_lowercase();
        guards.insert(key, rules[i].composition_start_pair_guard);
        assert(views.take(i + 1).drop_last() =~= views.take(i as int));
        i += 1;
    }
    assert(views.take(views.len() as int) =~= views);
    guards
}

/// Fills in the pair guards that a layer takes from the layer below it.
fn inherit_pair_guards(base: &Vec<AppCompatRule>, user: &mut Vec<AppCompatRule>)
    ensures
        rule::rule_views(final(user)@) == rule::rule_views(old(user)@).map_values(
            |rule: rule::RuleView| inheriting(rule::rule_views(base@), rule),
        ),
{
    let guards = pair_guards(base);
    let ghost lower = rule::rule_views(base@);
    let ghost before = rule::rule_views(user@);
    let mut i: usize = 0;
    while i < user.len()
        invariant
            i <= user@.len(),
            user@.len() == before.len(),
            before == rule::rule_views(old(user)@),
            lower == rule::rule_views(base@),
            forall|j: int| 0 <= j < i ==> (#[trigger] user@[j])@ == inheriting(lower, before[j]),
            forall|j: int| i <= j < user@.len() ==> (#[trigger] user@[j])@ == before[j],
            forall|key: Seq<char>| #[trigger]
                guards@.contains_key(key) <==> last_index(lower, key) is Some,
            forall|key: Seq<char>| #[trigger]
                guards@.contains_key(key) ==> guards@[key] == lower[last_index(
                    lower,
                    key,
                )->0].composition_start_pair_guard,
        decreases user@.len() - i,
    {
        if user[i].composition_start_pair_guard.is_none() {
            let key = user[i].process.as_str().to_ascii_lowercase();
            let inherited = match guards.get(key.as_str()) {
                Some(guard) => *guard,
                None => None,
            };
            user[i].composition_start_pair_guard = inherited;
        }
        i += 1;
    }
    assert(rule::rule_views(user@) =~= before.map_values(
        |rule: rule::RuleView| inheriting(lower, rule),
    ));
}

/// The process names of a layer, as they are looked up.
fn rule_keys(rules: &Vec<AppCompatRule>) -> (keys: StringHashSet)
    ensures
        forall|key: Seq<char>| #[trigger]
            keys@.contains(key) <==> last_index(rule::rule_views(rules@), key) is Some,
{
    let mut keys = StringHashSet::new();
    let ghost views = rule::rule_views(rules@);
    let mut i: usize = 0;
    while i < rules.len()
        invariant
            i <= rules@.len(),
            views == rule::rule_views(rules@),
            forall|key: Seq<char>| #[trigger]
                keys@.contains(key) <==> last_index(views.take(i as int), key) is Some,
        decreases rules@.len() - i,
    {
        keys.insert(rules[i].process.as_str().to_ascii_lowercase());
        assert(views.take(i + 1).drop_last() =~= views.take(i as int));
        i += 1;
    }
    assert(views.take(views.len() as int) =~= views);
    keys
}

/// Merges a layer of rules over a lower one.
///
/// A rule of `user` replaces every rule of `base` for the same process, as a whole. The one
/// exception is the pair guard, which describes how a host speaks its protocol and not what the
/// user prefers: a rule that leaves it open takes it from the lower layer, so that a rule
/// written for another purpose does not switch the correction off. `Some(false)` does.
pub fn merge_rules(base: Vec<AppCompatRule>, user: Vec<AppCompatRule>) -> (res: Vec<AppCompatRule>)
    ensures
        rule::rule_views(res@) == merged(rule::rule_views(base@), rule::rule_views(user@)),
{
    let ghost lower = rule::rule_views(base@);
    let ghost upper = rule::rule_views(user@);
    let ghost kept = |rule: rule::RuleView| rule_for(upper, rule.process) is None;
    if user.is_empty() {
        proof {
            lemma_filter_all(lower, kept);
            assert(rule::rule_views(base@) =~= merged(lower, upper));
        }
        return base;
    }
    let keys = rule_keys(&user);
    let mut user = user;
    inherit_pair_guards(&base, &mut user);
    let mut res: Vec<AppCompatRule> = Vec::new();
    for rule in rest: base
        invariant
            rule::rule_views(res@) == lower.take(rest.index()).filter(kept),
            rest.seq() == base@,
            lower == rule::rule_views(base@),
            kept == (|rule: rule::RuleView| rule_for(upper, rule.process) is None),
            forall|key: Seq<char>| #[trigger]
                keys@.contains(key) <==> last_index(upper, key) is Some,
    {
        let key = rule.process.as_str().to_ascii_lowercase();
        proof {
            let n = rest.index();
            assert(lower.take(n + 1).drop_last() =~= lower.take(n));
            assert(lower.take(n + 1).last() == rule@);
            reveal(Seq::filter);
        }
        let ghost before = rule::rule_views(res@);
        if !keys.contains(key.as_str()) {
            res.push(rule);
            assert(rule::rule_views(res@) =~= before.push(rule@));
        }
    }
    assert(lower.take(lower.len() as int) =~= lower);
    let ghost front = rule::rule_views(res@);
    let ghost back = rule::rule_views(user@);
    res.append(&mut user);
    assert(rule::rule_views(res@) =~= front + back);
    res
}

/// The index of the last scope found under `key`.
pub open spec fn last_scope_index(scopes: Seq<rule::ScopeView>, key: Seq<char>) -> Option<int>
    decreases scopes.len(),
{
    if scopes.len() == 0 {
        None
    } else if scopes.last().key() == key {
        Some(scopes.len() - 1)
    } else {
        last_scope_index(scopes.drop_last(), key)
    }
}

/// The scope that restricts `process`: the last one with its name, case aside. A process without
/// a name is never restricted.
pub open spec fn scope_for(scopes: Seq<rule::ScopeView>, process: Seq<char>) -> Option<
    rule::ScopeView,
> {
    if process.len() == 0 {
        None
    } else {
        match last_scope_index(scopes, text::lowered(process)) {
            Some(i) => Some(scopes[i]),
            None => None,
        }
    }
}

/// The scopes of two layers: those of `base` that `user` does not replace, then all of `user`.
pub open spec fn merged_scopes(base: Seq<rule::ScopeView>, user: Seq<rule::ScopeView>) -> Seq<
    rule::ScopeView,
> {
    base.filter(|scope: rule::ScopeView| last_scope_index(user, scope.key()) is None) + user
}

/// What the last scope index found under a key is.
pub proof fn lemma_last_scope_index(scopes: Seq<rule::ScopeView>, key: Seq<char>)
    ensures
        match last_scope_index(scopes, key) {
            Some(i) => {
                &&& 0 <= i < scopes.len()
                &&& scopes[i].key() == key
                &&& forall|j: int| i < j < scopes.len() ==> (#[trigger] scopes[j]).key() != key
            },
            None => forall|j: int| 0 <= j < scopes.len() ==> (#[trigger] scopes[j]).key() != key,
        },
    decreases scopes.len(),
{
    if scopes.len() > 0 {
        let front = scopes.drop_last();
        lemma_last_scope_index(front, key);
        assert forall|j: int| 0 <= j < front.len() implies #[trigger] scopes[j] == front[j] by {}
    }
}

/// The process names of a layer of scopes, as they are looked up.
fn scope_keys(scopes: &Vec<InitialModeScopeRule>) -> (keys: StringHashSet)
    ensures
        forall|key: Seq<char>| #[trigger]
            keys@.contains(key) <==> last_scope_index(rule::scope_views(scopes@), key) is Some,
{
    let mut keys = StringHashSet::new();
    let ghost views = rule::scope_views(scopes@);
    let mut i: usize = 0;
    while i < scopes.len()
        invariant
            i <= scopes@.len(),
            views == rule::scope_views(scopes@),
            forall|key: Seq<char>| #[trigger]
                keys@.contains(key) <==> last_scope_index(views.take(i as int), key) is Some,
        decreases scopes@.len() - i,
    {
        keys.insert(scopes[i].process.as_str().to_ascii_lowercase());
        assert(views.take(i + 1).drop_last() =~= views.take(i as int));
        i += 1;
    }
    assert(views.take(views.len() as int) =~= views);
    keys
}

/// Merges a layer of scopes over a lower one.
///
/// A scope of `user` replaces every scope of `base` for the same process, as a whole, just as
/// rules do. Rules and scopes are merged independently of each other.
pub fn merge_mode_scope(
    base: Vec<InitialModeScopeRule>,
    user: Vec<InitialModeScopeRule>,
) -> (res: Vec<InitialModeScopeRule>)
    ensures
        rule::scope_views(res@) == merged_scopes(
            rule::scope_views(base@),
            rule::scope_views(user@),
        ),
{
    let ghost lower = rule::scope_views(base@);
    let ghost upper = rule::scope_views(user@);
    let ghost kept = |scope: rule::ScopeView| last_scope_index(upper, scope.key()) is None;
    if user.is_empty() {
        proof {
            lemma_filter_all(lower, kept);
            assert(rule::scope_views(base@) =~= merged_scopes(lower, upper));
        }
        return base;
    }
    let keys = scope_keys(&user);
    let mut user = user;
    let mut res: Vec<InitialModeScopeRule> = Vec::new();
    for scope in rest: base
        invariant
            rule::scope_views(res@) == lower.take(rest.index()).filter(kept),
            rest.seq() == base@,
            lower == rule::scope_views(base@),
            kept == (|scope: rule::ScopeView| last_scope_index(upper, scope.key()) is None),
            forall|key: Seq<char>| #[trigger]
                keys@.contains(key) <==> last_scope_index(upper, key) is Some,
    {
        let key = scope.process.as_str().to_ascii_lowercase();
        proof {
            let n = rest.index();
            assert(lower.take(n + 1).drop_last() =~= lower.take(n));
            assert(lower.take(n + 1).last() == scope@);
            reveal(Seq::filter);
        }
        let ghost before = rule::scope_views(res@);
        if !keys.contains(key.as_str()) {
            res.push(scope);
            assert(rule::scope_views(res@) =~= before.push(scope@));
        }
    }
    assert(lower.take(lower.len() as int) =~= lower);
    let ghost front = rule::scope_views(res@);
    res.append(&mut user);
    assert(rule::scope_views(res@) =~= front + upper);
    res
}

/// Filtering by what holds of every element keeps all of them.
pub proof fn lemma_filter_all<A>(s: Seq<A>, keep: spec_fn(A) -> bool)
    requires
        forall|i: int| 0 <= i < s.len() ==> keep(#[trigger] s[i]),
    ensures
        s.filter(keep) == s,
    decreases s.len(),
{
    reveal(Seq::filter);
    if s.len() > 0 {
        let front = s.drop_last();
        assert forall|i: int| 0 <= i < front.len() implies keep(#[trigger] front[i]) by {
            assert(front[i] == s[i]);
        }
        lemma_filter_all(front, keep);
        assert(keep(s[s.len() - 1]));
        assert(front.push(s.last()) =~= s);
    }
}

} // verus!
