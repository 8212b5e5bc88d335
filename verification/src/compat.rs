//! The rules in force and the questions asked of them.
use vstd::hash_map::StringHashMap;
use vstd::hash_set::StringHashSet;
use vstd::prelude::*;

use crate::compat_file;
use crate::compat_file::AppCompatFile;
use crate::merge;
use crate::merge::{merge_mode_scope, merge_rules};
use crate::rule;
use crate::rule::{AppCompatRule, InitialModeScopeRule};
use crate::text;

verus! {

/// All rules and scopes in force, with an index by process name.
pub struct AppCompat {
    apps: Vec<AppCompatRule>,
    /// The index in `apps` of the rule that applies to each process name.
    lookup: StringHashMap<usize>,
    scope: Vec<InitialModeScopeRule>,
    /// The window classes that each restricted process name is limited to.
    mode_scope: StringHashMap<StringHashSet>,
}

/// What an [`AppCompat`] holds.
#[verifier::ext_equal]
pub ghost struct CompatView {
    pub apps: Seq<rule::RuleView>,
    pub scope: Seq<rule::ScopeView>,
}

/// Whether the initial modes of `process` apply to a window of class `class`.
pub open spec fn applies_to_window(
    scopes: Seq<rule::ScopeView>,
    process: Seq<char>,
    class: Seq<char>,
) -> bool {
    match merge::scope_for(scopes, process) {
        None => true,
        Some(scope) => class.len() > 0 && scope.lists(class),
    }
}

/// Two layers in one; without an upper layer the lower one stands alone. Rules and scopes are
/// merged independently of each other.
pub open spec fn stacked(
    lower: compat_file::FileView,
    upper: Option<compat_file::FileView>,
) -> compat_file::FileView {
    match upper {
        Some(upper) => compat_file::FileView {
            apps: merge::merged(lower.apps, upper.apps),
            initial_mode_scope: merge::merged_scopes(
                lower.initial_mode_scope,
                upper.initial_mode_scope,
            ),
        },
        None => lower,
    }
}

/// The rules and scopes of the three layers, the system's, the vendor's and the user's, of which
/// each may be missing.
pub open spec fn layered(
    data: Option<compat_file::FileView>,
    custom: Option<compat_file::FileView>,
    user: Option<compat_file::FileView>,
) -> CompatView {
    let base = match data {
        Some(file) => file,
        None => compat_file::FileView::empty(),
    };
    let file = stacked(stacked(base, custom), user);
    CompatView { apps: file.apps, scope: file.initial_mode_scope }
}

/// What an optional file says.
pub open spec fn file_view(file: Option<AppCompatFile>) -> Option<compat_file::FileView> {
    match file {
        Some(file) => Some(file@),
        None => None,
    }
}

/// What the file with an optional text says; nothing where the text cannot be read.
pub open spec fn text_view(text: Option<&str>) -> Option<compat_file::FileView> {
    match text {
        Some(text) => compat_file::parsed_file(text@),
        None => None,
    }
}

/// Puts an upper layer over a lower one.
fn stack(lower: AppCompatFile, upper: Option<AppCompatFile>) -> (res: AppCompatFile)
    ensures
        res@ == stacked(lower@, file_view(upper)),
{
    match upper {
        Some(upper) => AppCompatFile {
            apps: merge_rules(lower.apps, upper.apps),
            initial_mode_scope: merge_mode_scope(
                lower.initial_mode_scope,
                upper.initial_mode_scope,
            ),
        },
        None => lower,
    }
}

/// Reads a layer from its text.
fn read_layer(text: Option<&str>) -> (res: Option<AppCompatFile>)
    ensures
        file_view(res) == text_view(text),
{
    match text {
        Some(text) => AppCompatFile::parse(text),
        None => None,
    }
}

/// `lookup` leads each process name to the rule that applies to it.
spec fn indexes_rules(lookup: Map<Seq<char>, usize>, rules: Seq<rule::RuleView>) -> bool {
    forall|key: Seq<char>|
        match merge::last_index(rules, key) {
            Some(i) => #[trigger] lookup.contains_key(key) && lookup[key] == i,
            None => !lookup.contains_key(key),
        }
}

/// The window classes of a scope, as they are looked up.
spec fn class_keys(scope: rule::ScopeView) -> Set<Seq<char>> {
    scope.classes.map_values(|class: Seq<char>| text::lowered(class)).to_set()
}

/// A class is looked up among the keys of a scope exactly where the scope lists it.
proof fn lemma_class_keys(scope: rule::ScopeView, class: Seq<char>)
    ensures
        class_keys(scope).contains(text::lowered(class)) == scope.lists(class),
{
    let keys = scope.classes.map_values(|class: Seq<char>| text::lowered(class));
    if scope.lists(class) {
        let i = choose|i: int|
            0 <= i < scope.classes.len() && text::lowered(#[trigger] scope.classes[i])
                == text::lowered(class);
        assert(keys[i] == text::lowered(class));
    }
    if keys.contains(text::lowered(class)) {
        let i = keys.index_of(text::lowered(class));
        assert(text::lowered(scope.classes[i]) == text::lowered(class));
    }
}

/// `mode_scope` leads each process name to the classes of the scope that restricts it.
spec fn indexes_scopes(
    mode_scope: Map<Seq<char>, StringHashSet>,
    scopes: Seq<rule::ScopeView>,
) -> bool {
    forall|key: Seq<char>| #[trigger] leads_to_scope(mode_scope, scopes, key)
}

/// `mode_scope` leads `key` to the classes of the scope that restricts that process.
spec fn leads_to_scope(
    mode_scope: Map<Seq<char>, StringHashSet>,
    scopes: Seq<rule::ScopeView>,
    key: Seq<char>,
) -> bool {
    match merge::last_scope_index(scopes, key) {
        Some(i) if key.len() > 0 => {
            &&& mode_scope.contains_key(key)
            &&& mode_scope[key]@ == class_keys(scopes[i])
        },
        _ => !mode_scope.contains_key(key),
    }
}

impl View for AppCompat {
    type V = CompatView;

    closed spec fn view(&self) -> CompatView {
        CompatView { apps: rule::rule_views(self.apps@), scope: rule::scope_views(self.scope@) }
    }
}

impl AppCompat {
    #[verifier::type_invariant]
    spec fn indexed(self) -> bool {
        &&& indexes_rules(self.lookup@, rule::rule_views(self.apps@))
        &&& indexes_scopes(self.mode_scope@, rule::scope_views(self.scope@))
    }

    /// Takes rules into force, with no process restricted.
    pub fn from_rules(apps: Vec<AppCompatRule>) -> (res: Self)
        ensures
            res@ == (CompatView { apps: rule::rule_views(apps@), scope: Seq::empty() }),
    {
        let scope: Vec<InitialModeScopeRule> = Vec::new();
        assert(rule::scope_views(scope@) =~= Seq::<rule::ScopeView>::empty());
        Self::from_parts(apps, scope)
    }

    /// Takes rules and scopes into force.
    pub fn from_parts(apps: Vec<AppCompatRule>, scope: Vec<InitialModeScopeRule>) -> (res: Self)
        ensures
            res@ == (CompatView {
                apps: rule::rule_views(apps@),
                scope: rule::scope_views(scope@),
            }),
    {
        let lookup = build_lookup(&apps);
        let mode_scope = build_mode_scope(&scope);
        AppCompat { apps, lookup, scope, mode_scope }
    }

    /// Takes the rules and scopes of three layers into force, of which later ones override
    /// earlier ones: the system's, the vendor's and the user's.
    pub fn from_layers(
        data: Option<AppCompatFile>,
        custom: Option<AppCompatFile>,
        user: Option<AppCompatFile>,
    ) -> (res: Self)
        ensures
            res@ == layered(file_view(data), file_view(custom), file_view(user)),
    {
        let base = match data {
            Some(file) => file,
            None => AppCompatFile::default(),
        };
        let file = stack(stack(base, custom), user);
        Self::from_parts(file.apps, file.initial_mode_scope)
    }

    /// Takes the rules and scopes of three layers into force, each given by the text of its file.
    /// A file that is missing or cannot be read counts for nothing.
    pub fn load_layered(data: Option<&str>, custom: Option<&str>, user: Option<&str>) -> (res: Self)
        ensures
            res@ == layered(text_view(data), text_view(custom), text_view(user)),
    {
        Self::from_layers(read_layer(data), read_layer(custom), read_layer(user))
    }

    /// Whether the initial modes of a process apply to a window of the given class.
    ///
    /// Where the answer is no, the caller keeps the present state. A process without a scope is
    /// not restricted. A restricted one applies its modes only to the classes that its scope
    /// lists; an empty class, which is a class that could not be found out, is never listed.
    pub fn initial_mode_applies_to_window(&self, process_name: &str, window_class: &str) -> (res:
        bool)
        ensures
            res == applies_to_window(self@.scope, process_name@, window_class@),
    {
        proof {
            use_type_invariant(self);
        }
        let key = process_name.to_ascii_lowercase();
        proof {
            assert(leads_to_scope(self.mode_scope@, self@.scope, key@));
            if let Some(scope) = merge::scope_for(self@.scope, process_name@) {
                lemma_class_keys(scope, window_class@);
            }
        }
        match self.mode_scope.get(key.as_str()) {
            None => true,
            Some(classes) => {
                if window_class.is_empty() {
                    false
                } else {
                    let class = window_class.to_ascii_lowercase();
                    classes.contains(class.as_str())
                }
            },
        }
    }

    /// The rule that applies to a process, found by its name, case aside.
    pub fn get_rule(&self, process_name: &str) -> (res: Option<&AppCompatRule>)
        ensures
            match res {
                Some(rule) => merge::rule_for(self@.apps, process_name@) == Some(rule@),
                None => merge::rule_for(self@.apps, process_name@) is None,
            },
    {
        proof {
            use_type_invariant(self);
            merge::lemma_last_index(self@.apps, text::lowered(process_name@));
        }
        let key = process_name.to_ascii_lowercase();
        match self.lookup.get(key.as_str()) {
            None => None,
            Some(i) => Some(&self.apps[*i]),
        }
    }

    /// The processes whose host draws the candidate window, named as in their rules.
    pub fn host_render_processes(&self) -> (res: Vec<String>)
        ensures
            text::texts(res@) == self@.apps.filter(|rule: rule::RuleView| rule.host_render)
                .map_values(|rule: rule::RuleView| rule.process),
    {
        let mut res: Vec<String> = Vec::new();
        let ghost views = rule::rule_views(self.apps@);
        let ghost enabled = |rule: rule::RuleView| rule.host_render;
        let ghost name = |rule: rule::RuleView| rule.process;
        let mut i: usize = 0;
        while i < self.apps.len()
            invariant
                i <= self.apps@.len(),
                views == rule::rule_views(self.apps@),
                enabled == (|rule: rule::RuleView| rule.host_render),
                name == (|rule: rule::RuleView| rule.process),
                text::texts(res@) == views.take(i as int).filter(enabled).map_values(name),
            decreases self.apps@.len() - i,
        {
            proof {
                assert(views.take(i + 1).drop_last() =~= views.take(i as int));
                assert(views.take(i + 1).last() == self.apps@[i as int]@);
                reveal(Seq::filter);
            }
            let ghost before = res@;
            if self.apps[i].host_render {
                res.push(self.apps[i].process.clone());
                assert(text::texts(res@) =~= text::texts(before).push(views[i as int].process));
                assert(views.take(i + 1).filter(enabled).map_values(name) =~= views.take(
                    i as int,
                ).filter(enabled).map_values(name).push(views[i as int].process));
            }
            i += 1;
        }
        assert(views.take(views.len() as int) =~= views);
        res
    }
}

impl Clone for AppCompat {
    fn clone(&self) -> (res: Self)
        ensures
            res@ == self@,
    {
        let apps = self.apps.clone();
        let scope = self.scope.clone();
        assert(rule::rule_views(apps@) =~= rule::rule_views(self.apps@));
        assert(rule::scope_views(scope@) =~= rule::scope_views(self.scope@));
        AppCompat::from_parts(apps, scope)
    }
}

impl Default for AppCompat {
    /// No rule and no scope.
    fn default() -> (res: Self)
        ensures
            res@ == (CompatView { apps: Seq::empty(), scope: Seq::empty() }),
    {
        let apps: Vec<AppCompatRule> = Vec::new();
        assert(rule::rule_views(apps@) =~= Seq::<rule::RuleView>::empty());
        AppCompat::from_rules(apps)
    }
}

/// Indexes rules by process name; of several with one name the last counts.
fn build_lookup(apps: &Vec<AppCompatRule>) -> (lookup: StringHashMap<usize>)
    ensures
        indexes_rules(lookup@, rule::rule_views(apps@)),
{
    let mut lookup: StringHashMap<usize> = StringHashMap::new();
    let ghost views = rule::rule_views(apps@);
    let mut i: usize = 0;
    while i < apps.len()
        invariant
            i <= apps@.len(),
            views == rule::rule_views(apps@),
            indexes_rules(lookup@, views.take(i as int)),
        decreases apps@.len() - i,
    {
        let key = apps[i].process.as_str().to_ascii_lowercase();
        lookup.insert(key, i);
        assert(views.take(i + 1).drop_last() =~= views.take(i as int));
        i += 1;
    }
    assert(views.take(views.len() as int) =~= views);
    lookup
}

/// The classes of a scope, as they are looked up.
fn build_classes(scope: &InitialModeScopeRule) -> (classes: StringHashSet)
    ensures
        classes@ == class_keys(scope@),
{
    let mut classes = StringHashSet::new();
    let ghost keys = scope@.classes.map_values(|class: Seq<char>| text::lowered(class));
    let mut i: usize = 0;
    while i < scope.classes.len()
        invariant
            i <= scope.classes@.len(),
            keys == scope@.classes.map_values(|class: Seq<char>| text::lowered(class)),
            forall|class: Seq<char>| #[trigger]
                classes@.contains(class) <==> exists|j: int| 0 <= j < i && keys[j] == class,
        decreases scope.classes@.len() - i,
    {
        let ghost before = classes@;
        classes.insert(scope.classes[i].as_str().to_ascii_lowercase());
        assert(classes@ =~= before.insert(keys[i as int]));
        i += 1;
    }
    assert(classes@ =~= keys.to_set());
    classes
}

/// Indexes scopes by process name; of several with one name the last counts, and one without a
/// name counts for nothing.
fn build_mode_scope(scopes: &Vec<InitialModeScopeRule>) -> (mode_scope: StringHashMap<StringHashSet>)
    ensures
        indexes_scopes(mode_scope@, rule::scope_views(scopes@)),
{
    let mut mode_scope: StringHashMap<StringHashSet> = StringHashMap::new();
    let ghost views = rule::scope_views(scopes@);
    let mut i: usize = 0;
    while i < scopes.len()
        invariant
            i <= scopes@.len(),
            views == rule::scope_views(scopes@),
            indexes_scopes(mode_scope@, views.take(i as int)),
        decreases scopes@.len() - i,
    {
        let ghost before = mode_scope@;
        if !scopes[i].process.as_str().is_empty() {
            let key = scopes[i].process.as_str().to_ascii_lowercase();
            mode_scope.insert(key, build_classes(&scopes[i]));
        }
        proof {
            let (shorter, longer) = (views.take(i as int), views.take(i + 1));
            assert(longer.drop_last() =~= shorter);
            assert(longer.last() == scopes@[i as int]@);
            assert(longer.last().key().len() == scopes@[i as int].process@.len());
            assert forall|key: Seq<char>| #[trigger]
                leads_to_scope(mode_scope@, longer, key) by {
                assert(leads_to_scope(before, shorter, key));
                merge::lemma_last_scope_index(shorter, key);
            }
        }
        i += 1;
    }
    assert(views.take(views.len() as int) =~= views);
    mode_scope
}

} // verus!
