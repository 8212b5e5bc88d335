//! How rules and scopes stand in a TOML document.
//!
//! Reading is lenient where a slip must not cost more than the slip: a field that is missing has
//! its neutral value, a field that nobody knows is passed over, and a mode that cannot be made
//! out counts as not set. A value of the wrong type is an error of the whole document. Writing is
//! sparse: a field with its neutral value is left out.
use vstd::prelude::*;

use crate::config;
use crate::config::SmartMethod;
use crate::mode;
use crate::mode::{FirstShowMode, InitialMode};
use crate::rule;
use crate::rule::{AppCompatRule, InitialModeScopeRule};
use crate::text;
use crate::toml_tree;
use crate::toml_tree::{count_entries, entry_count, get_entry, get_item, insert_new, item_count};
use crate::toml_tree::{make_value, new_table, Node, Piece, Shape};

verus! {

/// Whether `record` can stand for a record: a table names its fields, an array lists them in
/// order, and a date has none.
pub open spec fn holds_fields(record: Node) -> bool {
    record is Table || record is Array || record is Datetime
}

/// The field of a record with the given place and name.
pub open spec fn field(record: Node, place: int, name: Seq<char>) -> Option<Node> {
    match record {
        Node::Table(entries) => toml_tree::lookup(entries, name),
        Node::Array(items) => if place < items.len() {
            Some(items[place])
        } else {
            None
        },
        _ => None,
    }
}

/// The text that a field stands for; `None` if it is of another type.
pub open spec fn text_value(value: Option<Node>) -> Option<Seq<char>> {
    match value {
        None => Some(Seq::empty()),
        Some(Node::Text(text)) => Some(text),
        _ => None,
    }
}

/// The switch that a field stands for; `None` if it is of another type.
pub open spec fn flag_value(value: Option<Node>) -> Option<bool> {
    match value {
        None => Some(false),
        Some(Node::Boolean(flag)) => Some(flag),
        _ => None,
    }
}

/// The optional switch that a field stands for; `None` if it is of another type.
pub open spec fn choice_value(value: Option<Node>) -> Option<Option<bool>> {
    match value {
        None => Some(None),
        Some(Node::Boolean(flag)) => Some(Some(flag)),
        _ => None,
    }
}

/// The first-show mode that a field stands for; `None` if it is of another type. A text that
/// names no mode sets none.
pub open spec fn first_show_value(value: Option<Node>) -> Option<Option<FirstShowMode>> {
    match value {
        None => Some(None),
        Some(Node::Text(text)) => Some(FirstShowMode::named(text)),
        _ => None,
    }
}

/// The initial mode that a field stands for; `None` if it is of another type. A text that names
/// no mode sets none.
pub open spec fn initial_value(value: Option<Node>) -> Option<Option<InitialMode>> {
    match value {
        None => Some(None),
        Some(Node::Text(text)) => Some(InitialMode::named(text)),
        _ => None,
    }
}

/// The replacement method that a field stands for: it is named by a text or by the only key of a
/// table that holds an empty table. `None` if the field is anything else.
pub open spec fn method_value(value: Option<Node>) -> Option<Option<SmartMethod>> {
    match value {
        None => Some(None),
        Some(Node::Text(text)) => match SmartMethod::named(text) {
            Some(method) => Some(Some(method)),
            None => None,
        },
        Some(Node::Table(entries)) => if entries.len() == 1 && entries[0].1 == Node::Table(
            Seq::empty(),
        ) {
            match SmartMethod::named(entries[0].0) {
                Some(method) => Some(Some(method)),
                None => None,
            }
        } else {
            None
        },
        _ => None,
    }
}

/// The offset that a field stands for; `None` if it is of another type or out of range.
pub open spec fn offset_value(value: Option<Node>) -> Option<i32> {
    match value {
        None => Some(0),
        Some(Node::Integer(number)) => if i32::MIN <= number <= i32::MAX {
            Some(number as i32)
        } else {
            None
        },
        _ => None,
    }
}

/// The texts that a field lists; `None` if it is of another type or lists anything else.
pub open spec fn texts_value(value: Option<Node>) -> Option<Seq<Seq<char>>> {
    match value {
        None => Some(Seq::empty()),
        Some(Node::Array(items)) => if toml_tree::is_text_list(Node::Array(items)) {
            Some(items.map_values(|item: Node| item->Text_0))
        } else {
            None
        },
        _ => None,
    }
}

/// The rule that a record stands for.
pub open spec fn decoded_rule(record: Node) -> Option<rule::RuleView> {
    let process = text_value(field(record, 0, "process"@));
    let comment = text_value(field(record, 1, "comment"@));
    let caret_use_top = flag_value(field(record, 2, "caret_use_top"@));
    let stale_probe_guard = flag_value(field(record, 3, "stale_probe_guard"@));
    let pair_guard = choice_value(field(record, 4, "composition_start_pair_guard"@));
    let first_show_mode = first_show_value(field(record, 5, "first_show_mode"@));
    let initial_mode = initial_value(field(record, 6, "initial_mode"@));
    let initial_punct = initial_value(field(record, 7, "initial_punct"@));
    let host_render = flag_value(field(record, 8, "host_render"@));
    let auto_pair = choice_value(field(record, 9, "auto_pair"@));
    let smart_method = method_value(field(record, 10, "smart_method"@));
    let caret_offset_x = offset_value(field(record, 11, "caret_offset_x"@));
    let caret_offset_y = offset_value(field(record, 12, "caret_offset_y"@));
    if holds_fields(record) && process is Some && comment is Some && caret_use_top is Some
        && stale_probe_guard is Some && pair_guard is Some && first_show_mode is Some
        && initial_mode is Some && initial_punct is Some && host_render is Some
        && auto_pair is Some && smart_method is Some && caret_offset_x is Some
        && caret_offset_y is Some {
        Some(
            rule::RuleView {
                process: process->0,
                comment: comment->0,
                caret_use_top: caret_use_top->0,
                stale_probe_guard: stale_probe_guard->0,
                composition_start_pair_guard: pair_guard->0,
                first_show_mode: first_show_mode->0,
                initial_mode: initial_mode->0,
                initial_punct: initial_punct->0,
                host_render: host_render->0,
                auto_pair: auto_pair->0,
                smart_method: smart_method->0,
                caret_offset_x: caret_offset_x->0,
                caret_offset_y: caret_offset_y->0,
            },
        )
    } else {
        None
    }
}

/// The scope that a record stands for. It has to name its process.
pub open spec fn decoded_scope(record: Node) -> Option<rule::ScopeView> {
    let process = field(record, 0, "process"@);
    let comment = text_value(field(record, 1, "comment"@));
    let classes = texts_value(field(record, 2, "classes"@));
    if holds_fields(record) && process is Some && process->0 is Text && comment is Some
        && classes is Some {
        Some(
            rule::ScopeView {
                process: process->0->Text_0,
                comment: comment->0,
                classes: classes->0,
            },
        )
    } else {
        None
    }
}

/// Finds a field of a record.
fn get_field<'a>(record: Shape<'a>, place: usize, name: &str) -> (res: Option<Shape<'a>>)
    ensures
        toml_tree::node_of(res) == field(toml_tree::shape_node(record), place as int, name@),
{
    match record {
        Shape::Table(_) | Shape::Inline(_) => get_entry(record, name),
        _ => get_item(record, place),
    }
}

/// Reads a text.
fn read_text(value: Option<Shape>) -> (res: Option<String>)
    ensures
        match res {
            Some(text) => text_value(toml_tree::node_of(value)) == Some(text@),
            None => text_value(toml_tree::node_of(value)) is None,
        },
{
    match value {
        None => {
            let text = String::new();
            assert(text@ =~= Seq::empty());
            Some(text)
        },
        Some(value) => match value {
            Shape::Text(text) => Some(text.to_owned()),
            _ => None,
        },
    }
}

/// Reads a switch.
fn read_flag(value: Option<Shape>) -> (res: Option<bool>)
    ensures
        res == flag_value(toml_tree::node_of(value)),
{
    match value {
        None => Some(false),
        Some(value) => match value {
            Shape::Boolean(flag) => Some(flag),
            _ => None,
        },
    }
}

/// Reads an optional switch.
fn read_choice(value: Option<Shape>) -> (res: Option<Option<bool>>)
    ensures
        res == choice_value(toml_tree::node_of(value)),
{
    match value {
        None => Some(None),
        Some(value) => match value {
            Shape::Boolean(flag) => Some(Some(flag)),
            _ => None,
        },
    }
}

/// Reads a first-show mode.
fn read_first_show_mode(value: Option<Shape>) -> (res: Option<Option<FirstShowMode>>)
    ensures
        res == first_show_value(toml_tree::node_of(value)),
{
    match value {
        None => Some(None),
        Some(value) => match value {
            Shape::Text(text) => Some(FirstShowMode::from_config(text)),
            _ => None,
        },
    }
}

/// Reads an initial mode.
fn read_initial_mode(value: Option<Shape>) -> (res: Option<Option<InitialMode>>)
    ensures
        res == initial_value(toml_tree::node_of(value)),
{
    match value {
        None => Some(None),
        Some(value) => match value {
            Shape::Text(text) => Some(InitialMode::from_config(text)),
            _ => None,
        },
    }
}

/// Whether the only entry of a table has the given name and holds an empty table.
fn is_only_empty_entry(table: Shape, name: &str) -> (res: bool)
    ensures
        res == (toml_tree::shape_node(table) == Node::Table(
            seq![(name@, Node::Table(Seq::empty()))],
        )),
{
    let ghost node = toml_tree::shape_node(table);
    match entry_count(table) {
        Some(1) => {},
        _ => return false,
    }
    let ghost entries = node->Table_0;
    assert(entries.drop_last().len() == 0);
    assert(entries.last() == entries[0]);
    assert(toml_tree::lookup(entries.drop_last(), name@) is None);
    match get_entry(table, name) {
        None => false,
        Some(inner) => {
            let empty = match entry_count(inner) {
                Some(0) => true,
                _ => false,
            };
            proof {
                if empty {
                    assert(toml_tree::shape_node(inner)->Table_0 =~= Seq::empty());
                    assert(entries =~= seq![(name@, Node::Table(Seq::empty()))]);
                }
            }
            empty
        },
    }
}

/// Reads a replacement method.
fn read_smart_method(value: Option<Shape>) -> (res: Option<Option<SmartMethod>>)
    ensures
        res == method_value(toml_tree::node_of(value)),
{
    match value {
        None => Some(None),
        Some(Shape::Text(text)) => match SmartMethod::from_config(text) {
            Some(method) => Some(Some(method)),
            None => None,
        },
        Some(table) => {
            proof {
                let node = toml_tree::shape_node(table);
                if node is Table && node->Table_0.len() == 1 {
                    assert(node->Table_0 =~= seq![node->Table_0[0]]);
                }
                assert("delete_replace"@ != "hold_composition"@) by {
                    reveal_strlit("delete_replace");
                    reveal_strlit("hold_composition");
                    assert("delete_replace"@.len() != "hold_composition"@.len());
                }
            }
            if is_only_empty_entry(table, "delete_replace") {
                Some(Some(SmartMethod::DeleteReplace))
            } else if is_only_empty_entry(table, "hold_composition") {
                Some(Some(SmartMethod::HoldComposition))
            } else {
                None
            }
        },
    }
}

/// Reads an offset.
fn read_offset(value: Option<Shape>) -> (res: Option<i32>)
    ensures
        res == offset_value(toml_tree::node_of(value)),
{
    match value {
        None => Some(0),
        Some(value) => match value {
            Shape::Integer(number) => if number >= i32::MIN as i64 && number <= i32::MAX as i64 {
                Some(number as i32)
            } else {
                None
            },
            _ => None,
        },
    }
}

/// Reads a list of texts.
fn read_texts(value: Option<Shape>) -> (res: Option<Vec<String>>)
    ensures
        match res {
            Some(list) => texts_value(toml_tree::node_of(value)) == Some(text::texts(list@)),
            None => texts_value(toml_tree::node_of(value)) is None,
        },
{
    let mut list: Vec<String> = Vec::new();
    match value {
        None => {
            assert(text::texts(list@) =~= Seq::empty());
            Some(list)
        },
        Some(array) => {
            let n = item_count(array)?;
            let ghost items = toml_tree::shape_node(array)->Array_0;
            let mut i: usize = 0;
            while i < n
                invariant
                    i <= n,
                    n == items.len(),
                    i == list@.len(),
                    toml_tree::shape_node(array) == Node::Array(items),
                    toml_tree::node_of(value) == Some(Node::Array(items)),
                    forall|j: int| 0 <= j < i ==> #[trigger] items[j] == Node::Text(list@[j]@),
                decreases n - i,
            {
                match get_item(array, i) {
                    Some(Shape::Text(text)) => {
                        assert(items[i as int] == Node::Text(text@));
                        list.push(text.to_owned());
                    },
                    _ => {
                        assert(!(items[i as int] is Text));
                        assert(!toml_tree::is_text_list(Node::Array(items)));
                        return None;
                    },
                }
                i += 1;
            }
            assert(text::texts(list@) =~= items.map_values(|item: Node| item->Text_0));
            Some(list)
        },
    }
}

/// Reads a rule from a record.
pub(crate) fn read_rule(record: Shape) -> (res: Option<AppCompatRule>)
    ensures
        match res {
            Some(rule) => decoded_rule(toml_tree::shape_node(record)) == Some(rule@),
            None => decoded_rule(toml_tree::shape_node(record)) is None,
        },
{
    match record {
        Shape::Array(_) | Shape::Sections(_) | Shape::Inline(_) | Shape::Table(_)
        | Shape::Datetime => {},
        _ => return None,
    }
    let process = read_text(get_field(record, 0, "process"))?;
    let comment = read_text(get_field(record, 1, "comment"))?;
    let caret_use_top = read_flag(get_field(record, 2, "caret_use_top"))?;
    let stale_probe_guard = read_flag(get_field(record, 3, "stale_probe_guard"))?;
    let composition_start_pair_guard = read_choice(
        get_field(record, 4, "composition_start_pair_guard"),
    )?;
    let first_show_mode = read_first_show_mode(get_field(record, 5, "first_show_mode"))?;
    let initial_mode = read_initial_mode(get_field(record, 6, "initial_mode"))?;
    let initial_punct = read_initial_mode(get_field(record, 7, "initial_punct"))?;
    let host_render = read_flag(get_field(record, 8, "host_render"))?;
    let auto_pair = read_choice(get_field(record, 9, "auto_pair"))?;
    let smart_method = read_smart_method(get_field(record, 10, "smart_method"))?;
    let caret_offset_x: i32 = read_offset(get_field(record, 11, "caret_offset_x"))?;
    let caret_offset_y: i32 = read_offset(get_field(record, 12, "caret_offset_y"))?;
    Some(
        AppCompatRule {
            process,
            comment,
            caret_use_top,
            stale_probe_guard,
            composition_start_pair_guard,
            first_show_mode,
            initial_mode,
            initial_punct,
            host_render,
            auto_pair,
            smart_method,
            caret_offset_x,
            caret_offset_y,
        },
    )
}

/// Reads a scope from a record.
pub(crate) fn read_scope(record: Shape) -> (res: Option<InitialModeScopeRule>)
    ensures
        match res {
            Some(scope) => decoded_scope(toml_tree::shape_node(record)) == Some(scope@),
            None => decoded_scope(toml_tree::shape_node(record)) is None,
        },
{
    match record {
        Shape::Array(_) | Shape::Sections(_) | Shape::Inline(_) | Shape::Table(_)
        | Shape::Datetime => {},
        _ => return None,
    }
    let named = get_field(record, 0, "process");
    if named.is_none() {
        return None;
    }
    let process = read_text(named)?;
    let comment = read_text(get_field(record, 1, "comment"))?;
    let classes = read_texts(get_field(record, 2, "classes"))?;
    Some(InitialModeScopeRule { process, comment, classes })
}

/// The entries of a record: its fields in order, without those that are left out.
pub open spec fn present(fields: Seq<(Seq<char>, Option<Node>)>) -> Seq<(Seq<char>, Node)>
    decreases fields.len(),
{
    if fields.len() == 0 {
        Seq::empty()
    } else {
        let (name, value) = fields.last();
        match value {
            Some(node) => present(fields.drop_last()).push((name, node)),
            None => present(fields.drop_last()),
        }
    }
}

/// How a text stands in a record: not at all if it is empty.
pub open spec fn text_field(text: Seq<char>) -> Option<Node> {
    if text.len() == 0 {
        None
    } else {
        Some(Node::Text(text))
    }
}

/// How a switch stands in a record: not at all if it is off.
pub open spec fn flag_field(flag: bool) -> Option<Node> {
    if flag {
        Some(Node::Boolean(true))
    } else {
        None
    }
}

/// How an optional switch stands in a record: not at all if it is not set.
pub open spec fn choice_field(choice: Option<bool>) -> Option<Node> {
    match choice {
        Some(flag) => Some(Node::Boolean(flag)),
        None => None,
    }
}

/// How a first-show mode stands in a record: by its name, or not at all if it is not set.
pub open spec fn first_show_field(mode: Option<FirstShowMode>) -> Option<Node> {
    match mode {
        Some(mode) => Some(Node::Text(mode.name())),
        None => None,
    }
}

/// How an initial mode stands in a record: by its name, or not at all if it is not set.
pub open spec fn initial_field(mode: Option<InitialMode>) -> Option<Node> {
    match mode {
        Some(mode) => Some(Node::Text(mode.name())),
        None => None,
    }
}

/// How a replacement method stands in a record: by its name, or not at all if it is not set.
pub open spec fn method_field(method: Option<SmartMethod>) -> Option<Node> {
    match method {
        Some(method) => Some(Node::Text(method.name())),
        None => None,
    }
}

/// How an offset stands in a record: not at all if it is zero.
pub open spec fn offset_field(offset: i32) -> Option<Node> {
    if offset == 0 {
        None
    } else {
        Some(Node::Integer(offset as i64))
    }
}

/// The fields of a rule. Its process is always written.
pub open spec fn rule_fields(rule: rule::RuleView) -> Seq<(Seq<char>, Option<Node>)> {
    seq![
        ("process"@, Some(Node::Text(rule.process))),
        ("comment"@, text_field(rule.comment)),
        ("caret_use_top"@, flag_field(rule.caret_use_top)),
        ("stale_probe_guard"@, flag_field(rule.stale_probe_guard)),
        ("composition_start_pair_guard"@, choice_field(rule.composition_start_pair_guard)),
        ("first_show_mode"@, first_show_field(rule.first_show_mode)),
        ("initial_mode"@, initial_field(rule.initial_mode)),
        ("initial_punct"@, initial_field(rule.initial_punct)),
        ("host_render"@, flag_field(rule.host_render)),
        ("auto_pair"@, choice_field(rule.auto_pair)),
        ("smart_method"@, method_field(rule.smart_method)),
        ("caret_offset_x"@, offset_field(rule.caret_offset_x)),
        ("caret_offset_y"@, offset_field(rule.caret_offset_y)),
    ]
}

/// The fields of a scope. Its process and its classes are always written.
pub open spec fn scope_fields(scope: rule::ScopeView) -> Seq<(Seq<char>, Option<Node>)> {
    seq![
        ("process"@, Some(Node::Text(scope.process))),
        ("comment"@, text_field(scope.comment)),
        (
            "classes"@,
            Some(Node::Array(scope.classes.map_values(|class: Seq<char>| Node::Text(class)))),
        ),
    ]
}

/// The record that stands for a rule.
pub open spec fn encoded_rule(rule: rule::RuleView) -> Node {
    Node::Table(present(rule_fields(rule)))
}

/// The record that stands for a scope.
pub open spec fn encoded_scope(scope: rule::ScopeView) -> Node {
    Node::Table(present(scope_fields(scope)))
}

/// No two fields have the same name.
pub open spec fn distinct_names(fields: Seq<(Seq<char>, Option<Node>)>) -> bool {
    forall|i: int, j: int|
        #![trigger fields[i], fields[j]]
        0 <= i < j < fields.len() ==> fields[i].0 != fields[j].0
}

/// A name that no field has is not found among the entries.
proof fn lemma_absent(fields: Seq<(Seq<char>, Option<Node>)>, name: Seq<char>)
    requires
        forall|i: int| 0 <= i < fields.len() ==> (#[trigger] fields[i]).0 != name,
    ensures
        toml_tree::lookup(present(fields), name) is None,
    decreases fields.len(),
{
    if fields.len() > 0 {
        let front = fields.drop_last();
        assert forall|i: int| 0 <= i < front.len() implies (#[trigger] front[i]).0 != name by {
            assert(fields[i] == front[i]);
        }
        lemma_absent(front, name);
        assert(fields.last() == fields[fields.len() - 1]);
        if let Some(node) = fields.last().1 {
            assert(present(fields).drop_last() =~= present(front));
        }
    }
}

/// A field is found among the entries under its name, and not found where it is left out.
pub proof fn lemma_found(fields: Seq<(Seq<char>, Option<Node>)>, i: int)
    requires
        distinct_names(fields),
        0 <= i < fields.len(),
    ensures
        toml_tree::lookup(present(fields), fields[i].0) == fields[i].1,
    decreases fields.len(),
{
    let front = fields.drop_last();
    let name = fields[i].0;
    assert(fields.last() == fields[fields.len() - 1]);
    assert forall|j: int, k: int|
        #![trigger front[j], front[k]]
        0 <= j < k < front.len() implies front[j].0 != front[k].0 by {
        assert(fields[j] == front[j] && fields[k] == front[k]);
    }
    if i < front.len() {
        assert(front[i] == fields[i]);
        lemma_found(front, i);
        if let Some(node) = fields.last().1 {
            assert(present(fields).drop_last() =~= present(front));
        }
    } else {
        assert forall|j: int| 0 <= j < front.len() implies (#[trigger] front[j]).0 != name by {
            assert(fields[j] == front[j]);
        }
        lemma_absent(front, name);
    }
}

/// A number that tells the names of fields apart.
spec fn name_code(name: Seq<char>) -> int {
    1000 * name.len() + name[0] as int + name.last() as int
}

/// The names of the fields of a rule differ from each other.
proof fn lemma_rule_names(rule: rule::RuleView)
    ensures
        distinct_names(rule_fields(rule)),
{
    let fields = rule_fields(rule);
    reveal_strlit("process");
    assert(name_code(fields[0].0) == 7227);
    reveal_strlit("comment");
    assert(name_code(fields[1].0) == 7215);
    reveal_strlit("caret_use_top");
    assert(name_code(fields[2].0) == 13211);
    reveal_strlit("stale_probe_guard");
    assert(name_code(fields[3].0) == 17215);
    reveal_strlit("composition_start_pair_guard");
    assert(name_code(fields[4].0) == 28199);
    reveal_strlit("first_show_mode");
    assert(name_code(fields[5].0) == 15203);
    reveal_strlit("initial_mode");
    assert(name_code(fields[6].0) == 12206);
    reveal_strlit("initial_punct");
    assert(name_code(fields[7].0) == 13221);
    reveal_strlit("host_render");
    assert(name_code(fields[8].0) == 11218);
    reveal_strlit("auto_pair");
    assert(name_code(fields[9].0) == 9211);
    reveal_strlit("smart_method");
    assert(name_code(fields[10].0) == 12215);
    reveal_strlit("caret_offset_x");
    assert(name_code(fields[11].0) == 14219);
    reveal_strlit("caret_offset_y");
    assert(name_code(fields[12].0) == 14220);
    assert forall|i: int, j: int|
        #![trigger fields[i], fields[j]]
        0 <= i < j < fields.len() implies fields[i].0 != fields[j].0 by {
        assert(name_code(fields[i].0) != name_code(fields[j].0));
    }
}

/// The names of the fields of a scope differ from each other.
proof fn lemma_scope_names(scope: rule::ScopeView)
    ensures
        distinct_names(scope_fields(scope)),
{
    let fields = scope_fields(scope);
    reveal_strlit("process");
    assert(name_code(fields[0].0) == 7227);
    reveal_strlit("comment");
    assert(name_code(fields[1].0) == 7215);
    reveal_strlit("classes");
    assert(name_code(fields[2].0) == 7214);
    assert forall|i: int, j: int|
        #![trigger fields[i], fields[j]]
        0 <= i < j < fields.len() implies fields[i].0 != fields[j].0 by {
        assert(name_code(fields[i].0) != name_code(fields[j].0));
    }
}

/// A field of a rule is found in its record.
proof fn lemma_rule_field(rule: rule::RuleView, i: int)
    requires
        0 <= i < rule_fields(rule).len(),
    ensures
        field(encoded_rule(rule), i, rule_fields(rule)[i].0) == rule_fields(rule)[i].1,
{
    lemma_rule_names(rule);
    lemma_found(rule_fields(rule), i);
}

/// A rule is written sparsely: a field stands in its record exactly where it is not neutral, and
/// the process always does.
pub proof fn law_written_rule_is_sparse(rule: rule::RuleView)
    ensures
        field(encoded_rule(rule), 0, "process"@) == Some(Node::Text(rule.process)),
        field(encoded_rule(rule), 1, "comment"@) == text_field(rule.comment),
        field(encoded_rule(rule), 2, "caret_use_top"@) == flag_field(rule.caret_use_top),
        field(encoded_rule(rule), 3, "stale_probe_guard"@) == flag_field(rule.stale_probe_guard),
        field(encoded_rule(rule), 4, "composition_start_pair_guard"@) == choice_field(
            rule.composition_start_pair_guard,
        ),
        field(encoded_rule(rule), 5, "first_show_mode"@) == first_show_field(rule.first_show_mode),
        field(encoded_rule(rule), 6, "initial_mode"@) == initial_field(rule.initial_mode),
        field(encoded_rule(rule), 7, "initial_punct"@) == initial_field(rule.initial_punct),
        field(encoded_rule(rule), 8, "host_render"@) == flag_field(rule.host_render),
        field(encoded_rule(rule), 9, "auto_pair"@) == choice_field(rule.auto_pair),
        field(encoded_rule(rule), 10, "smart_method"@) == method_field(rule.smart_method),
        field(encoded_rule(rule), 11, "caret_offset_x"@) == offset_field(rule.caret_offset_x),
        field(encoded_rule(rule), 12, "caret_offset_y"@) == offset_field(rule.caret_offset_y),
{
    lemma_rule_field(rule, 0);
    lemma_rule_field(rule, 1);
    lemma_rule_field(rule, 2);
    lemma_rule_field(rule, 3);
    lemma_rule_field(rule, 4);
    lemma_rule_field(rule, 5);
    lemma_rule_field(rule, 6);
    lemma_rule_field(rule, 7);
    lemma_rule_field(rule, 8);
    lemma_rule_field(rule, 9);
    lemma_rule_field(rule, 10);
    lemma_rule_field(rule, 11);
    lemma_rule_field(rule, 12);
}

/// A record whose fields stand for those of a rule is read as that rule.
proof fn lemma_fields_decode(record: Node, rule: rule::RuleView)
    requires
        record is Table,
        text_value(field(record, 0, "process"@)) == Some(rule.process),
        text_value(field(record, 1, "comment"@)) == Some(rule.comment),
        flag_value(field(record, 2, "caret_use_top"@)) == Some(rule.caret_use_top),
        flag_value(field(record, 3, "stale_probe_guard"@)) == Some(rule.stale_probe_guard),
        choice_value(field(record, 4, "composition_start_pair_guard"@)) == Some(
            rule.composition_start_pair_guard,
        ),
        first_show_value(field(record, 5, "first_show_mode"@)) == Some(rule.first_show_mode),
        initial_value(field(record, 6, "initial_mode"@)) == Some(rule.initial_mode),
        initial_value(field(record, 7, "initial_punct"@)) == Some(rule.initial_punct),
        flag_value(field(record, 8, "host_render"@)) == Some(rule.host_render),
        choice_value(field(record, 9, "auto_pair"@)) == Some(rule.auto_pair),
        method_value(field(record, 10, "smart_method"@)) == Some(rule.smart_method),
        offset_value(field(record, 11, "caret_offset_x"@)) == Some(rule.caret_offset_x),
        offset_value(field(record, 12, "caret_offset_y"@)) == Some(rule.caret_offset_y),
    ensures
        decoded_rule(record) == Some(rule),
{
}

/// What a field is written as is read as that field.
proof fn lemma_fields_read_back(rule: rule::RuleView)
    ensures
        text_value(text_field(rule.comment)) == Some(rule.comment),
        first_show_value(first_show_field(rule.first_show_mode)) == Some(rule.first_show_mode),
        initial_value(initial_field(rule.initial_mode)) == Some(rule.initial_mode),
        initial_value(initial_field(rule.initial_punct)) == Some(rule.initial_punct),
        method_value(method_field(rule.smart_method)) == Some(rule.smart_method),
{
    if rule.comment.len() == 0 {
        assert(rule.comment =~= Seq::empty());
    }
    if let Some(mode) = rule.first_show_mode {
        mode::law_first_show_mode_round_trip(mode);
    }
    if let Some(mode) = rule.initial_mode {
        mode::law_initial_mode_round_trip(mode);
    }
    if let Some(mode) = rule.initial_punct {
        mode::law_initial_mode_round_trip(mode);
    }
    if let Some(method) = rule.smart_method {
        config::law_smart_method_round_trip(method);
    }
}

/// Reading the record of a rule gives the rule back.
pub proof fn law_rule_round_trip(rule: rule::RuleView)
    ensures
        decoded_rule(encoded_rule(rule)) == Some(rule),
{
    law_written_rule_is_sparse(rule);
    lemma_fields_read_back(rule);
    lemma_fields_decode(encoded_rule(rule), rule);
}

/// Reading the record of a scope gives the scope back.
pub proof fn law_scope_round_trip(scope: rule::ScopeView)
    ensures
        decoded_scope(encoded_scope(scope)) == Some(scope),
{
    let fields = scope_fields(scope);
    lemma_scope_names(scope);
    lemma_found(fields, 0);
    lemma_found(fields, 1);
    lemma_found(fields, 2);
    if scope.comment.len() == 0 {
        assert(scope.comment =~= Seq::empty());
    }
    let items = scope.classes.map_values(|class: Seq<char>| Node::Text(class));
    assert(items.map_values(|item: Node| item->Text_0) =~= scope.classes);
}

/// The entries come from fields that were not left out.
proof fn lemma_entries_from_fields(fields: Seq<(Seq<char>, Option<Node>)>, i: int)
    requires
        0 <= i < present(fields).len(),
    ensures
        exists|j: int|
            0 <= j < fields.len() && (#[trigger] fields[j]).0 == present(fields)[i].0
                && fields[j].1 == Some(present(fields)[i].1),
    decreases fields.len(),
{
    let front = fields.drop_last();
    assert(fields.last() == fields[fields.len() - 1]);
    if i < present(front).len() {
        lemma_entries_from_fields(front, i);
        let j = choose|j: int|
            0 <= j < front.len() && (#[trigger] front[j]).0 == present(front)[i].0 && front[j].1
                == Some(present(front)[i].1);
        assert(fields[j] == front[j]);
    }
}

/// A rule is written as a record of plain fields.
pub(crate) proof fn lemma_rule_is_record(rule: rule::RuleView)
    ensures
        toml_tree::is_record(encoded_rule(rule)),
{
    let fields = rule_fields(rule);
    let entries = present(fields);
    assert forall|i: int| 0 <= i < entries.len() implies {
        let (key, value) = #[trigger] entries[i];
        &&& key.len() > 0
        &&& key[0] != '$'
        &&& value is Text || value is Integer || value is Boolean || toml_tree::is_text_list(value)
    } by {
        lemma_entries_from_fields(fields, i);
        lemma_rule_name_starts(rule);
    }
}

/// The names of the fields of a rule start with letters.
proof fn lemma_rule_name_starts(rule: rule::RuleView)
    ensures
        forall|i: int|
            0 <= i < rule_fields(rule).len() ==> (#[trigger] rule_fields(rule)[i]).0.len() > 0
                && rule_fields(rule)[i].0[0] != '$',
{
    reveal_strlit("process");
    reveal_strlit("comment");
    reveal_strlit("caret_use_top");
    reveal_strlit("stale_probe_guard");
    reveal_strlit("composition_start_pair_guard");
    reveal_strlit("first_show_mode");
    reveal_strlit("initial_mode");
    reveal_strlit("initial_punct");
    reveal_strlit("host_render");
    reveal_strlit("auto_pair");
    reveal_strlit("smart_method");
    reveal_strlit("caret_offset_x");
    reveal_strlit("caret_offset_y");
}

/// A scope is written as a record of plain fields.
pub(crate) proof fn lemma_scope_is_record(scope: rule::ScopeView)
    ensures
        toml_tree::is_record(encoded_scope(scope)),
{
    let fields = scope_fields(scope);
    let entries = present(fields);
    reveal_strlit("process");
    reveal_strlit("comment");
    reveal_strlit("classes");
    assert forall|i: int| 0 <= i < entries.len() implies {
        let (key, value) = #[trigger] entries[i];
        &&& key.len() > 0
        &&& key[0] != '$'
        &&& value is Text || value is Integer || value is Boolean || toml_tree::is_text_list(value)
    } by {
        lemma_entries_from_fields(fields, i);
    }
}

/// What a value made from an optional piece holds.
pub open spec fn made_node(piece: Option<Piece>) -> Option<Node> {
    match piece {
        Some(piece) => Some(toml_tree::piece_node(piece)),
        None => None,
    }
}

/// A text as it is written; an empty one is left out.
fn text_piece(text: &String) -> (res: Option<Piece>)
    ensures
        made_node(res) == text_field(text@),
{
    if text.as_str().is_empty() {
        None
    } else {
        Some(Piece::Text(text.clone()))
    }
}

/// A switch as it is written; one that is off is left out.
fn flag_piece(flag: bool) -> (res: Option<Piece>)
    ensures
        made_node(res) == flag_field(flag),
{
    if flag {
        Some(Piece::Boolean(true))
    } else {
        None
    }
}

/// An optional switch as it is written; one that is not set is left out.
fn choice_piece(choice: Option<bool>) -> (res: Option<Piece>)
    ensures
        made_node(res) == choice_field(choice),
{
    match choice {
        Some(flag) => Some(Piece::Boolean(flag)),
        None => None,
    }
}

/// A first-show mode as it is written; one that is not set is left out.
fn first_show_piece(mode: Option<FirstShowMode>) -> (res: Option<Piece>)
    ensures
        made_node(res) == first_show_field(mode),
{
    match mode {
        Some(mode) => Some(Piece::Text(mode.as_config().to_owned())),
        None => None,
    }
}

/// An initial mode as it is written; one that is not set is left out.
fn initial_piece(mode: Option<InitialMode>) -> (res: Option<Piece>)
    ensures
        made_node(res) == initial_field(mode),
{
    match mode {
        Some(mode) => Some(Piece::Text(mode.as_config().to_owned())),
        None => None,
    }
}

/// A replacement method as it is written; one that is not set is left out.
fn method_piece(method: Option<SmartMethod>) -> (res: Option<Piece>)
    ensures
        made_node(res) == method_field(method),
{
    match method {
        Some(method) => Some(Piece::Text(method.as_config().to_owned())),
        None => None,
    }
}

/// An offset as it is written; zero is left out.
fn offset_piece(offset: i32) -> (res: Option<Piece>)
    ensures
        made_node(res) == offset_field(offset),
{
    if offset == 0 {
        None
    } else {
        Some(Piece::Integer(offset as i64))
    }
}

/// Writes the next field of a record. The table holds the first `n` of `fields`, and gets the one
/// after them.
pub(crate) fn put(
    table: &mut toml::Table,
    name: &str,
    piece: Option<Piece>,
    Ghost(fields): Ghost<Seq<(Seq<char>, Option<Node>)>>,
    Ghost(n): Ghost<int>,
)
    requires
        0 <= n < fields.len(),
        distinct_names(fields),
        fields[n] == (name@, made_node(piece)),
        toml_tree::table_entries(*old(table)) == present(fields.take(n)),
    ensures
        toml_tree::table_entries(*final(table)) == present(fields.take(n + 1)),
{
    proof {
        let shorter = fields.take(n);
        assert(fields.take(n + 1).drop_last() =~= shorter);
        assert(fields.take(n + 1).last() == fields[n]);
        assert forall|i: int| 0 <= i < shorter.len() implies (#[trigger] shorter[i]).0 != name@ by {
            assert(shorter[i] == fields[i]);
        }
        lemma_absent(shorter, name@);
    }
    match piece {
        Some(piece) => insert_new(table, name.to_owned(), make_value(piece)),
        None => {},
    }
}

/// Writes a rule as a record.
pub(crate) fn write_rule(rule: &AppCompatRule) -> (res: toml::Table)
    ensures
        Node::Table(toml_tree::table_entries(res)) == encoded_rule(rule@),
{
    let ghost fields = rule_fields(rule@);
    let mut table = new_table();
    proof {
        lemma_rule_names(rule@);
        assert(fields.take(0) =~= Seq::empty());
        assert(fields.take(13) =~= fields);
    }
    put(&mut table, "process", Some(Piece::Text(rule.process.clone())), Ghost(fields), Ghost(0));
    put(&mut table, "comment", text_piece(&rule.comment), Ghost(fields), Ghost(1));
    put(&mut table, "caret_use_top", flag_piece(rule.caret_use_top), Ghost(fields), Ghost(2));
    put(&mut table, "stale_probe_guard", flag_piece(rule.stale_probe_guard), Ghost(fields), Ghost(3));
    let pair_guard = choice_piece(rule.composition_start_pair_guard);
    put(&mut table, "composition_start_pair_guard", pair_guard, Ghost(fields), Ghost(4));
    put(&mut table, "first_show_mode", first_show_piece(rule.first_show_mode), Ghost(fields), Ghost(5));
    put(&mut table, "initial_mode", initial_piece(rule.initial_mode), Ghost(fields), Ghost(6));
    put(&mut table, "initial_punct", initial_piece(rule.initial_punct), Ghost(fields), Ghost(7));
    put(&mut table, "host_render", flag_piece(rule.host_render), Ghost(fields), Ghost(8));
    put(&mut table, "auto_pair", choice_piece(rule.auto_pair), Ghost(fields), Ghost(9));
    put(&mut table, "smart_method", method_piece(rule.smart_method), Ghost(fields), Ghost(10));
    put(&mut table, "caret_offset_x", offset_piece(rule.caret_offset_x), Ghost(fields), Ghost(11));
    put(&mut table, "caret_offset_y", offset_piece(rule.caret_offset_y), Ghost(fields), Ghost(12));
    table
}

/// Writes a scope as a record.
pub(crate) fn write_scope(scope: &InitialModeScopeRule) -> (res: toml::Table)
    ensures
        Node::Table(toml_tree::table_entries(res)) == encoded_scope(scope@),
{
    let ghost fields = scope_fields(scope@);
    let mut values: Vec<toml::Value> = Vec::new();
    let mut i: usize = 0;
    while i < scope.classes.len()
        invariant
            i <= scope.classes@.len(),
            i == values@.len(),
            forall|j: int|
                0 <= j < i ==> toml_tree::value_node(#[trigger] values@[j]) == Node::Text(
                    scope@.classes[j],
                ),
        decreases scope.classes@.len() - i,
    {
        values.push(make_value(Piece::Text(scope.classes[i].clone())));
        i += 1;
    }
    proof {
        assert(toml_tree::value_nodes(values@) =~= scope@.classes.map_values(
            |class: Seq<char>| Node::Text(class),
        ));
        lemma_scope_names(scope@);
        assert(fields.take(0) =~= Seq::empty());
        assert(fields.take(3) =~= fields);
    }
    let mut table = new_table();
    let process = Some(Piece::Text(scope.process.clone()));
    put(&mut table, "process", process, Ghost(fields), Ghost(0));
    put(&mut table, "comment", text_piece(&scope.comment), Ghost(fields), Ghost(1));
    put(&mut table, "classes", Some(Piece::Array(values)), Ghost(fields), Ghost(2));
    table
}

/// A field adds an entry unless it is left out.
proof fn lemma_next_field(fields: Seq<(Seq<char>, Option<Node>)>, n: int)
    requires
        0 <= n < fields.len(),
    ensures
        present(fields.take(n + 1)).len() == present(fields.take(n)).len() + if fields[n].1
            is Some {
            1int
        } else {
            0
        },
{
    assert(fields.take(n + 1).drop_last() =~= fields.take(n));
    assert(fields.take(n + 1).last() == fields[n]);
}

/// A rule is written with nothing beside its process exactly where it sets nothing.
pub proof fn law_bare_rule_has_one_entry(rule: rule::RuleView)
    ensures
        present(rule_fields(rule)).len() >= 1,
        present(rule_fields(rule)).len() == 1 <==> rule.is_bare(),
{
    let fields = rule_fields(rule);
    assert(fields.take(0) =~= Seq::empty());
    assert(fields.take(13) =~= fields);
    lemma_next_field(fields, 0);
    lemma_next_field(fields, 1);
    lemma_next_field(fields, 2);
    lemma_next_field(fields, 3);
    lemma_next_field(fields, 4);
    lemma_next_field(fields, 5);
    lemma_next_field(fields, 6);
    lemma_next_field(fields, 7);
    lemma_next_field(fields, 8);
    lemma_next_field(fields, 9);
    lemma_next_field(fields, 10);
    lemma_next_field(fields, 11);
    lemma_next_field(fields, 12);
    if rule.comment.len() == 0 {
        assert(rule.comment =~= Seq::empty());
    }
}

/// Whether a rule sets nothing: its record then holds no entry beside the process.
///
/// The record decides, not a comparison field by field, so that a field added to the rule is
/// taken into account wherever it is written.
pub fn is_empty_override(rule: &AppCompatRule) -> (res: bool)
    ensures
        res == rule@.is_bare(),
{
    let record = write_rule(rule);
    proof {
        law_bare_rule_has_one_entry(rule@);
    }
    count_entries(&record) <= 1
}

} // verus!
