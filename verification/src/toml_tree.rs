//! TOML documents as trees of plain values, and the calls into the crates that write and read them.
//!
//! Documents are written by `toml` and read by `toml_edit`, whose parser `toml` itself reads with.
//! `toml` hands a document out only as a `toml::Value`, and that takes a table for a date where
//! the first key is one that the crate keeps for itself; the tables of `toml_edit` are what the
//! text says.
use vstd::prelude::*;

verus! {

/// A TOML value as rules are read from and written to it. Nothing reads what a float or a date
/// holds. A program may empty a slot of an array that was read; what is left there is `Absent`.
pub ghost enum Node {
    Text(Seq<char>),
    Integer(i64),
    Boolean(bool),
    Float,
    Datetime,
    Absent,
    Array(Seq<Node>),
    Table(Seq<(Seq<char>, Node)>),
}

/// A value to be written.
#[verifier::external_type_specification]
#[verifier::external_body]
pub struct ExTomlValue(toml::Value);

/// A table to be written, which is a map from strings to values.
#[verifier::external_type_specification]
#[verifier::external_body]
#[verifier::reject_recursive_types(K)]
#[verifier::reject_recursive_types(V)]
pub struct ExTomlMap<K, V>(toml::map::Map<K, V>);

/// What the `toml` crate reports where it cannot write a value.
#[verifier::external_type_specification]
#[verifier::external_body]
pub struct ExTomlSerError(toml::ser::Error);

/// A value that was read from behind an equals sign or out of an array.
#[verifier::external_type_specification]
#[verifier::external_body]
pub struct ExReadValue(toml_edit::Value);

/// A table that was read from the root of a document, a header or a dotted key.
#[verifier::external_type_specification]
#[verifier::external_body]
pub struct ExReadTable(toml_edit::Table);

/// A table that was read from within braces.
#[verifier::external_type_specification]
#[verifier::external_body]
pub struct ExReadInlineTable(toml_edit::InlineTable);

/// An array that was read from within brackets.
#[verifier::external_type_specification]
#[verifier::external_body]
pub struct ExReadArray(toml_edit::Array);

/// An array of tables that was read from headers in double brackets.
#[verifier::external_type_specification]
#[verifier::external_body]
pub struct ExReadSections(toml_edit::ArrayOfTables);

/// What a value to be written holds.
pub uninterp spec fn value_node(value: toml::Value) -> Node;

/// The entries of a table to be written, in the order in which they were inserted.
pub uninterp spec fn table_entries(table: toml::Table) -> Seq<(Seq<char>, Node)>;

/// What a value that was read holds.
pub uninterp spec fn read_node(value: toml_edit::Value) -> Node;

/// The entries of a table that was read, in the order in which the table keeps them.
pub uninterp spec fn read_entries(table: toml_edit::Table) -> Seq<(Seq<char>, Node)>;

/// The entries of an inline table that was read, in the order in which it keeps them.
pub uninterp spec fn inline_entries(table: toml_edit::InlineTable) -> Seq<(Seq<char>, Node)>;

/// The slots of an array that was read, each with the value in it, or `Absent` where it holds none.
pub uninterp spec fn array_items(array: toml_edit::Array) -> Seq<Node>;

/// The slots of an array of tables that was read, each with the table in it, or `Absent` where it
/// holds none.
pub uninterp spec fn section_items(sections: toml_edit::ArrayOfTables) -> Seq<Node>;

/// The entries of the root table of the document `text`; `None` if `text` is no TOML document.
pub uninterp spec fn parsed_toml(text: Seq<char>) -> Option<Seq<(Seq<char>, Node)>>;

/// The document that is written for a root table with the given entries.
pub uninterp spec fn rendered_toml(entries: Seq<(Seq<char>, Node)>) -> Seq<char>;

/// What each value of a list to be written holds.
pub open spec fn value_nodes(values: Seq<toml::Value>) -> Seq<Node> {
    values.map_values(|value: toml::Value| value_node(value))
}

/// The value found under `key`.
pub open spec fn lookup(entries: Seq<(Seq<char>, Node)>, key: Seq<char>) -> Option<Node>
    decreases entries.len(),
{
    if entries.len() == 0 {
        None
    } else if entries.last().0 == key {
        Some(entries.last().1)
    } else {
        lookup(entries.drop_last(), key)
    }
}

/// A value that was read, taken apart by reference.
#[derive(Clone, Copy)]
pub enum Shape<'a> {
    Text(&'a str),
    Integer(i64),
    Boolean(bool),
    Float,
    Datetime,
    Absent,
    Array(&'a toml_edit::Array),
    Sections(&'a toml_edit::ArrayOfTables),
    Inline(&'a toml_edit::InlineTable),
    Table(&'a toml_edit::Table),
}

/// What the value holds that was taken apart.
pub open spec fn shape_node(shape: Shape) -> Node {
    match shape {
        Shape::Text(text) => Node::Text(text@),
        Shape::Integer(number) => Node::Integer(number),
        Shape::Boolean(flag) => Node::Boolean(flag),
        Shape::Float => Node::Float,
        Shape::Datetime => Node::Datetime,
        Shape::Absent => Node::Absent,
        Shape::Array(array) => Node::Array(array_items(*array)),
        Shape::Sections(sections) => Node::Array(section_items(*sections)),
        Shape::Inline(table) => Node::Table(inline_entries(*table)),
        Shape::Table(table) => Node::Table(read_entries(*table)),
    }
}

/// What an optional value holds that was taken apart.
pub open spec fn node_of(shape: Option<Shape>) -> Option<Node> {
    match shape {
        Some(shape) => Some(shape_node(shape)),
        None => None,
    }
}

/// What stands in a table that was read.
pub enum Found<'a> {
    Value(&'a toml_edit::Value),
    Table(&'a toml_edit::Table),
    Sections(&'a toml_edit::ArrayOfTables),
}

/// What that holds.
pub open spec fn found_node(found: Found) -> Node {
    match found {
        Found::Value(value) => read_node(*value),
        Found::Table(table) => Node::Table(read_entries(*table)),
        Found::Sections(sections) => Node::Array(section_items(*sections)),
    }
}

/// The contents from which a value is made.
pub enum Piece {
    Text(String),
    Integer(i64),
    Boolean(bool),
    Array(Vec<toml::Value>),
    Table(toml::Table),
}

/// What the value holds that is made from `piece`.
pub open spec fn piece_node(piece: Piece) -> Node {
    match piece {
        Piece::Text(text) => Node::Text(text@),
        Piece::Integer(number) => Node::Integer(number),
        Piece::Boolean(flag) => Node::Boolean(flag),
        Piece::Array(values) => Node::Array(value_nodes(values@)),
        Piece::Table(table) => Node::Table(table_entries(table)),
    }
}

/// Whether `node` is an array of texts.
pub open spec fn is_text_list(node: Node) -> bool {
    match node {
        Node::Array(items) => forall|i: int| 0 <= i < items.len() ==> #[trigger] items[i] is Text,
        _ => false,
    }
}

/// Whether `node` is a table with a name for each value, none starting with `$`, and with nothing
/// but texts, integers, booleans and arrays of texts for values.
pub open spec fn is_record(node: Node) -> bool {
    match node {
        Node::Table(entries) => forall|i: int|
            0 <= i < entries.len() ==> {
                let (key, value) = #[trigger] entries[i];
                &&& key.len() > 0
                &&& key[0] != '$'
                &&& value is Text || value is Integer || value is Boolean || is_text_list(value)
            },
        _ => false,
    }
}

/// Whether `node` is an array of records.
pub open spec fn is_record_list(node: Node) -> bool {
    match node {
        Node::Array(items) => forall|i: int|
            0 <= i < items.len() ==> is_record(#[trigger] items[i]),
        _ => false,
    }
}

/// Whether a root table holds nothing but arrays of records, the empty ones before the others.
pub open spec fn is_record_document(entries: Seq<(Seq<char>, Node)>) -> bool {
    &&& forall|i: int|
        0 <= i < entries.len() ==> {
            let (key, value) = #[trigger] entries[i];
            &&& key.len() > 0
            &&& key[0] != '$'
            &&& is_record_list(value)
        }
    &&& forall|i: int, j: int|
        #![trigger entries[i], entries[j]]
        0 <= i < j < entries.len() && entries[j].1 == Node::Array(Seq::empty())
            ==> entries[i].1 == Node::Array(Seq::empty())
}

/// Whether the character at `i` is the first one of a line.
pub open spec fn starts_line(text: Seq<char>, i: int) -> bool {
    i == 0 || text[i - 1] == '\n'
}

/// Whether `text` is made of whole lines that are empty or comments, without control characters
/// other than tabs and line feeds.
pub open spec fn is_comment_block(text: Seq<char>) -> bool {
    &&& text.len() > 0 ==> text.last() == '\n'
    &&& forall|i: int|
        0 <= i < text.len() ==> {
            let c = #[trigger] text[i];
            &&& starts_line(text, i) ==> c == '#' || c == '\n'
            &&& c == '\n' || c == '\t' || ' ' <= c && c != '\u{7f}'
        }
}

/// `toml::Table::new`: an empty table.
#[verifier::external_body]
pub(crate) fn new_table() -> (res: toml::Table)
    ensures
        table_entries(res) == Seq::<(Seq<char>, Node)>::empty(),
{
    toml::Table::new()
}

/// `toml::Table::insert` with a key that the table does not hold: the entry comes last, and the
/// other entries stay as they are. Tables keep the order of insertion, by the crate's feature
/// `preserve_order`.
#[verifier::external_body]
pub(crate) fn insert_new(table: &mut toml::Table, key: String, value: toml::Value)
    requires
        lookup(table_entries(*old(table)), key@) is None,
    ensures
        table_entries(*final(table)) == table_entries(*old(table)).push((key@, value_node(value))),
{
    table.insert(key, value);
}

/// `toml::Table::len`: the number of entries.
#[verifier::external_body]
pub(crate) fn count_entries(table: &toml::Table) -> (res: usize)
    ensures
        res == table_entries(*table).len(),
{
    table.len()
}

/// The variants of `toml::Value`, each made from what it is to hold.
#[verifier::external_body]
pub(crate) fn make_value(piece: Piece) -> (res: toml::Value)
    ensures
        value_node(res) == piece_node(piece),
{
    match piece {
        Piece::Text(text) => toml::Value::String(text),
        Piece::Integer(number) => toml::Value::Integer(number),
        Piece::Boolean(flag) => toml::Value::Boolean(flag),
        Piece::Array(values) => toml::Value::Array(values),
        Piece::Table(table) => toml::Value::Table(table),
    }
}

/// `toml_edit::Document::from_str`, which is the parser that `toml::from_str` runs: the root table
/// of a document, or nothing for a text that is no TOML document. Which texts those are is left to
/// the crate; what it reports of them is dropped. Left unsaid is how much stack a text needs: the
/// crate bounds the depth of values and the length of a dotted key each for itself, and a document
/// that comes near both bounds at once may need more than a thread has.
#[verifier::external_body]
pub(crate) fn parse_document(text: &str) -> (res: Option<toml_edit::Table>)
    ensures
        match res {
            Some(table) => parsed_toml(text@) == Some(read_entries(table)),
            None => parsed_toml(text@) is None,
        },
{
    let mut document = text.parse::<toml_edit::Document>().ok()?;
    Some(std::mem::take(document.as_table_mut()))
}

/// `toml_edit::Table::get`: what stands under a key, letter for letter. The entries are those
/// that hold anything.
#[verifier::external_body]
pub(crate) fn table_get<'a>(table: &'a toml_edit::Table, key: &str) -> (res: Option<Found<'a>>)
    ensures
        match res {
            Some(found) => lookup(read_entries(*table), key@) == Some(found_node(found)),
            None => lookup(read_entries(*table), key@) is None,
        },
{
    match table.get(key)? {
        toml_edit::Item::None => None,
        toml_edit::Item::Value(value) => Some(Found::Value(value)),
        toml_edit::Item::Table(table) => Some(Found::Table(table)),
        toml_edit::Item::ArrayOfTables(sections) => Some(Found::Sections(sections)),
    }
}

/// `toml_edit::Table::len`: the number of entries.
#[verifier::external_body]
pub(crate) fn table_len(table: &toml_edit::Table) -> (res: usize)
    ensures
        res == read_entries(*table).len(),
{
    table.len()
}

/// `toml_edit::InlineTable::get`: the value under a key, letter for letter.
#[verifier::external_body]
pub(crate) fn inline_get<'a>(table: &'a toml_edit::InlineTable, key: &str) -> (res: Option<
    &'a toml_edit::Value,
>)
    ensures
        match res {
            Some(value) => lookup(inline_entries(*table), key@) == Some(read_node(*value)),
            None => lookup(inline_entries(*table), key@) is None,
        },
{
    table.get(key)
}

/// `toml_edit::InlineTable::len`: the number of entries.
#[verifier::external_body]
pub(crate) fn inline_len(table: &toml_edit::InlineTable) -> (res: usize)
    ensures
        res == inline_entries(*table).len(),
{
    table.len()
}

/// `toml_edit::Array::get`: the value in a slot, or nothing where the slot holds none or there is
/// no such slot.
#[verifier::external_body]
pub(crate) fn array_get(array: &toml_edit::Array, place: usize) -> (res: Option<&toml_edit::Value>)
    ensures
        match res {
            Some(value) => place < array_items(*array).len() && array_items(*array)[place as int]
                == read_node(*value),
            None => place >= array_items(*array).len() || array_items(*array)[place as int]
                == Node::Absent,
        },
{
    array.get(place)
}

/// `toml_edit::Array::len`: the number of slots, whatever they hold.
#[verifier::external_body]
pub(crate) fn array_len(array: &toml_edit::Array) -> (res: usize)
    ensures
        res == array_items(*array).len(),
{
    array.len()
}

/// `toml_edit::ArrayOfTables::get`: the table in a slot, or nothing where the slot holds none or
/// there is no such slot.
#[verifier::external_body]
pub(crate) fn sections_get(sections: &toml_edit::ArrayOfTables, place: usize) -> (res: Option<
    &toml_edit::Table,
>)
    ensures
        match res {
            Some(table) => place < section_items(*sections).len() && section_items(
                *sections,
            )[place as int] == Node::Table(read_entries(*table)),
            None => place >= section_items(*sections).len() || section_items(
                *sections,
            )[place as int] == Node::Absent,
        },
{
    sections.get(place)
}

/// `toml_edit::ArrayOfTables::len`: the number of slots, whatever they hold.
#[verifier::external_body]
pub(crate) fn sections_len(sections: &toml_edit::ArrayOfTables) -> (res: usize)
    ensures
        res == section_items(*sections).len(),
{
    sections.len()
}

/// The variants of `toml_edit::Value`, each with what it holds.
#[verifier::external_body]
pub(crate) fn open_value(value: &toml_edit::Value) -> (res: Shape<'_>)
    ensures
        shape_node(res) == read_node(*value),
{
    match value {
        toml_edit::Value::String(text) => Shape::Text(text.value().as_str()),
        toml_edit::Value::Integer(number) => Shape::Integer(*number.value()),
        toml_edit::Value::Float(_) => Shape::Float,
        toml_edit::Value::Boolean(flag) => Shape::Boolean(*flag.value()),
        toml_edit::Value::Datetime(_) => Shape::Datetime,
        toml_edit::Value::Array(array) => Shape::Array(array),
        toml_edit::Value::InlineTable(table) => Shape::Inline(table),
    }
}

/// `toml::to_string` of a table of arrays of records: it does not fail, what it writes depends on
/// the entries alone, and that text is read back as a document with the same entries in the same
/// order, by itself and below lines of comments. How the text is laid out is left unsaid.
#[verifier::external_body]
pub(crate) fn render_document(table: &toml::Table) -> (res: Result<String, toml::ser::Error>)
    requires
        is_record_document(table_entries(*table)),
    ensures
        res is Ok,
        res->Ok_0@ == rendered_toml(table_entries(*table)),
        forall|head: Seq<char>| #[trigger]
            is_comment_block(head) ==> parsed_toml(head + res->Ok_0@) == Some(
                table_entries(*table),
            ),
{
    toml::to_string(table)
}

/// Finds an entry of a table; anything else has none.
pub(crate) fn get_entry<'a>(table: Shape<'a>, name: &str) -> (res: Option<Shape<'a>>)
    ensures
        node_of(res) == match shape_node(table) {
            Node::Table(entries) => lookup(entries, name@),
            _ => None,
        },
{
    match table {
        Shape::Table(table) => match table_get(table, name) {
            Some(Found::Value(value)) => Some(open_value(value)),
            Some(Found::Table(table)) => Some(Shape::Table(table)),
            Some(Found::Sections(sections)) => Some(Shape::Sections(sections)),
            None => None,
        },
        Shape::Inline(table) => match inline_get(table, name) {
            Some(value) => Some(open_value(value)),
            None => None,
        },
        _ => None,
    }
}

/// Counts the entries of a table.
pub(crate) fn entry_count(table: Shape) -> (res: Option<usize>)
    ensures
        match shape_node(table) {
            Node::Table(entries) => res is Some && res->0 == entries.len(),
            _ => res is None,
        },
{
    match table {
        Shape::Table(table) => Some(table_len(table)),
        Shape::Inline(table) => Some(inline_len(table)),
        _ => None,
    }
}

/// Finds an item of an array; anything else has none.
pub(crate) fn get_item<'a>(array: Shape<'a>, place: usize) -> (res: Option<Shape<'a>>)
    ensures
        node_of(res) == match shape_node(array) {
            Node::Array(items) => if place < items.len() {
                Some(items[place as int])
            } else {
                None
            },
            _ => None,
        },
{
    match array {
        Shape::Array(array) => match array_get(array, place) {
            Some(value) => Some(open_value(value)),
            None => if place < array_len(array) {
                Some(Shape::Absent)
            } else {
                None
            },
        },
        Shape::Sections(sections) => match sections_get(sections, place) {
            Some(table) => Some(Shape::Table(table)),
            None => if place < sections_len(sections) {
                Some(Shape::Absent)
            } else {
                None
            },
        },
        _ => None,
    }
}

/// Counts the items of an array.
pub(crate) fn item_count(array: Shape) -> (res: Option<usize>)
    ensures
        match shape_node(array) {
            Node::Array(items) => res is Some && res->0 == items.len(),
            _ => res is None,
        },
{
    match array {
        Shape::Array(array) => Some(array_len(array)),
        Shape::Sections(sections) => Some(sections_len(sections)),
        _ => None,
    }
}

} // verus!
