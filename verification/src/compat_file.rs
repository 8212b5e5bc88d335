//! The compatibility file: its text, its rules and its scopes.
use vstd::prelude::*;

use crate::codec;
use crate::codec::{is_empty_override, put, read_rule, read_scope, write_rule, write_scope};
use crate::config::SmartMethod;
use crate::mode::{FirstShowMode, InitialMode};
use crate::rule;
use crate::rule::{set_auto_pair, set_caret_offset, set_first_show_mode, set_host_render};
use crate::rule::{set_initial_mode, set_initial_punct, set_smart_method, upsert_rule};
use crate::rule::{AppCompatRule, InitialModeScopeRule};
use crate::text;
use crate::toml_tree;
use crate::toml_tree::{get_entry, get_item, item_count, make_value, new_table, parse_document};
use crate::toml_tree::{render_document, Node, Piece, Shape};

verus! {

/// The name of the compatibility file in each directory that may hold one.
pub const COMPAT_FILE_NAME: &'static str = "compat.toml";

/// The comment that every user file starts with.
///
/// The menus manage that file and write all of it anew on each change, without the comments that
/// were in it, so the file itself has to say so. The fields are described in the system file,
/// which no program rewrites.
pub const USER_COMPAT_HEADER: &'static str = "\
# 用户层应用兼容规则（覆盖 / 追加系统层 data/compat.toml）
#
# ⚠ 本文件由输入法右键菜单自动管理，每次通过菜单切换开关都会整份重写，
#   手写的注释与排版不会保留。需要长期留存的说明请写在系统层 compat.toml。
#
# 合并语义：同名进程（不区分大小写）整条覆盖系统层，系统层其余规则保留。
# 例外：composition_start_pair_guard 未写时继承系统层，显式 false 才关闭。
# 字段说明见系统层 data/compat.toml 顶部注释。

";

/// Whether the first `n` characters of `text` are those of empty lines and comments.
spec fn are_comments(text: Seq<char>, n: int) -> bool
    decreases n,
{
    n <= 0 || {
        let c = text[n - 1];
        &&& toml_tree::starts_line(text, n - 1) ==> c == '#' || c == '\n'
        &&& c == '\n' || c == '\t' || ' ' <= c && c != '\u{7f}'
        &&& are_comments(text, n - 1)
    }
}

/// What holds of the first characters holds of each of them.
proof fn lemma_are_comments(text: Seq<char>, n: int, i: int)
    requires
        are_comments(text, n),
        0 <= i < n,
    ensures
        toml_tree::starts_line(text, i) ==> text[i] == '#' || text[i] == '\n',
        text[i] == '\n' || text[i] == '\t' || ' ' <= text[i] && text[i] != '\u{7f}',
    decreases n,
{
    if i < n - 1 {
        lemma_are_comments(text, n - 1, i);
    }
}

/// The header of the user file is a comment.
pub proof fn law_header_is_comment()
    ensures
        toml_tree::is_comment_block(USER_COMPAT_HEADER@),
{
    reveal_strlit(
        "\
# 用户层应用兼容规则（覆盖 / 追加系统层 data/compat.toml）
#
# ⚠ 本文件由输入法右键菜单自动管理，每次通过菜单切换开关都会整份重写，
#   手写的注释与排版不会保留。需要长期留存的说明请写在系统层 compat.toml。
#
# 合并语义：同名进程（不区分大小写）整条覆盖系统层，系统层其余规则保留。
# 例外：composition_start_pair_guard 未写时继承系统层，显式 false 才关闭。
# 字段说明见系统层 data/compat.toml 顶部注释。

",
    );
    let head = USER_COMPAT_HEADER@;
    reveal_with_fuel(are_comments, 30);
    assert(are_comments(head, 20));
    assert(are_comments(head, 40));
    assert(are_comments(head, 60));
    assert(are_comments(head, 80));
    assert(are_comments(head, 100));
    assert(are_comments(head, 120));
    assert(are_comments(head, 140));
    assert(are_comments(head, 160));
    assert(are_comments(head, 180));
    assert(are_comments(head, 200));
    assert(are_comments(head, 220));
    assert(are_comments(head, 240));
    assert(are_comments(head, 259));
    assert forall|i: int| 0 <= i < head.len() implies {
        let c = #[trigger] head[i];
        &&& toml_tree::starts_line(head, i) ==> c == '#' || c == '\n'
        &&& c == '\n' || c == '\t' || ' ' <= c && c != '\u{7f}'
    } by {
        lemma_are_comments(head, head.len() as int, i);
    }
}

/// The contents of a compatibility file.
#[derive(Debug)]
pub struct AppCompatFile {
    pub apps: Vec<AppCompatRule>,
    pub initial_mode_scope: Vec<InitialModeScopeRule>,
}

/// What an [`AppCompatFile`] says.
#[verifier::ext_equal]
pub ghost struct FileView {
    pub apps: Seq<rule::RuleView>,
    pub initial_mode_scope: Seq<rule::ScopeView>,
}

impl FileView {
    /// A file without rules and scopes.
    pub open spec fn empty() -> FileView {
        FileView { apps: Seq::empty(), initial_mode_scope: Seq::empty() }
    }
}

impl View for AppCompatFile {
    type V = FileView;

    open spec fn view(&self) -> FileView {
        FileView {
            apps: rule::rule_views(self.apps@),
            initial_mode_scope: rule::scope_views(self.initial_mode_scope@),
        }
    }
}

impl Default for AppCompatFile {
    fn default() -> (res: Self)
        ensures
            res@ == FileView::empty(),
    {
        let apps: Vec<AppCompatRule> = Vec::new();
        let initial_mode_scope: Vec<InitialModeScopeRule> = Vec::new();
        assert(rule::rule_views(apps@) =~= Seq::empty());
        assert(rule::scope_views(initial_mode_scope@) =~= Seq::empty());
        AppCompatFile { apps, initial_mode_scope }
    }
}

/// The rules that an array of records stands for.
pub open spec fn decoded_rules(value: Option<Node>) -> Option<Seq<rule::RuleView>> {
    match value {
        None => Some(Seq::empty()),
        Some(Node::Array(items)) => if forall|i: int|
            0 <= i < items.len() ==> codec::decoded_rule(#[trigger] items[i]) is Some {
            Some(items.map_values(|item: Node| codec::decoded_rule(item)->0))
        } else {
            None
        },
        _ => None,
    }
}

/// The scopes that an array of records stands for.
pub open spec fn decoded_scopes(value: Option<Node>) -> Option<Seq<rule::ScopeView>> {
    match value {
        None => Some(Seq::empty()),
        Some(Node::Array(items)) => if forall|i: int|
            0 <= i < items.len() ==> codec::decoded_scope(#[trigger] items[i]) is Some {
            Some(items.map_values(|item: Node| codec::decoded_scope(item)->0))
        } else {
            None
        },
        _ => None,
    }
}

/// The file that a root table stands for.
pub open spec fn decoded_file(entries: Seq<(Seq<char>, Node)>) -> Option<FileView> {
    let apps = decoded_rules(toml_tree::lookup(entries, "apps"@));
    let scopes = decoded_scopes(toml_tree::lookup(entries, "initial_mode_scope"@));
    if apps is Some && scopes is Some {
        Some(FileView { apps: apps->0, initial_mode_scope: scopes->0 })
    } else {
        None
    }
}

/// The file that a text stands for.
pub open spec fn parsed_file(text: Seq<char>) -> Option<FileView> {
    match toml_tree::parsed_toml(text) {
        Some(entries) => decoded_file(entries),
        None => None,
    }
}

/// The fields of a file. An empty list of scopes is left out.
pub open spec fn file_fields(file: FileView) -> Seq<(Seq<char>, Option<Node>)> {
    let apps = file.apps.map_values(|rule: rule::RuleView| codec::encoded_rule(rule));
    let scopes = file.initial_mode_scope.map_values(
        |scope: rule::ScopeView| codec::encoded_scope(scope),
    );
    seq![
        ("apps"@, Some(Node::Array(apps))),
        (
            "initial_mode_scope"@,
            if scopes.len() == 0 {
                None
            } else {
                Some(Node::Array(scopes))
            },
        ),
    ]
}

/// The entries of the root table that stands for a file.
pub open spec fn encoded_file(file: FileView) -> Seq<(Seq<char>, Node)> {
    codec::present(file_fields(file))
}

/// The text of a user file.
pub open spec fn user_text(file: FileView) -> Seq<char> {
    USER_COMPAT_HEADER@ + toml_tree::rendered_toml(encoded_file(file))
}

/// Whether `text` is a user file that says `file`: it is the text written for it, it holds the
/// header and the entries of that file and no others, and it reads back as that file.
pub open spec fn is_user_file(text: Seq<char>, file: FileView) -> bool {
    &&& text == user_text(file)
    &&& toml_tree::parsed_toml(text) == Some(encoded_file(file))
    &&& parsed_file(text) == Some(file)
}

/// Reads the rules of a file.
fn read_rules(value: Option<Shape>) -> (res: Option<Vec<AppCompatRule>>)
    ensures
        match res {
            Some(rules) => decoded_rules(toml_tree::node_of(value)) == Some(
                rule::rule_views(rules@),
            ),
            None => decoded_rules(toml_tree::node_of(value)) is None,
        },
{
    let mut rules: Vec<AppCompatRule> = Vec::new();
    match value {
        None => {
            assert(rule::rule_views(rules@) =~= Seq::empty());
            Some(rules)
        },
        Some(array) => {
            let n = item_count(array)?;
            let ghost items = toml_tree::shape_node(array)->Array_0;
            let mut i: usize = 0;
            while i < n
                invariant
                    i <= n,
                    n == items.len(),
                    i == rules@.len(),
                    toml_tree::shape_node(array) == Node::Array(items),
                    toml_tree::node_of(value) == Some(Node::Array(items)),
                    forall|j: int|
                        0 <= j < i ==> codec::decoded_rule(#[trigger] items[j]) == Some(rules@[j]@),
                decreases n - i,
            {
                let record = get_item(array, i)?;
                assert(items[i as int] == toml_tree::shape_node(record));
                match read_rule(record) {
                    Some(rule) => rules.push(rule),
                    None => return None,
                }
                i += 1;
            }
            assert(rule::rule_views(rules@) =~= items.map_values(
                |item: Node| codec::decoded_rule(item)->0,
            ));
            Some(rules)
        },
    }
}

/// Reads the scopes of a file.
fn read_scopes(value: Option<Shape>) -> (res: Option<Vec<InitialModeScopeRule>>)
    ensures
        match res {
            Some(scopes) => decoded_scopes(toml_tree::node_of(value)) == Some(
                rule::scope_views(scopes@),
            ),
            None => decoded_scopes(toml_tree::node_of(value)) is None,
        },
{
    let mut scopes: Vec<InitialModeScopeRule> = Vec::new();
    match value {
        None => {
            assert(rule::scope_views(scopes@) =~= Seq::empty());
            Some(scopes)
        },
        Some(array) => {
            let n = item_count(array)?;
            let ghost items = toml_tree::shape_node(array)->Array_0;
            let mut i: usize = 0;
            while i < n
                invariant
                    i <= n,
                    n == items.len(),
                    i == scopes@.len(),
                    toml_tree::shape_node(array) == Node::Array(items),
                    toml_tree::node_of(value) == Some(Node::Array(items)),
                    forall|j: int|
                        0 <= j < i ==> codec::decoded_scope(#[trigger] items[j]) == Some(scopes@[j]@),
                decreases n - i,
            {
                let record = get_item(array, i)?;
                assert(items[i as int] == toml_tree::shape_node(record));
                match read_scope(record) {
                    Some(scope) => scopes.push(scope),
                    None => return None,
                }
                i += 1;
            }
            assert(rule::scope_views(scopes@) =~= items.map_values(
                |item: Node| codec::decoded_scope(item)->0,
            ));
            Some(scopes)
        },
    }
}

impl AppCompatFile {
    /// Reads a file from its root table; `None` if a value has the wrong type anywhere.
    pub fn from_table(table: &toml_edit::Table) -> (res: Option<Self>)
        ensures
            match res {
                Some(file) => decoded_file(toml_tree::read_entries(*table)) == Some(file@),
                None => decoded_file(toml_tree::read_entries(*table)) is None,
            },
    {
        let root = Shape::Table(table);
        let apps = read_rules(get_entry(root, "apps"))?;
        let initial_mode_scope = read_scopes(get_entry(root, "initial_mode_scope"))?;
        Some(AppCompatFile { apps, initial_mode_scope })
    }

    /// Reads a file from its text; `None` if the text is no TOML document or a value has the
    /// wrong type anywhere.
    pub fn parse(text: &str) -> (res: Option<Self>)
        ensures
            match res {
                Some(file) => parsed_file(text@) == Some(file@),
                None => parsed_file(text@) is None,
            },
    {
        let table = parse_document(text)?;
        Self::from_table(&table)
    }
}

/// Reading the root table of a file gives the file back.
pub proof fn law_file_round_trip(file: FileView)
    ensures
        decoded_file(encoded_file(file)) == Some(file),
{
    let fields = file_fields(file);
    lemma_file_names(file);
    codec::lemma_found(fields, 0);
    codec::lemma_found(fields, 1);
    let apps = file.apps.map_values(|rule: rule::RuleView| codec::encoded_rule(rule));
    let scopes = file.initial_mode_scope.map_values(
        |scope: rule::ScopeView| codec::encoded_scope(scope),
    );
    assert forall|i: int| 0 <= i < apps.len() implies codec::decoded_rule(#[trigger] apps[i])
        == Some(file.apps[i]) by {
        codec::law_rule_round_trip(file.apps[i]);
    }
    assert forall|i: int| 0 <= i < scopes.len() implies codec::decoded_scope(#[trigger] scopes[i])
        == Some(file.initial_mode_scope[i]) by {
        codec::law_scope_round_trip(file.initial_mode_scope[i]);
    }
    assert(apps.map_values(|item: Node| codec::decoded_rule(item)->0) =~= file.apps);
    assert(scopes.map_values(|item: Node| codec::decoded_scope(item)->0)
        =~= file.initial_mode_scope);
}

/// The names of the two lists of a file differ.
proof fn lemma_file_names(file: FileView)
    ensures
        codec::distinct_names(file_fields(file)),
{
    reveal_strlit("apps");
    reveal_strlit("initial_mode_scope");
    assert("apps"@.len() != "initial_mode_scope"@.len());
}

/// A file is written as lists of records.
proof fn lemma_file_is_record_document(file: FileView)
    ensures
        toml_tree::is_record_document(encoded_file(file)),
{
    let fields = file_fields(file);
    reveal_strlit("apps");
    reveal_strlit("initial_mode_scope");
    reveal_with_fuel(codec::present, 3);
    assert(fields.drop_last().drop_last() =~= Seq::empty());
    assert(fields.drop_last().last() == fields[0]);
    let apps = file.apps.map_values(|rule: rule::RuleView| codec::encoded_rule(rule));
    let scopes = file.initial_mode_scope.map_values(
        |scope: rule::ScopeView| codec::encoded_scope(scope),
    );
    assert forall|i: int| 0 <= i < apps.len() implies toml_tree::is_record(#[trigger] apps[i]) by {
        codec::lemma_rule_is_record(file.apps[i]);
    }
    assert forall|i: int| 0 <= i < scopes.len() implies toml_tree::is_record(
        #[trigger] scopes[i],
    ) by {
        codec::lemma_scope_is_record(file.initial_mode_scope[i]);
    }
    assert(toml_tree::is_record_list(Node::Array(apps)));
    assert(toml_tree::is_record_list(Node::Array(scopes)));
}

/// Makes the root table of a file from its rules and scopes.
pub fn to_table(
    rules: &[AppCompatRule],
    initial_mode_scope: &[InitialModeScopeRule],
) -> (res: toml::Table)
    ensures
        toml_tree::table_entries(res) == encoded_file(
            FileView {
                apps: rule::rule_views(rules@),
                initial_mode_scope: rule::scope_views(initial_mode_scope@),
            },
        ),
{
    let ghost file = FileView {
        apps: rule::rule_views(rules@),
        initial_mode_scope: rule::scope_views(initial_mode_scope@),
    };
    let ghost fields = file_fields(file);
    let mut apps: Vec<toml::Value> = Vec::new();
    let mut i: usize = 0;
    while i < rules.len()
        invariant
            i <= rules@.len(),
            i == apps@.len(),
            forall|j: int|
                0 <= j < i ==> toml_tree::value_node(#[trigger] apps@[j]) == codec::encoded_rule(
                    rules@[j]@,
                ),
        decreases rules@.len() - i,
    {
        apps.push(make_value(Piece::Table(write_rule(&rules[i]))));
        i += 1;
    }
    let mut scopes: Vec<toml::Value> = Vec::new();
    let mut k: usize = 0;
    while k < initial_mode_scope.len()
        invariant
            k <= initial_mode_scope@.len(),
            k == scopes@.len(),
            forall|j: int|
                0 <= j < k ==> toml_tree::value_node(#[trigger] scopes@[j])
                    == codec::encoded_scope(initial_mode_scope@[j]@),
        decreases initial_mode_scope@.len() - k,
    {
        scopes.push(make_value(Piece::Table(write_scope(&initial_mode_scope[k]))));
        k += 1;
    }
    proof {
        assert(toml_tree::value_nodes(apps@) =~= file.apps.map_values(
            |rule: rule::RuleView| codec::encoded_rule(rule),
        ));
        assert(toml_tree::value_nodes(scopes@) =~= file.initial_mode_scope.map_values(
            |scope: rule::ScopeView| codec::encoded_scope(scope),
        ));
        lemma_file_names(file);
        assert(fields.take(0) =~= Seq::empty());
        assert(fields.take(2) =~= fields);
    }
    let written = if scopes.len() == 0 {
        None
    } else {
        Some(Piece::Array(scopes))
    };
    let mut table = new_table();
    put(&mut table, "apps", Some(Piece::Array(apps)), Ghost(fields), Ghost(0));
    put(&mut table, "initial_mode_scope", written, Ghost(fields), Ghost(1));
    table
}

/// Puts the header of the user file before its body.
pub fn with_header(body: &str) -> (res: String)
    ensures
        res@ == USER_COMPAT_HEADER@ + body@,
{
    let mut text = USER_COMPAT_HEADER.to_owned();
    text.append(body);
    text
}

/// Why a file could not be written.
#[derive(Debug, Clone, Copy, PartialEq, Eq, Structural)]
pub struct RenderError;

/// Writes a user file in full: the header, the rules and the scopes.
///
/// The file replaces the one before it, so what is not written here is gone; the scopes belong to
/// it as much as the rules do. The text reads back as what was written.
pub fn render_user_compat(
    rules: &[AppCompatRule],
    initial_mode_scope: &[InitialModeScopeRule],
) -> (res: Result<String, RenderError>)
    ensures
        res is Ok,
        is_user_file(
            res->Ok_0@,
            FileView {
                apps: rule::rule_views(rules@),
                initial_mode_scope: rule::scope_views(initial_mode_scope@),
            },
        ),
{
    let table = to_table(rules, initial_mode_scope);
    proof {
        let file = FileView {
            apps: rule::rule_views(rules@),
            initial_mode_scope: rule::scope_views(initial_mode_scope@),
        };
        lemma_file_is_record_document(file);
        law_file_round_trip(file);
        law_header_is_comment();
    }
    match render_document(&table) {
        Ok(body) => Ok(with_header(body.as_str())),
        Err(_) => Err(RenderError),
    }
}

/// The characters of an optional text.
pub open spec fn text_of(text: Option<&str>) -> Option<Seq<char>> {
    match text {
        Some(text) => Some(text@),
        None => None,
    }
}

/// What a user file says: nothing where there is none or where it cannot be read.
pub open spec fn current_file(text: Option<Seq<char>>) -> FileView {
    match text {
        Some(text) => match parsed_file(text) {
            Some(file) => file,
            None => FileView::empty(),
        },
        None => FileView::empty(),
    }
}

/// The rules that set anything.
pub open spec fn kept(rules: Seq<rule::RuleView>) -> Seq<rule::RuleView> {
    rules.filter(|rule: rule::RuleView| !rule.is_bare())
}

/// `file` with the rule of `process` edited and without the rules that set nothing.
pub open spec fn updated(
    file: FileView,
    process: Seq<char>,
    edit: spec_fn(rule::RuleView) -> rule::RuleView,
) -> FileView {
    FileView {
        apps: kept(rule::upserted(file.apps, process, edit)),
        initial_mode_scope: file.initial_mode_scope,
    }
}

/// Reads the user file. One that cannot be read counts as empty: better to build it anew than to
/// leave the menus without effect.
fn user_file(current: Option<&str>) -> (res: AppCompatFile)
    ensures
        res@ == current_file(text_of(current)),
{
    match current {
        Some(text) => match AppCompatFile::parse(text) {
            Some(file) => file,
            None => AppCompatFile::default(),
        },
        None => AppCompatFile::default(),
    }
}

/// Drops the rules that set nothing.
///
/// Such a rule is not harmless: it replaces the whole rule of a lower layer. To follow the global
/// setting again has to mean that there is no rule.
pub fn drop_empty_rules(rules: Vec<AppCompatRule>) -> (res: Vec<AppCompatRule>)
    ensures
        rule::rule_views(res@) == kept(rule::rule_views(rules@)),
{
    let ghost views = rule::rule_views(rules@);
    let ghost sets_something = |rule: rule::RuleView| !rule.is_bare();
    let mut res: Vec<AppCompatRule> = Vec::new();
    for rule in rest: rules
        invariant
            rest.seq() == rules@,
            views == rule::rule_views(rules@),
            sets_something == (|rule: rule::RuleView| !rule.is_bare()),
            rule::rule_views(res@) == views.take(rest.index()).filter(sets_something),
    {
        proof {
            let n = rest.index();
            assert(views.take(n + 1).drop_last() =~= views.take(n));
            assert(views.take(n + 1).last() == rule@);
            reveal(Seq::filter);
        }
        let ghost before = rule::rule_views(res@);
        if !is_empty_override(&rule) {
            res.push(rule);
            assert(rule::rule_views(res@) =~= before.push(rule@));
        }
    }
    assert(views.take(views.len() as int) =~= views);
    res
}

/// Writes a user file without the rules that set nothing.
fn write_back(file: AppCompatFile) -> (res: Result<String, RenderError>)
    ensures
        res is Ok,
        is_user_file(res->Ok_0@, (FileView { apps: kept(file@.apps), ..file@ })),
{
    let rules = drop_empty_rules(file.apps);
    render_user_compat(rules.as_slice(), file.initial_mode_scope.as_slice())
}

/// Edits the rule of one process in the user file and returns the new text of that file.
///
/// `current` is the text of the file, or `None` if there is none. The scopes stay as they are.
/// Rules that set nothing after the edit are dropped. Which rule `edit` gets depends on the file;
/// it is always one for `process`.
pub fn update_user_rule(
    current: Option<&str>,
    process: &str,
    edit: impl FnOnce(&mut AppCompatRule),
) -> (res: Result<String, RenderError>)
    requires
        forall|rule: &mut AppCompatRule|
            rule@.key() == text::lowered(process@) ==> #[trigger] call_requires(edit, (rule,)),
    ensures
        res is Ok,
        ({
            let file = current_file(text_of(current));
            match rule::first_index(file.apps, text::lowered(process@)) {
                Some(i) => exists|rule: &mut AppCompatRule|
                    {
                        let after = FileView {
                            apps: kept(file.apps.update(i, final(rule)@)),
                            ..file
                        };
                        &&& #[trigger] call_ensures(edit, (rule,), ())
                        &&& rule@ == file.apps[i]
                        &&& is_user_file(res->Ok_0@, after)
                    },
                None => exists|rule: &mut AppCompatRule|
                    {
                        let after = FileView { apps: kept(file.apps.push(final(rule)@)), ..file };
                        &&& #[trigger] call_ensures(edit, (rule,), ())
                        &&& rule@ == rule::RuleView::bare(process@)
                        &&& is_user_file(res->Ok_0@, after)
                    },
            }
        }),
{
    let mut file = user_file(current);
    let ghost before = file.apps@;
    proof {
        rule::lemma_first_index(rule::rule_views(before), text::lowered(process@));
    }
    upsert_rule(&mut file.apps, process, edit);
    proof {
        match rule::first_index(rule::rule_views(before), text::lowered(process@)) {
            Some(i) => {
                assert(rule::rule_views(file.apps@) =~= rule::rule_views(before).update(
                    i,
                    file.apps@[i]@,
                ));
            },
            None => {
                assert(rule::rule_views(file.apps@) =~= rule::rule_views(before).push(
                    file.apps@.last()@,
                ));
            },
        }
    }
    write_back(file)
}

/// Sets the first-show mode of a process in the user file; `None` makes it follow the global one
/// again. See [`update_user_rule`].
pub fn set_user_first_show_mode(
    current: Option<&str>,
    process: &str,
    mode: Option<FirstShowMode>,
) -> (res: Result<String, RenderError>)
    ensures
        res is Ok,
        is_user_file(
            res->Ok_0@,
            updated(
                current_file(text_of(current)),
                process@,
                |rule: rule::RuleView| rule::RuleView { first_show_mode: mode, ..rule },
            ),
        ),
{
    let mut file = user_file(current);
    set_first_show_mode(&mut file.apps, process, mode);
    write_back(file)
}

/// Sets the initial language state of a process in the user file; `None` stops interfering.
/// See [`update_user_rule`].
pub fn set_user_initial_mode(
    current: Option<&str>,
    process: &str,
    mode: Option<InitialMode>,
) -> (res: Result<String, RenderError>)
    ensures
        res is Ok,
        is_user_file(
            res->Ok_0@,
            updated(
                current_file(text_of(current)),
                process@,
                |rule: rule::RuleView| rule::RuleView { initial_mode: mode, ..rule },
            ),
        ),
{
    let mut file = user_file(current);
    set_initial_mode(&mut file.apps, process, mode);
    write_back(file)
}

/// Sets the initial punctuation state of a process in the user file; `None` stops interfering.
/// See [`update_user_rule`].
pub fn set_user_initial_punct(
    current: Option<&str>,
    process: &str,
    mode: Option<InitialMode>,
) -> (res: Result<String, RenderError>)
    ensures
        res is Ok,
        is_user_file(
            res->Ok_0@,
            updated(
                current_file(text_of(current)),
                process@,
                |rule: rule::RuleView| rule::RuleView { initial_punct: mode, ..rule },
            ),
        ),
{
    let mut file = user_file(current);
    set_initial_punct(&mut file.apps, process, mode);
    write_back(file)
}

/// Sets in the user file whether the host draws the candidate window of a process.
/// See [`update_user_rule`].
pub fn set_user_host_render(
    current: Option<&str>,
    process: &str,
    enabled: bool,
) -> (res: Result<String, RenderError>)
    ensures
        res is Ok,
        is_user_file(
            res->Ok_0@,
            updated(
                current_file(text_of(current)),
                process@,
                |rule: rule::RuleView| rule::RuleView { host_render: enabled, ..rule },
            ),
        ),
{
    let mut file = user_file(current);
    set_host_render(&mut file.apps, process, enabled);
    write_back(file)
}

/// Sets symbol pairing for a process in the user file; `None` makes it follow the global setting
/// again. See [`update_user_rule`].
pub fn set_user_auto_pair(
    current: Option<&str>,
    process: &str,
    enabled: Option<bool>,
) -> (res: Result<String, RenderError>)
    ensures
        res is Ok,
        is_user_file(
            res->Ok_0@,
            updated(
                current_file(text_of(current)),
                process@,
                |rule: rule::RuleView| rule::RuleView { auto_pair: enabled, ..rule },
            ),
        ),
{
    let mut file = user_file(current);
    set_auto_pair(&mut file.apps, process, enabled);
    write_back(file)
}

/// Sets smart symbol replacement for a process in the user file; `None` makes it follow the global
/// setting again. See [`update_user_rule`].
pub fn set_user_smart_method(
    current: Option<&str>,
    process: &str,
    method: Option<SmartMethod>,
) -> (res: Result<String, RenderError>)
    ensures
        res is Ok,
        is_user_file(
            res->Ok_0@,
            updated(
                current_file(text_of(current)),
                process@,
                |rule: rule::RuleView| rule::RuleView { smart_method: method, ..rule },
            ),
        ),
{
    let mut file = user_file(current);
    set_smart_method(&mut file.apps, process, method);
    write_back(file)
}

/// Sets the caret correction of a process in the user file; zero corrects nothing.
/// See [`update_user_rule`].
pub fn set_user_caret_offset(
    current: Option<&str>,
    process: &str,
    dx: i32,
    dy: i32,
) -> (res: Result<String, RenderError>)
    ensures
        res is Ok,
        is_user_file(
            res->Ok_0@,
            updated(
                current_file(text_of(current)),
                process@,
                |rule: rule::RuleView| rule::RuleView { caret_offset_x: dx, caret_offset_y: dy, ..rule },
            ),
        ),
{
    let mut file = user_file(current);
    set_caret_offset(&mut file.apps, process, dx, dy);
    write_back(file)
}

} // verus!
