//! What is read from a file against the same text handed to the `toml` crate for nested
//! structures.
use std::fmt;

use serde::de::{
    Deserialize, Deserializer, EnumAccess, Error, IgnoredAny, MapAccess, SeqAccess, VariantAccess,
    Visitor,
};
use wind_config::compat_file::AppCompatFile;
use wind_config::config::SmartMethod;
use wind_config::mode::{FirstShowMode, InitialMode};
use wind_config::rule::{AppCompatRule, InitialModeScopeRule};

const RULE: [&str; 13] = [
    "process",
    "comment",
    "caret_use_top",
    "stale_probe_guard",
    "composition_start_pair_guard",
    "first_show_mode",
    "initial_mode",
    "initial_punct",
    "host_render",
    "auto_pair",
    "smart_method",
    "caret_offset_x",
    "caret_offset_y",
];

struct Method(SmartMethod);

struct MethodName(SmartMethod);

struct MethodNameVisitor;

impl Visitor<'_> for MethodNameVisitor {
    type Value = MethodName;

    fn expecting(&self, f: &mut fmt::Formatter) -> fmt::Result {
        f.write_str("a method")
    }

    fn visit_str<E: Error>(self, name: &str) -> Result<MethodName, E> {
        match name {
            "delete_replace" => Ok(MethodName(SmartMethod::DeleteReplace)),
            "hold_composition" => Ok(MethodName(SmartMethod::HoldComposition)),
            _ => Err(E::custom("unknown method")),
        }
    }
}

impl<'de> Deserialize<'de> for MethodName {
    fn deserialize<D: Deserializer<'de>>(d: D) -> Result<Self, D::Error> {
        d.deserialize_identifier(MethodNameVisitor)
    }
}

struct MethodVisitor;

impl<'de> Visitor<'de> for MethodVisitor {
    type Value = Method;

    fn expecting(&self, f: &mut fmt::Formatter) -> fmt::Result {
        f.write_str("a method")
    }

    fn visit_enum<A: EnumAccess<'de>>(self, access: A) -> Result<Method, A::Error> {
        let (name, rest) = access.variant::<MethodName>()?;
        rest.unit_variant()?;
        Ok(Method(name.0))
    }
}

impl<'de> Deserialize<'de> for Method {
    fn deserialize<D: Deserializer<'de>>(d: D) -> Result<Self, D::Error> {
        const NAMES: &[&str] = &["delete_replace", "hold_composition"];
        d.deserialize_enum("SmartMethod", NAMES, MethodVisitor)
    }
}

#[derive(Default)]
struct Rule(AppCompatRule);

/// Where the next value comes from.
trait Source<'de> {
    type Error;

    fn next<T: Deserialize<'de>>(&mut self) -> Result<Option<T>, Self::Error>;
}

struct Values<'a, A>(&'a mut A);

impl<'de, A: MapAccess<'de>> Source<'de> for Values<'_, A> {
    type Error = A::Error;

    fn next<T: Deserialize<'de>>(&mut self) -> Result<Option<T>, A::Error> {
        self.0.next_value().map(Some)
    }
}

struct Elements<'a, A>(&'a mut A);

impl<'de, A: SeqAccess<'de>> Source<'de> for Elements<'_, A> {
    type Error = A::Error;

    fn next<T: Deserialize<'de>>(&mut self) -> Result<Option<T>, A::Error> {
        self.0.next_element()
    }
}

fn fill<'de, S: Source<'de>>(
    rule: &mut AppCompatRule,
    place: usize,
    source: &mut S,
) -> Result<(), S::Error> {
    match place {
        0 => rule.process = source.next()?.unwrap_or_default(),
        1 => rule.comment = source.next()?.unwrap_or_default(),
        2 => rule.caret_use_top = source.next()?.unwrap_or_default(),
        3 => rule.stale_probe_guard = source.next()?.unwrap_or_default(),
        4 => rule.composition_start_pair_guard = source.next::<Option<bool>>()?.flatten(),
        5 => {
            let name = source.next::<Option<String>>()?.flatten();
            rule.first_show_mode = name.as_deref().and_then(FirstShowMode::from_config);
        }
        6 => {
            let name = source.next::<Option<String>>()?.flatten();
            rule.initial_mode = name.as_deref().and_then(InitialMode::from_config);
        }
        7 => {
            let name = source.next::<Option<String>>()?.flatten();
            rule.initial_punct = name.as_deref().and_then(InitialMode::from_config);
        }
        8 => rule.host_render = source.next()?.unwrap_or_default(),
        9 => rule.auto_pair = source.next::<Option<bool>>()?.flatten(),
        10 => {
            let method = source.next::<Option<Method>>()?.flatten();
            rule.smart_method = method.map(|method| method.0);
        }
        11 => rule.caret_offset_x = source.next()?.unwrap_or_default(),
        _ => rule.caret_offset_y = source.next()?.unwrap_or_default(),
    }
    Ok(())
}

struct RuleVisitor;

impl<'de> Visitor<'de> for RuleVisitor {
    type Value = Rule;

    fn expecting(&self, f: &mut fmt::Formatter) -> fmt::Result {
        f.write_str("a rule")
    }

    fn visit_map<A: MapAccess<'de>>(self, mut map: A) -> Result<Rule, A::Error> {
        let mut rule = Rule::default();
        while let Some(key) = map.next_key::<String>()? {
            match RULE.iter().position(|name| *name == key) {
                Some(place) => fill(&mut rule.0, place, &mut Values(&mut map))?,
                None => {
                    map.next_value::<IgnoredAny>()?;
                }
            }
        }
        Ok(rule)
    }

    fn visit_seq<A: SeqAccess<'de>>(self, mut seq: A) -> Result<Rule, A::Error> {
        let mut rule = Rule::default();
        for place in 0..RULE.len() {
            fill(&mut rule.0, place, &mut Elements(&mut seq))?;
        }
        Ok(rule)
    }
}

impl<'de> Deserialize<'de> for Rule {
    fn deserialize<D: Deserializer<'de>>(d: D) -> Result<Self, D::Error> {
        d.deserialize_struct("AppCompatRule", &RULE, RuleVisitor)
    }
}

struct Scope(InitialModeScopeRule);

struct ScopeVisitor;

impl<'de> Visitor<'de> for ScopeVisitor {
    type Value = Scope;

    fn expecting(&self, f: &mut fmt::Formatter) -> fmt::Result {
        f.write_str("a scope")
    }

    fn visit_map<A: MapAccess<'de>>(self, mut map: A) -> Result<Scope, A::Error> {
        let mut process: Option<String> = None;
        let mut scope = InitialModeScopeRule::default();
        while let Some(key) = map.next_key::<String>()? {
            match key.as_str() {
                "process" => process = Some(map.next_value()?),
                "comment" => scope.comment = map.next_value()?,
                "classes" => scope.classes = map.next_value()?,
                _ => {
                    map.next_value::<IgnoredAny>()?;
                }
            }
        }
        scope.process = process.ok_or_else(|| A::Error::missing_field("process"))?;
        Ok(Scope(scope))
    }

    fn visit_seq<A: SeqAccess<'de>>(self, mut seq: A) -> Result<Scope, A::Error> {
        let process = seq
            .next_element()?
            .ok_or_else(|| A::Error::invalid_length(0, &self))?;
        Ok(Scope(InitialModeScopeRule {
            process,
            comment: seq.next_element()?.unwrap_or_default(),
            classes: seq.next_element()?.unwrap_or_default(),
        }))
    }
}

impl<'de> Deserialize<'de> for Scope {
    fn deserialize<D: Deserializer<'de>>(d: D) -> Result<Self, D::Error> {
        const NAMES: &[&str] = &["process", "comment", "classes"];
        d.deserialize_struct("InitialModeScopeRule", NAMES, ScopeVisitor)
    }
}

#[derive(Default)]
struct File {
    apps: Vec<Rule>,
    initial_mode_scope: Vec<Scope>,
}

struct FileVisitor;

impl<'de> Visitor<'de> for FileVisitor {
    type Value = File;

    fn expecting(&self, f: &mut fmt::Formatter) -> fmt::Result {
        f.write_str("a file")
    }

    fn visit_map<A: MapAccess<'de>>(self, mut map: A) -> Result<File, A::Error> {
        let mut file = File::default();
        while let Some(key) = map.next_key::<String>()? {
            match key.as_str() {
                "apps" => file.apps = map.next_value()?,
                "initial_mode_scope" => file.initial_mode_scope = map.next_value()?,
                _ => {
                    map.next_value::<IgnoredAny>()?;
                }
            }
        }
        Ok(file)
    }
}

impl<'de> Deserialize<'de> for File {
    fn deserialize<D: Deserializer<'de>>(d: D) -> Result<Self, D::Error> {
        const NAMES: &[&str] = &["apps", "initial_mode_scope"];
        d.deserialize_struct("AppCompatFile", NAMES, FileVisitor)
    }
}

fn check(text: &str) -> bool {
    let expected = toml::from_str::<File>(text).ok().map(|file| {
        let apps: Vec<AppCompatRule> = file.apps.into_iter().map(|rule| rule.0).collect();
        let scopes: Vec<InitialModeScopeRule> =
            file.initial_mode_scope.into_iter().map(|scope| scope.0).collect();
        format!("{apps:?} {scopes:?}")
    });
    let found = AppCompatFile::parse(text)
        .map(|file| format!("{:?} {:?}", file.apps, file.initial_mode_scope));
    assert_eq!(found, expected, "{text}");
    found.is_some()
}

const VALUES: [&str; 38] = [
    "\"\"",
    "\"x\"",
    "\" EN \"",
    "\"Fast\"",
    "\"delete_replace\"",
    "\"hold_composition\"",
    "\"Hold_Composition\"",
    "true",
    "false",
    "0",
    "1",
    "-1",
    "2147483647",
    "2147483648",
    "-2147483648",
    "-2147483649",
    "9223372036854775807",
    "0x7f",
    "1.0",
    "nan",
    "inf",
    "1979-05-27",
    "07:32:00",
    "1979-05-27T07:32:00Z",
    "[]",
    "[[]]",
    "[\"x\"]",
    "[\"x\", 1]",
    "{}",
    "{ process = \"x\" }",
    "{ hold_composition = {} }",
    "{ delete_replace = [] }",
    "{ hold_composition = {}, delete_replace = {} }",
    "{ other = {} }",
    "{ \"$__toml_private_datetime\" = 1 }",
    "{ \"$__toml_private_datetime\" = \"1979-05-27\", process = \"x\" }",
    "{ \"$__toml_private_datetime\" = \"1979-05-27\" }",
    "{ process = \"x\", \"$__toml_private_datetime\" = \"y\" }",
];

#[test]
fn every_field_reads_every_kind_of_value_alike() {
    let mut read = 0;
    for name in RULE.iter().chain(&["unknown", "Process", "classes", "\"$__toml_private_datetime\""]) {
        for value in VALUES {
            read += check(&format!("[[apps]]\n{name} = {value}\n")) as usize;
            check(&format!("apps = [{{ {name} = {value} }}]\n"));
            check(&format!("[[initial_mode_scope]]\n{name} = {value}\n"));
            check(&format!("[[initial_mode_scope]]\nprocess = \"p\"\nclasses = {value}\n"));
            check(&format!(
                "[[initial_mode_scope]]\n{name} = {value}\nother.process = 1\nclasses2 = {value}\n"
            ));
        }
    }
    assert!(read > VALUES.len() * 3);
}

#[test]
fn every_place_reads_every_kind_of_value_alike() {
    let fitting = [
        "\"p\"", "\"c\"", "true", "true", "false", "\"wait\"", "\"zh\"", "\"en\"", "true", "true",
        "\"delete_replace\"", "5", "-5", "\"more\"",
    ];
    for place in 0..=fitting.len() {
        for value in VALUES {
            let mut row: Vec<&str> = fitting[..place].to_vec();
            row.push(value);
            check(&format!("apps = [[{}]]\n", row.join(", ")));
            check(&format!("initial_mode_scope = [[{}]]\n", row.join(", ")));
        }
    }
    for value in VALUES {
        check(&format!("initial_mode_scope = [[\"p\", {value}]]\n"));
        check(&format!("initial_mode_scope = [[\"p\", \"c\", {value}]]\n"));
        check(&format!("initial_mode_scope = [[\"p\", \"c\", [], {value}]]\n"));
    }
}

#[test]
fn every_list_reads_every_kind_of_value_alike() {
    for value in VALUES {
        for name in ["apps", "initial_mode_scope", "unknown", "\"$__toml_private_datetime\""] {
            check(&format!("{name} = {value}\n"));
            check(&format!("{name} = [{value}]\n"));
            check(&format!("{name} = [{value}, {value}]\n"));
            check(&format!("[{name}]\nx = {value}\n"));
            check(&format!("[[{name}]]\nprocess = \"x\"\n[{name}.smart_method]\ny = {value}\n"));
            check(&format!("{name}.process = {value}\n"));
        }
    }
}

#[test]
fn texts_that_are_no_documents_are_refused_alike() {
    for text in [
        "",
        "\n",
        "# comment",
        "\u{feff}[[apps]]\n",
        "[[apps]]\r\nprocess = 'x'\r\n",
        "[[apps]]\rprocess = 'x'",
        "[[apps]",
        "apps",
        "apps =",
        "apps = []\napps = []",
        "[apps]\n[apps]",
        "[[apps]]\nprocess = 'a'\nprocess = 'b'",
        "[[apps]]\nprocess = \"\"\"\na\\\n   b\"\"\"",
        "[[apps]]\nprocess = \"\\ud800\"",
        "[[apps]]\nprocess = \"\\u00e9\"",
        "x = 99999999999999999999",
        "x = 1e999",
        "\u{0}",
    ] {
        check(text);
    }
}
