//! The text of a file against the same file handed to the `toml` crate as nested structures.
use serde::ser::{Serialize, SerializeStruct, Serializer};
use wind_config::compat_file::{render_user_compat, USER_COMPAT_HEADER};
use wind_config::config::SmartMethod;
use wind_config::mode::{FirstShowMode, InitialMode};
use wind_config::rule::{AppCompatRule, InitialModeScopeRule};

struct Rule(AppCompatRule);

impl Serialize for Rule {
    fn serialize<S: Serializer>(&self, serializer: S) -> Result<S::Ok, S::Error> {
        let rule = &self.0;
        let mut fields = serializer.serialize_struct("AppCompatRule", 13)?;
        fields.serialize_field("process", &rule.process)?;
        if !rule.comment.is_empty() {
            fields.serialize_field("comment", &rule.comment)?;
        }
        if rule.caret_use_top {
            fields.serialize_field("caret_use_top", &true)?;
        }
        if rule.stale_probe_guard {
            fields.serialize_field("stale_probe_guard", &true)?;
        }
        if let Some(guard) = &rule.composition_start_pair_guard {
            fields.serialize_field("composition_start_pair_guard", guard)?;
        }
        if let Some(mode) = rule.first_show_mode {
            fields.serialize_field("first_show_mode", mode.as_config())?;
        }
        if let Some(mode) = rule.initial_mode {
            fields.serialize_field("initial_mode", mode.as_config())?;
        }
        if let Some(mode) = rule.initial_punct {
            fields.serialize_field("initial_punct", mode.as_config())?;
        }
        if rule.host_render {
            fields.serialize_field("host_render", &true)?;
        }
        if let Some(enabled) = &rule.auto_pair {
            fields.serialize_field("auto_pair", enabled)?;
        }
        if let Some(method) = rule.smart_method {
            fields.serialize_field("smart_method", method.as_config())?;
        }
        if rule.caret_offset_x != 0 {
            fields.serialize_field("caret_offset_x", &rule.caret_offset_x)?;
        }
        if rule.caret_offset_y != 0 {
            fields.serialize_field("caret_offset_y", &rule.caret_offset_y)?;
        }
        fields.end()
    }
}

struct Scope(InitialModeScopeRule);

impl Serialize for Scope {
    fn serialize<S: Serializer>(&self, serializer: S) -> Result<S::Ok, S::Error> {
        let mut fields = serializer.serialize_struct("InitialModeScopeRule", 3)?;
        fields.serialize_field("process", &self.0.process)?;
        if !self.0.comment.is_empty() {
            fields.serialize_field("comment", &self.0.comment)?;
        }
        fields.serialize_field("classes", &self.0.classes)?;
        fields.end()
    }
}

struct File {
    apps: Vec<Rule>,
    initial_mode_scope: Vec<Scope>,
}

impl Serialize for File {
    fn serialize<S: Serializer>(&self, serializer: S) -> Result<S::Ok, S::Error> {
        let mut fields = serializer.serialize_struct("AppCompatFile", 2)?;
        fields.serialize_field("apps", &self.apps)?;
        if !self.initial_mode_scope.is_empty() {
            fields.serialize_field("initial_mode_scope", &self.initial_mode_scope)?;
        }
        fields.end()
    }
}

fn check(rules: Vec<AppCompatRule>, scopes: Vec<InitialModeScopeRule>) {
    let file = File {
        apps: rules.iter().cloned().map(Rule).collect(),
        initial_mode_scope: scopes.iter().cloned().map(Scope).collect(),
    };
    let expected = format!("{USER_COMPAT_HEADER}{}", toml::to_string(&file).unwrap());
    assert_eq!(render_user_compat(&rules, &scopes).unwrap(), expected);
}

fn rule(seed: usize, process: &str) -> AppCompatRule {
    let bit = |n: usize| seed >> n & 1 == 1;
    AppCompatRule {
        process: process.into(),
        comment: if bit(0) { "a \\ 'note'\n".into() } else { String::new() },
        caret_use_top: bit(1),
        stale_probe_guard: bit(2),
        composition_start_pair_guard: if bit(3) { Some(bit(0)) } else { None },
        first_show_mode: if bit(4) { Some(FirstShowMode::Wait) } else { None },
        initial_mode: if bit(5) { Some(InitialMode::Chinese) } else { None },
        initial_punct: if bit(6) { Some(InitialMode::English) } else { None },
        host_render: bit(7),
        auto_pair: if bit(8) { Some(bit(1)) } else { None },
        smart_method: if bit(9) { Some(SmartMethod::HoldComposition) } else { None },
        caret_offset_x: if bit(10) { -3 } else { 0 },
        caret_offset_y: if bit(11) { 2_000_000_000 } else { 0 },
    }
}

fn scope(process: &str, classes: &[&str]) -> InitialModeScopeRule {
    InitialModeScopeRule {
        process: process.into(),
        comment: process.into(),
        classes: classes.iter().map(|class| class.to_string()).collect(),
    }
}

#[test]
fn every_choice_of_fields_is_written_as_the_structure_is() {
    for seed in 0..4096 {
        check(vec![rule(seed, "a.exe")], vec![]);
    }
}

#[test]
fn every_shape_of_file_is_written_as_the_structure_is() {
    for apps in 0..3usize {
        for scopes in 0..3usize {
            check(
                (0..apps).map(|i| rule(i * 1234, "x\"y'z")).collect(),
                (0..scopes)
                    .map(|i| scope(["", "p"][i], &["", "A", "\u{1}", "b\nc\\"][..i * 2]))
                    .collect(),
            );
        }
    }
}
