//! Reading and writing compatibility files.
use wind_config::codec::is_empty_override;
use wind_config::compat::AppCompat;
use wind_config::compat_file::{
    render_user_compat, set_user_auto_pair, set_user_caret_offset, set_user_first_show_mode,
    set_user_host_render, set_user_initial_mode, set_user_initial_punct, set_user_smart_method,
    update_user_rule, AppCompatFile, COMPAT_FILE_NAME, USER_COMPAT_HEADER,
};
use wind_config::config::SmartMethod;
use wind_config::mode::{FirstShowMode, InitialMode};
use wind_config::rule::{set_auto_pair, set_caret_offset, AppCompatRule, InitialModeScopeRule};

#[test]
fn clearing_the_last_field_removes_the_rule_entirely() {
    let text = set_user_first_show_mode(None, "et.exe", Some(FirstShowMode::Wait)).unwrap();
    assert!(text.contains("et.exe"), "a rule that is set is written");

    let text = set_user_first_show_mode(Some(&text), "et.exe", None).unwrap();
    assert!(!text.contains("et.exe"), "a rule that sets nothing is gone: {text}");
}

#[test]
fn clearing_one_field_keeps_a_rule_that_still_overrides_something() {
    let text = set_user_auto_pair(None, "excel.exe", Some(false)).unwrap();
    let text =
        set_user_first_show_mode(Some(&text), "excel.exe", Some(FirstShowMode::Wait)).unwrap();
    let text = set_user_first_show_mode(Some(&text), "excel.exe", None).unwrap();
    assert!(
        text.contains("excel.exe") && text.contains("auto_pair"),
        "the rule still sets something:\n{text}"
    );
    assert!(!text.contains("first_show_mode"), "the cleared field is gone");
}

#[test]
fn parse_per_app_pair_symbol_and_offset() {
    let toml = r#"
        [[apps]]
        process = "EXCEL.EXE"
        auto_pair = false
        caret_offset_x = -2
        caret_offset_y = 3

        [[apps]]
        process = "Tabby.exe"
        smart_method = "hold_composition"

        [[apps]]
        process = "plain.exe"
        caret_use_top = true

        [[apps]]
        process = "QQ.exe"
        composition_start_pair_guard = true
    "#;
    let compat = AppCompat::from_rules(AppCompatFile::parse(toml).unwrap().apps);

    let excel = compat.get_rule("excel.exe").unwrap();
    assert_eq!(excel.auto_pair, Some(false));
    assert_eq!((excel.caret_offset_x, excel.caret_offset_y), (-2, 3));
    assert_eq!(excel.smart_method, None, "not set");

    let tabby = compat.get_rule("TABBY.EXE").unwrap();
    assert_eq!(tabby.smart_method, Some(SmartMethod::HoldComposition));
    assert_eq!(tabby.auto_pair, None, "not set");

    let plain = compat.get_rule("plain.exe").unwrap();
    assert_eq!(plain.auto_pair, None);
    assert_eq!(plain.smart_method, None);
    assert_eq!((plain.caret_offset_x, plain.caret_offset_y), (0, 0));

    let qq = compat.get_rule("qq.exe").unwrap();
    assert_eq!(qq.composition_start_pair_guard, Some(true));
}

#[test]
fn per_app_writeback_is_sparse() {
    let mut rules = Vec::new();
    set_auto_pair(&mut rules, "EXCEL.EXE", Some(false));
    set_caret_offset(&mut rules, "WindowsTerminal.exe", 0, -4);

    let out = render_user_compat(&rules, &[]).unwrap();
    assert!(out.contains("auto_pair = false"));
    assert!(out.contains("caret_offset_y = -4"));
    assert!(!out.contains("caret_offset_x"), "zero is not written: {out}");
    assert!(!out.contains("smart_method"), "{out}");
    assert!(!out.contains("caret_use_top"), "{out}");

    set_auto_pair(&mut rules, "EXCEL.EXE", None);
    let cleared = render_user_compat(&rules, &[]).unwrap();
    assert!(!cleared.contains("auto_pair"), "{cleared}");
}

#[test]
fn parse_apps_array_and_lookup_case_insensitive() {
    let toml = r#"
        [[apps]]
        process = "Weixin.exe"
        comment = "微信"
        caret_use_top = true
    "#;
    let file = AppCompatFile::parse(toml).unwrap();
    let compat = AppCompat::from_rules(file.apps);

    let rule = compat.get_rule("weixin.exe").expect("found");
    assert!(rule.caret_use_top);
    assert!(compat.get_rule("WEIXIN.EXE").unwrap().caret_use_top);
    assert!(compat.get_rule("notepad.exe").is_none());
}

#[test]
fn caret_use_top_defaults_false_when_absent() {
    let toml = r#"
            [[apps]]
            process = "Foo.exe"
        "#;
    let file = AppCompatFile::parse(toml).unwrap();
    let compat = AppCompat::from_rules(file.apps);
    let rule = compat.get_rule("foo.exe").unwrap();
    assert!(!rule.caret_use_top);
    assert_eq!(rule.composition_start_pair_guard, None);
    assert_eq!(rule.first_show_mode, None);
    assert_eq!(rule.initial_mode, None);
    assert_eq!(rule.initial_punct, None);
}

#[test]
fn initial_mode_parses_both_values() {
    let toml = r#"
        [[apps]]
        process = "Everything.exe"
        initial_mode = "english"
        initial_punct = "chinese"
    "#;
    let file = AppCompatFile::parse(toml).unwrap();
    let compat = AppCompat::from_rules(file.apps);
    let rule = compat.get_rule("everything.exe").unwrap();
    assert_eq!(rule.initial_mode, Some(InitialMode::English));
    assert_eq!(rule.initial_punct, Some(InitialMode::Chinese));
    assert!(!rule.initial_mode.unwrap().is_chinese());
    assert!(rule.initial_punct.unwrap().is_chinese());
}

#[test]
fn unknown_initial_mode_degrades_to_none_without_killing_the_file() {
    let toml = r#"
        [[apps]]
        process = "Everything.exe"
        initial_mode = "englsh"
        caret_use_top = true

        [[apps]]
        process = "Weixin.exe"
        initial_mode = "chinese"
    "#;
    let file = AppCompatFile::parse(toml).expect("a misspelt mode does not cost the file");
    let compat = AppCompat::from_rules(file.apps);
    let bad = compat.get_rule("everything.exe").unwrap();
    assert_eq!(bad.initial_mode, None, "not set");
    assert!(bad.caret_use_top, "other fields stay");
    assert_eq!(
        compat.get_rule("weixin.exe").unwrap().initial_mode,
        Some(InitialMode::Chinese)
    );
}

#[test]
fn unknown_mode_in_toml_degrades_to_follow_global() {
    let toml = r#"
        [[apps]]
        process = "Foo.exe"
        first_show_mode = "turbo"
        caret_use_top = true
    "#;
    let file = AppCompatFile::parse(toml).expect("a misspelt mode does not cost the file");
    assert_eq!(file.apps[0].first_show_mode, None, "not set");
    assert!(file.apps[0].caret_use_top, "other fields stay");
}

#[test]
fn render_omits_false_flags_and_roundtrips() {
    let rules = vec![AppCompatRule {
        process: "EverEdit.exe".into(),
        first_show_mode: Some(FirstShowMode::Fast),
        ..Default::default()
    }];
    let text = render_user_compat(&rules, &[]).expect("rendered");
    assert!(text.contains(r#"first_show_mode = "fast""#), "{text}");
    assert!(!text.contains("caret_use_top"), "{text}");
    assert!(!text.contains("comment"), "{text}");
    assert!(text.starts_with("# 用户层应用兼容规则"), "{text}");

    let parsed = AppCompatFile::parse(&text).expect("readable");
    assert_eq!(parsed.apps.len(), 1);
    assert_eq!(parsed.apps[0].first_show_mode, Some(FirstShowMode::Fast));
    assert_eq!(parsed.apps[0].process, "EverEdit.exe");
}

#[test]
fn render_omits_none_initial_mode_and_roundtrips() {
    let rules = vec![AppCompatRule {
        process: "Everything.exe".into(),
        initial_mode: Some(InitialMode::English),
        ..Default::default()
    }];
    let text = render_user_compat(&rules, &[]).expect("rendered");
    assert!(text.contains(r#"initial_mode = "english""#), "{text}");
    assert!(!text.contains("initial_punct"), "{text}");

    let parsed = AppCompatFile::parse(&text).expect("readable");
    assert_eq!(parsed.apps[0].initial_mode, Some(InitialMode::English));
    assert_eq!(parsed.apps[0].initial_punct, None);
}

#[test]
fn host_render_defaults_false_and_omitted_from_render() {
    let toml = r#"
            [[apps]]
            process = "Foo.exe"
        "#;
    let file = AppCompatFile::parse(toml).unwrap();
    let compat = AppCompat::from_rules(file.apps);
    assert!(!compat.get_rule("foo.exe").unwrap().host_render);

    let rules = vec![AppCompatRule {
        process: "Foo.exe".into(),
        ..Default::default()
    }];
    let text = render_user_compat(&rules, &[]).expect("rendered");
    assert!(!text.contains("host_render"), "{text}");
}

#[test]
fn render_omits_false_host_render_but_keeps_true() {
    let rules = vec![
        AppCompatRule {
            process: "A.exe".into(),
            host_render: true,
            ..Default::default()
        },
        AppCompatRule {
            process: "B.exe".into(),
            host_render: false,
            ..Default::default()
        },
    ];
    let text = render_user_compat(&rules, &[]).expect("rendered");
    assert!(text.contains("host_render = true"), "{text}");

    let parsed = AppCompatFile::parse(&text).expect("readable");
    let compat = AppCompat::from_rules(parsed.apps);
    assert_eq!(compat.host_render_processes(), vec!["A.exe".to_string()]);
}

fn full_rule() -> AppCompatRule {
    AppCompatRule {
        process: "A.exe".into(),
        comment: "note".into(),
        caret_use_top: true,
        stale_probe_guard: true,
        composition_start_pair_guard: Some(false),
        first_show_mode: Some(FirstShowMode::Instant),
        initial_mode: Some(InitialMode::English),
        initial_punct: Some(InitialMode::Chinese),
        host_render: true,
        auto_pair: Some(true),
        smart_method: Some(SmartMethod::DeleteReplace),
        caret_offset_x: -7,
        caret_offset_y: 8,
    }
}

fn debugged(rules: &[AppCompatRule]) -> Vec<String> {
    rules.iter().map(|rule| format!("{rule:?}")).collect()
}

#[test]
fn a_full_file_is_written_in_the_order_of_its_fields() {
    let scopes = vec![InitialModeScopeRule {
        process: "explorer.exe".into(),
        comment: "desktop".into(),
        classes: vec!["Progman".into(), "WorkerW".into()],
    }];
    let text = render_user_compat(&[full_rule()], &scopes).unwrap();
    let body = r#"[[apps]]
process = "A.exe"
comment = "note"
caret_use_top = true
stale_probe_guard = true
composition_start_pair_guard = false
first_show_mode = "instant"
initial_mode = "english"
initial_punct = "chinese"
host_render = true
auto_pair = true
smart_method = "delete_replace"
caret_offset_x = -7
caret_offset_y = 8

[[initial_mode_scope]]
process = "explorer.exe"
comment = "desktop"
classes = ["Progman", "WorkerW"]
"#;
    assert_eq!(text, format!("{USER_COMPAT_HEADER}{body}"));

    let parsed = AppCompatFile::parse(&text).unwrap();
    assert_eq!(debugged(&parsed.apps), debugged(&[full_rule()]));
    assert_eq!(parsed.initial_mode_scope, scopes);
}

#[test]
fn an_empty_file_is_the_header_and_an_empty_list() {
    let text = render_user_compat(&[], &[]).unwrap();
    assert_eq!(text, format!("{USER_COMPAT_HEADER}apps = []\n"));
    assert_eq!(COMPAT_FILE_NAME, "compat.toml");
    assert_eq!(
        USER_COMPAT_HEADER,
        "# 用户层应用兼容规则（覆盖 / 追加系统层 data/compat.toml）\n\
         #\n\
         # ⚠ 本文件由输入法右键菜单自动管理，每次通过菜单切换开关都会整份重写，\n\
         #   手写的注释与排版不会保留。需要长期留存的说明请写在系统层 compat.toml。\n\
         #\n\
         # 合并语义：同名进程（不区分大小写）整条覆盖系统层，系统层其余规则保留。\n\
         # 例外：composition_start_pair_guard 未写时继承系统层，显式 false 才关闭。\n\
         # 字段说明见系统层 data/compat.toml 顶部注释。\n\n"
    );
}

#[test]
fn scopes_without_rules_come_after_the_empty_list() {
    let scopes = vec![InitialModeScopeRule {
        process: "a".into(),
        comment: String::new(),
        classes: Vec::new(),
    }];
    let text = render_user_compat(&[], &scopes).unwrap();
    let body = "apps = []\n\n[[initial_mode_scope]]\nprocess = \"a\"\nclasses = []\n";
    assert_eq!(text, format!("{USER_COMPAT_HEADER}{body}"));
    assert_eq!(AppCompatFile::parse(&text).unwrap().initial_mode_scope, scopes);
}

/// Whatever stands in a text or an offset, the file reads back as it was written.
#[test]
fn awkward_values_read_back() {
    let texts = [
        "",
        " ",
        "'",
        "''",
        "'''",
        "\"",
        "\"\"\"",
        "\\",
        "\\\\'",
        "it's \\ so",
        "it''s \\ so",
        "ends in \\ and '",
        "line\nbreak",
        "\nfirst",
        "last\n",
        "\\\n'''\"\"\"\n",
        "\\ \n \\",
        "\r",
        "\r\n",
        "\t",
        "\u{0}\u{7f}\u{85}\u{feff}",
        "\u{8}\u{b}\u{c}\u{1b}",
        "# not a comment",
        "[[apps]]",
        "= 1",
        "$__toml_private_datetime",
        "1979-05-27",
        "微信 😀",
        "\\u0041",
    ];
    let offsets = [0, 1, -1, 12, 25, 99, 1979, 20200101, i32::MIN, i32::MAX];
    for (i, text) in texts.iter().enumerate() {
        let rule = AppCompatRule {
            process: text.to_string(),
            comment: texts[texts.len() - 1 - i].to_string(),
            caret_offset_x: offsets[i % offsets.len()],
            caret_offset_y: offsets[(i + 3) % offsets.len()],
            ..Default::default()
        };
        let scope = InitialModeScopeRule {
            process: text.to_string(),
            comment: text.to_string(),
            classes: texts.iter().map(|text| text.to_string()).collect(),
        };
        let rules = [rule, full_rule()];
        let written = render_user_compat(&rules, &[scope.clone()]).unwrap();
        let parsed = AppCompatFile::parse(&written).expect(text);
        assert_eq!(debugged(&parsed.apps), debugged(&rules));
        assert_eq!(parsed.initial_mode_scope, vec![scope]);
    }
}

#[test]
fn every_character_reads_back() {
    for start in (0u32..0x11_0000).step_by(0x800) {
        let text: String = (start..start + 0x800).filter_map(char::from_u32).collect();
        let rule = AppCompatRule {
            process: text,
            ..Default::default()
        };
        let written = render_user_compat(&[rule.clone()], &[]).unwrap();
        let parsed = AppCompatFile::parse(&written).unwrap();
        assert_eq!(parsed.apps[0].process, rule.process);
    }
}

#[test]
fn long_runs_of_quotes_read_back() {
    for quote in ["'", "\"", "\\", "\\'", "\n'"] {
        let rule = AppCompatRule {
            process: quote.repeat(1000),
            ..Default::default()
        };
        let written = render_user_compat(&[rule.clone()], &[]).unwrap();
        assert_eq!(AppCompatFile::parse(&written).unwrap().apps[0].process, rule.process);
    }
}

#[test]
fn a_text_that_is_no_toml_is_not_read() {
    for text in ["apps = ", "[[apps]", "x = 1\nx = 2", "\u{1}", "x = 99999999999999999999"] {
        assert!(AppCompatFile::parse(text).is_none(), "{text:?}");
    }
    let empty = AppCompatFile::parse("").unwrap();
    assert!(empty.apps.is_empty() && empty.initial_mode_scope.is_empty());
}

#[test]
fn a_value_of_the_wrong_type_costs_the_file() {
    for line in [
        "process = 1",
        "comment = true",
        "caret_use_top = \"true\"",
        "caret_use_top = 1",
        "stale_probe_guard = []",
        "composition_start_pair_guard = \"false\"",
        "first_show_mode = 1",
        "initial_mode = true",
        "initial_punct = 1.5",
        "host_render = {}",
        "auto_pair = 0",
        "smart_method = \"hold\"",
        "smart_method = true",
        "smart_method = []",
        "smart_method = {}",
        "smart_method = { hold_composition = 1 }",
        "smart_method = { hold_composition = {}, delete_replace = {} }",
        "smart_method = { hold_composition = { x = 1 } }",
        "smart_method = { hold = {} }",
        "caret_offset_x = 1.0",
        "caret_offset_x = 2147483648",
        "caret_offset_y = -2147483649",
        "caret_offset_y = \"1\"",
    ] {
        let text = format!("[[apps]]\n{line}\n");
        assert!(AppCompatFile::parse(&text).is_none(), "{line}");
    }
    for text in [
        "apps = 1",
        "apps = {}",
        "apps = [1]",
        "apps = [\"x\"]",
        "apps = [1.5]",
        "apps = [true]",
        "initial_mode_scope = true",
        "initial_mode_scope = [1]",
        "[[initial_mode_scope]]\nclasses = []",
        "[[initial_mode_scope]]\nprocess = 1",
        "[[initial_mode_scope]]\nprocess = \"a\"\ncomment = 1",
        "[[initial_mode_scope]]\nprocess = \"a\"\nclasses = \"b\"",
        "[[initial_mode_scope]]\nprocess = \"a\"\nclasses = [\"b\", 1]",
        "initial_mode_scope = [[]]",
        "initial_mode_scope = [1979-05-27]",
    ] {
        assert!(AppCompatFile::parse(text).is_none(), "{text}");
    }
}

#[test]
fn a_record_may_be_an_inline_table_or_a_list_of_fields() {
    let text = r#"
        apps = [
            { process = "a.exe", smart_method = { hold_composition = {} }, unknown = [1, 2] },
            ["b.exe", "note", true, false, true, "FAST", "en", "zh", true, false, "delete_replace", 1, -1, "more"],
            ["c.exe"],
            [],
            {},
            1979-05-27,
        ]
        initial_mode_scope = [["d.exe", "note", ["X"], 1], ["e.exe"]]
        other = { apps = 1 }
    "#;
    let file = AppCompatFile::parse(text).unwrap();
    let expected = [
        AppCompatRule {
            process: "a.exe".into(),
            smart_method: Some(SmartMethod::HoldComposition),
            ..Default::default()
        },
        AppCompatRule {
            process: "b.exe".into(),
            comment: "note".into(),
            caret_use_top: true,
            stale_probe_guard: false,
            composition_start_pair_guard: Some(true),
            first_show_mode: Some(FirstShowMode::Fast),
            initial_mode: Some(InitialMode::English),
            initial_punct: Some(InitialMode::Chinese),
            host_render: true,
            auto_pair: Some(false),
            smart_method: Some(SmartMethod::DeleteReplace),
            caret_offset_x: 1,
            caret_offset_y: -1,
        },
        AppCompatRule {
            process: "c.exe".into(),
            ..Default::default()
        },
        AppCompatRule::default(),
        AppCompatRule::default(),
        AppCompatRule::default(),
    ];
    assert_eq!(debugged(&file.apps), debugged(&expected));
    assert_eq!(
        file.initial_mode_scope,
        vec![
            InitialModeScopeRule {
                process: "d.exe".into(),
                comment: "note".into(),
                classes: vec!["X".into()],
            },
            InitialModeScopeRule {
                process: "e.exe".into(),
                ..Default::default()
            },
        ]
    );
}

#[test]
fn a_table_read_elsewhere_is_taken_like_its_text() {
    let text = "[[apps]]\nprocess = \"a.exe\"\nhost_render = true\n";
    let document = text.parse::<toml_edit::Document>().unwrap();
    let file = AppCompatFile::from_table(document.as_table()).unwrap();
    assert_eq!(file.apps.len(), 1);
    assert!(file.apps[0].host_render);
    let document = "apps = 1".parse::<toml_edit::Document>().unwrap();
    assert!(AppCompatFile::from_table(document.as_table()).is_none());
}

#[test]
fn the_smallest_and_the_largest_offset_are_read() {
    let text = "[[apps]]\ncaret_offset_x = -2147483648\ncaret_offset_y = 2147483647\n";
    let rule = &AppCompatFile::parse(text).unwrap().apps[0];
    assert_eq!((rule.caret_offset_x, rule.caret_offset_y), (i32::MIN, i32::MAX));
}

#[test]
fn a_rule_sets_nothing_only_while_every_field_is_neutral() {
    assert!(is_empty_override(&AppCompatRule::default()));
    let named = AppCompatRule {
        process: "a.exe".into(),
        ..Default::default()
    };
    assert!(is_empty_override(&named));
    let edits: [fn(&mut AppCompatRule); 12] = [
        |rule| rule.comment = "x".into(),
        |rule| rule.caret_use_top = true,
        |rule| rule.stale_probe_guard = true,
        |rule| rule.composition_start_pair_guard = Some(false),
        |rule| rule.first_show_mode = Some(FirstShowMode::Fast),
        |rule| rule.initial_mode = Some(InitialMode::English),
        |rule| rule.initial_punct = Some(InitialMode::English),
        |rule| rule.host_render = true,
        |rule| rule.auto_pair = Some(false),
        |rule| rule.smart_method = Some(SmartMethod::DeleteReplace),
        |rule| rule.caret_offset_x = -1,
        |rule| rule.caret_offset_y = 1,
    ];
    for edit in edits {
        let mut rule = named.clone();
        edit(&mut rule);
        assert!(!is_empty_override(&rule), "{rule:?}");
        let text = update_user_rule(None, "a.exe", edit).unwrap();
        let file = AppCompatFile::parse(&text).unwrap();
        assert_eq!(debugged(&file.apps), debugged(&[rule]));
    }
}

#[test]
fn settings_add_up_in_the_user_file() {
    let text = set_user_initial_mode(None, "A.exe", Some(InitialMode::English)).unwrap();
    let text = set_user_initial_punct(Some(&text), "a.exe", Some(InitialMode::Chinese)).unwrap();
    let text = set_user_host_render(Some(&text), "a.exe", true).unwrap();
    let text =
        set_user_smart_method(Some(&text), "a.exe", Some(SmartMethod::HoldComposition)).unwrap();
    let text = set_user_caret_offset(Some(&text), "a.exe", 2, 0).unwrap();
    let text = set_user_auto_pair(Some(&text), "b.exe", Some(true)).unwrap();
    let expected = [
        AppCompatRule {
            process: "A.exe".into(),
            initial_mode: Some(InitialMode::English),
            initial_punct: Some(InitialMode::Chinese),
            host_render: true,
            smart_method: Some(SmartMethod::HoldComposition),
            caret_offset_x: 2,
            ..Default::default()
        },
        AppCompatRule {
            process: "b.exe".into(),
            auto_pair: Some(true),
            ..Default::default()
        },
    ];
    assert_eq!(
        debugged(&AppCompatFile::parse(&text).unwrap().apps),
        debugged(&expected)
    );
    assert_eq!(text, render_user_compat(&expected, &[]).unwrap());
}

#[test]
fn an_unreadable_user_file_is_built_anew() {
    let text = set_user_host_render(Some("[[apps]\nprocess ="), "a.exe", true).unwrap();
    assert_eq!(text, set_user_host_render(None, "a.exe", true).unwrap());
}

#[test]
fn an_update_drops_bare_rules_and_keeps_scopes() {
    let before = r#"
        [[apps]]
        process = "bare.exe"

        [[apps]]
        process = "kept.exe"
        comment = "x"

        [[initial_mode_scope]]
        process = "explorer.exe"
        classes = ["Progman"]
    "#;
    let text = update_user_rule(Some(before), "new.exe", |rule| rule.caret_use_top = true).unwrap();
    let file = AppCompatFile::parse(&text).unwrap();
    let names: Vec<&str> = file.apps.iter().map(|rule| rule.process.as_str()).collect();
    assert_eq!(names, vec!["kept.exe", "new.exe"]);
    assert_eq!(
        file.initial_mode_scope,
        vec![InitialModeScopeRule {
            process: "explorer.exe".into(),
            comment: String::new(),
            classes: vec!["Progman".into()],
        }]
    );
}

#[test]
fn later_layers_override_earlier_ones() {
    let data = r#"
        [[apps]]
        process = "a.exe"
        caret_use_top = true
        composition_start_pair_guard = true

        [[apps]]
        process = "b.exe"
        host_render = true

        [[initial_mode_scope]]
        process = "a.exe"
        classes = ["Main"]
    "#;
    let custom = "[[apps]]\nprocess = \"B.exe\"\ncomment = \"vendor\"\n";
    let user = "[[apps]]\nprocess = \"A.exe\"\ncaret_offset_x = 1\n";
    let compat = AppCompat::load_layered(Some(data), Some(custom), Some(user));
    let a = compat.get_rule("a.exe").unwrap();
    assert_eq!(a.process, "A.exe");
    assert!(!a.caret_use_top);
    assert_eq!(a.caret_offset_x, 1);
    assert_eq!(a.composition_start_pair_guard, Some(true));
    let b = compat.get_rule("b.exe").unwrap();
    assert_eq!(b.comment, "vendor");
    assert!(!b.host_render);
    assert!(compat.initial_mode_applies_to_window("a.exe", "main"));
    assert!(!compat.initial_mode_applies_to_window("a.exe", "other"));
}

#[test]
fn missing_and_unreadable_layers_count_for_nothing() {
    let data = "[[apps]]\nprocess = \"a.exe\"\n";
    for compat in [
        AppCompat::load_layered(Some(data), None, None),
        AppCompat::load_layered(Some(data), Some("["), Some("apps = 1")),
        AppCompat::load_layered(None, Some(data), Some("")),
        AppCompat::load_layered(Some("["), None, Some(data)),
    ] {
        assert!(compat.get_rule("a.exe").is_some());
        assert!(compat.get_rule("b.exe").is_none());
    }
    let nothing = AppCompat::load_layered(None, None, None);
    assert!(nothing.get_rule("a.exe").is_none());
}

#[test]
fn a_cleared_setting_uncovers_the_system_rule() {
    let data = "[[apps]]\nprocess = \"et.exe\"\nfirst_show_mode = \"wait\"\n";
    let user = set_user_first_show_mode(None, "ET.EXE", Some(FirstShowMode::Fast)).unwrap();
    let compat = AppCompat::load_layered(Some(data), None, Some(&user));
    assert_eq!(
        compat.get_rule("et.exe").unwrap().first_show_mode,
        Some(FirstShowMode::Fast)
    );
    let user = set_user_first_show_mode(Some(&user), "et.exe", None).unwrap();
    let compat = AppCompat::load_layered(Some(data), None, Some(&user));
    assert_eq!(
        compat.get_rule("et.exe").unwrap().first_show_mode,
        Some(FirstShowMode::Wait)
    );
}

/// No key has a meaning beside those of the fields, wherever it stands.
#[test]
fn a_key_that_looks_like_the_mark_of_a_date_is_any_other_key() {
    for value in ["1", "\"1979-05-27\"", "\"x\"", "{}"] {
        let text = format!(
            "[[apps]]\n\"$__toml_private_datetime\" = {value}\nprocess = \"a.exe\"\nhost_render = true\n\
             [other]\n\"$__toml_private_datetime\" = {value}\n"
        );
        let file = AppCompatFile::parse(&text).unwrap();
        assert_eq!(file.apps[0].process, "a.exe");
        assert!(file.apps[0].host_render);
        let inline = format!(
            "apps = [{{ \"$__toml_private_datetime\" = {value}, process = \"b.exe\" }}]\n\
             initial_mode_scope = [{{ \"\\u0024__toml_private_datetime\" = {value}, process = \"c.exe\" }}]\n"
        );
        let file = AppCompatFile::parse(&inline).unwrap();
        assert_eq!(file.apps[0].process, "b.exe");
        assert_eq!(file.initial_mode_scope[0].process, "c.exe");
    }
}

#[test]
fn dotted_keys_and_headers_read_like_braces() {
    for text in [
        "[[apps]]\nprocess = \"a.exe\"\nsmart_method.hold_composition = {}\n",
        "[[apps]]\nprocess = \"a.exe\"\n[apps.smart_method.hold_composition]\n",
        "apps = [{ process = \"a.exe\", smart_method.hold_composition = {} }]\n",
    ] {
        let file = AppCompatFile::parse(text).unwrap();
        assert_eq!(file.apps[0].smart_method, Some(SmartMethod::HoldComposition), "{text}");
    }
}

/// A table that a program changed may hold arrays with emptied slots; those are no records.
#[test]
fn an_emptied_slot_of_an_array_is_no_record() {
    let text = "apps = [{ process = \"a.exe\" }, [\"b.exe\"]]\n\
                [[initial_mode_scope]]\nprocess = \"a.exe\"\nclasses = [\"X\"]\n";
    let document = text.parse::<toml_edit::Document>().unwrap();
    assert_eq!(AppCompatFile::from_table(document.as_table()).unwrap().apps.len(), 2);

    let mut changed = document.clone();
    changed["apps"][0] = toml_edit::Item::None;
    assert!(AppCompatFile::from_table(changed.as_table()).is_none());

    let mut changed = document.clone();
    changed["apps"][1][0] = toml_edit::Item::None;
    assert!(AppCompatFile::from_table(changed.as_table()).is_none());

    let mut changed = document.clone();
    changed["initial_mode_scope"][0]["classes"][0] = toml_edit::Item::None;
    assert!(AppCompatFile::from_table(changed.as_table()).is_none());

    let mut changed = document.clone();
    changed["initial_mode_scope"][0] = toml_edit::Item::None;
    assert!(AppCompatFile::from_table(changed.as_table()).is_none());

    let mut changed = document;
    changed["initial_mode_scope"] = toml_edit::Item::None;
    let file = AppCompatFile::from_table(changed.as_table()).unwrap();
    assert!(file.initial_mode_scope.is_empty());
}

#[test]
fn nested_values_that_nobody_reads_are_passed_over() {
    let nested = format!("{}{}", "[".repeat(100), "]".repeat(100));
    let dotted = vec!["x"; 100].join(".");
    let text = format!("other = {nested}\n{dotted} = 1\n[[apps]]\nprocess = \"a.exe\"\n");
    assert_eq!(AppCompatFile::parse(&text).unwrap().apps[0].process, "a.exe");
}
