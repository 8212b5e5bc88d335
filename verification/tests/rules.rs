//! Modes, rules and their edits, and merging.
use wind_config::compat::AppCompat;
use wind_config::config::{SmartMethod, UiCandidateConfig};
use wind_config::merge::{merge_mode_scope, merge_rules};
use wind_config::mode::{FirstShowMode, InitialMode};
use wind_config::rule::{
    set_auto_pair, set_caret_offset, set_first_show_mode, set_host_render, set_initial_mode,
    set_initial_punct, set_smart_method, upsert_rule, AppCompatRule, InitialModeScopeRule,
};

#[test]
fn user_rules_override_system_by_process_name() {
    let base = vec![AppCompatRule {
        process: "Weixin.exe".into(),
        caret_use_top: true,
        ..Default::default()
    }];
    let user = vec![AppCompatRule {
        process: "weixin.exe".into(),
        caret_use_top: false,
        ..Default::default()
    }];
    let rules = merge_rules(base, user);
    assert_eq!(rules.len(), 1);
    let merged = AppCompat::from_rules(rules);
    assert!(!merged.get_rule("Weixin.exe").unwrap().caret_use_top);
}

#[test]
fn protocol_guard_inherits_through_sparse_override_but_false_can_disable_it() {
    let base_rule = AppCompatRule {
        process: "QQ.exe".into(),
        composition_start_pair_guard: Some(true),
        ..Default::default()
    };
    let sparse_user = AppCompatRule {
        process: "qq.exe".into(),
        first_show_mode: Some(FirstShowMode::Wait),
        ..Default::default()
    };
    let merged = AppCompat::from_rules(merge_rules(vec![base_rule.clone()], vec![sparse_user]));
    let inherited = merged.get_rule("QQ.exe").unwrap();
    assert_eq!(inherited.composition_start_pair_guard, Some(true));
    assert_eq!(inherited.first_show_mode, Some(FirstShowMode::Wait));

    let explicit_off = AppCompatRule {
        process: "qq.exe".into(),
        composition_start_pair_guard: Some(false),
        ..Default::default()
    };
    let merged = AppCompat::from_rules(merge_rules(vec![base_rule], vec![explicit_off]));
    assert_eq!(
        merged.get_rule("QQ.exe").unwrap().composition_start_pair_guard,
        Some(false),
        "an explicit false overrides the lower layer"
    );
}

#[test]
fn empty_user_keeps_base() {
    let base = vec![AppCompatRule {
        process: "Weixin.exe".into(),
        caret_use_top: true,
        ..Default::default()
    }];
    let merged = merge_rules(base, vec![]);
    assert_eq!(merged.len(), 1);
    assert!(merged[0].caret_use_top);
}

#[test]
fn set_mode_on_existing_rule_keeps_other_fields() {
    let mut rules = vec![AppCompatRule {
        process: "Weixin.exe".into(),
        comment: "微信".into(),
        caret_use_top: true,
        ..Default::default()
    }];
    set_first_show_mode(&mut rules, "weixin.exe", Some(FirstShowMode::Fast));
    assert_eq!(rules.len(), 1, "a match adds no rule");
    assert_eq!(rules[0].first_show_mode, Some(FirstShowMode::Fast));
    assert!(rules[0].caret_use_top, "other fields stay");
    assert_eq!(rules[0].comment, "微信");
    set_first_show_mode(&mut rules, "Weixin.EXE", Some(FirstShowMode::Instant));
    assert_eq!(rules[0].first_show_mode, Some(FirstShowMode::Instant));
    set_first_show_mode(&mut rules, "Weixin.EXE", None);
    assert_eq!(rules[0].first_show_mode, None);
    assert!(rules[0].caret_use_top, "clearing the mode clears nothing else");
}

#[test]
fn set_mode_appends_minimal_rule_when_absent() {
    let mut rules: Vec<AppCompatRule> = Vec::new();
    set_first_show_mode(&mut rules, "EverEdit.exe", Some(FirstShowMode::Fast));
    assert_eq!(rules.len(), 1);
    assert_eq!(rules[0].process, "EverEdit.exe", "the name is kept as given");
    assert_eq!(rules[0].first_show_mode, Some(FirstShowMode::Fast));
    assert!(!rules[0].caret_use_top);
}

#[test]
fn mode_parses_from_config_and_rejects_unknown() {
    assert_eq!(
        FirstShowMode::from_config("fast"),
        Some(FirstShowMode::Fast)
    );
    assert_eq!(
        FirstShowMode::from_config(" INSTANT "),
        Some(FirstShowMode::Instant)
    );
    assert_eq!(
        FirstShowMode::from_config("wait"),
        Some(FirstShowMode::Wait)
    );
    assert_eq!(FirstShowMode::from_config("turbo"), None);
    assert_eq!(FirstShowMode::Fast.as_config(), "fast");
}

#[test]
fn default_mode_is_fast() {
    assert_eq!(FirstShowMode::default(), FirstShowMode::Fast);
}

#[test]
fn global_default_config_value_matches_enum_default() {
    let factory = UiCandidateConfig::default().first_show_mode;
    assert_eq!(
        FirstShowMode::from_config(&factory),
        Some(FirstShowMode::default()),
        "factory mode {factory:?}"
    );
}

#[test]
fn set_initial_mode_upserts_and_clears() {
    let mut rules = vec![AppCompatRule {
        process: "Everything.exe".into(),
        comment: "搜索框默认英文".into(),
        caret_use_top: true,
        ..Default::default()
    }];
    set_initial_mode(&mut rules, "everything.exe", Some(InitialMode::English));
    assert_eq!(rules.len(), 1, "a match adds no rule");
    assert_eq!(rules[0].initial_mode, Some(InitialMode::English));
    assert!(rules[0].caret_use_top, "other fields stay");
    assert_eq!(rules[0].comment, "搜索框默认英文");

    set_initial_punct(&mut rules, "Everything.EXE", Some(InitialMode::English));
    assert_eq!(rules[0].initial_punct, Some(InitialMode::English));
    assert_eq!(rules[0].initial_mode, Some(InitialMode::English));

    set_initial_mode(&mut rules, "Everything.exe", None);
    assert_eq!(rules[0].initial_mode, None);
    assert_eq!(
        rules[0].initial_punct,
        Some(InitialMode::English),
        "only the language is cleared"
    );

    set_initial_mode(&mut rules, "cmd.exe", Some(InitialMode::English));
    assert_eq!(rules.len(), 2);
    assert_eq!(rules[1].process, "cmd.exe", "the name is kept as given");
    assert_eq!(rules[1].initial_mode, Some(InitialMode::English));
    assert!(!rules[1].caret_use_top);
}

#[test]
fn set_host_render_upserts_and_host_render_processes_collects_only_enabled() {
    let mut rules = vec![
        AppCompatRule {
            process: "Weixin.exe".into(),
            caret_use_top: true,
            ..Default::default()
        },
        AppCompatRule {
            process: "SearchHost.exe".into(),
            ..Default::default()
        },
    ];
    set_host_render(&mut rules, "searchhost.exe", true);
    assert_eq!(rules.len(), 2, "a match adds no rule");
    assert!(rules[1].host_render);
    assert!(rules[0].caret_use_top, "other rules stay");

    let compat = AppCompat::from_rules(rules);
    assert_eq!(
        compat.host_render_processes(),
        vec!["SearchHost.exe".to_string()],
        "only enabled processes, named as in their rules"
    );
}

#[test]
fn modes_read_back_from_their_names() {
    for mode in [FirstShowMode::Wait, FirstShowMode::Fast, FirstShowMode::Instant] {
        assert_eq!(FirstShowMode::from_config(mode.as_config()), Some(mode));
    }
    for mode in [InitialMode::English, InitialMode::Chinese] {
        assert_eq!(InitialMode::from_config(mode.as_config()), Some(mode));
        assert_eq!(InitialMode::from_chinese(mode.is_chinese()), mode);
    }
    for method in [SmartMethod::DeleteReplace, SmartMethod::HoldComposition] {
        assert_eq!(SmartMethod::from_config(method.as_config()), Some(method));
    }
    assert_eq!(InitialMode::English.as_config(), "english");
    assert_eq!(InitialMode::Chinese.as_config(), "chinese");
    assert_eq!(SmartMethod::HoldComposition.as_config(), "hold_composition");
    assert_eq!(SmartMethod::DeleteReplace.as_config(), "delete_replace");
}

#[test]
fn initial_modes_have_short_names_and_no_fallback() {
    assert_eq!(InitialMode::from_config(" EN\t"), Some(InitialMode::English));
    assert_eq!(InitialMode::from_config("\nZh "), Some(InitialMode::Chinese));
    assert_eq!(InitialMode::from_config("English"), Some(InitialMode::English));
    assert_eq!(InitialMode::from_config("englsh"), None);
    assert_eq!(InitialMode::from_config(""), None);
    assert_eq!(InitialMode::from_config("zh en"), None);
}

#[test]
fn replacement_methods_are_spelt_exactly() {
    assert_eq!(SmartMethod::from_config("Hold_Composition"), None);
    assert_eq!(SmartMethod::from_config(" hold_composition"), None);
    assert_eq!(SmartMethod::from_config("hold-composition"), None);
}

/// The characters that are trimmed are exactly the white space listed here.
#[test]
fn white_space_around_a_name_is_what_unicode_calls_so() {
    let white = |c: char| {
        matches!(
            c,
            '\u{9}'..='\u{d}'
                | ' '
                | '\u{85}'
                | '\u{a0}'
                | '\u{1680}'
                | '\u{2000}'..='\u{200a}'
                | '\u{2028}'
                | '\u{2029}'
                | '\u{202f}'
                | '\u{205f}'
                | '\u{3000}'
        )
    };
    for c in '\0'..=char::MAX {
        let found = FirstShowMode::from_config(&format!("{c}wait{c}"));
        assert_eq!(found.is_some(), white(c), "{c:?}");
    }
}

/// Only ASCII letters change case.
#[test]
fn case_is_folded_for_ascii_alone() {
    let rules = vec![AppCompatRule {
        process: "ÄPP.EXE".into(),
        ..Default::default()
    }];
    let compat = AppCompat::from_rules(rules);
    assert!(compat.get_rule("Äpp.exe").is_some());
    assert!(compat.get_rule("äpp.exe").is_none());
    for c in '\0'..='\u{ff}' {
        let upper = format!("{c}X");
        let folds = c.is_ascii_uppercase();
        let compat = AppCompat::from_rules(vec![AppCompatRule {
            process: upper,
            ..Default::default()
        }]);
        let lower = format!("{}x", c.to_ascii_lowercase());
        assert!(compat.get_rule(&lower).is_some(), "{c:?}");
        let other = format!("{}x", ((c as u8) ^ 0x20) as char);
        assert_eq!(
            compat.get_rule(&other).is_some(),
            folds || c.is_ascii_lowercase(),
            "{c:?}"
        );
    }
}

#[test]
fn setters_touch_their_own_field() {
    let mut rules: Vec<AppCompatRule> = Vec::new();
    set_auto_pair(&mut rules, "a.exe", Some(true));
    set_smart_method(&mut rules, "A.EXE", Some(SmartMethod::DeleteReplace));
    set_caret_offset(&mut rules, "a.EXE", i32::MIN, i32::MAX);
    set_initial_punct(&mut rules, "a.exe", Some(InitialMode::Chinese));
    set_host_render(&mut rules, "a.exe", true);
    assert_eq!(rules.len(), 1);
    let rule = &rules[0];
    assert_eq!(rule.process, "a.exe");
    assert_eq!(rule.auto_pair, Some(true));
    assert_eq!(rule.smart_method, Some(SmartMethod::DeleteReplace));
    assert_eq!((rule.caret_offset_x, rule.caret_offset_y), (i32::MIN, i32::MAX));
    assert_eq!(rule.initial_punct, Some(InitialMode::Chinese));
    assert!(rule.host_render);
    assert_eq!(rule.comment, "");
    assert!(!rule.caret_use_top);
    assert!(!rule.stale_probe_guard);
    assert_eq!(rule.composition_start_pair_guard, None);
    assert_eq!(rule.first_show_mode, None);
    assert_eq!(rule.initial_mode, None);
}

#[test]
fn the_first_of_several_rules_is_edited_and_the_last_one_applies() {
    let twice = || {
        vec![
            AppCompatRule {
                process: "A.exe".into(),
                ..Default::default()
            },
            AppCompatRule {
                process: "a.exe".into(),
                caret_use_top: true,
                ..Default::default()
            },
        ]
    };
    let mut rules = twice();
    upsert_rule(&mut rules, "a.exe", |rule| rule.comment = "edited".to_string());
    assert_eq!(rules[0].comment, "edited");
    assert_eq!(rules[1].comment, "");
    let compat = AppCompat::from_rules(twice());
    let rule = compat.get_rule("A.EXE").unwrap();
    assert_eq!(rule.process, "a.exe");
    assert!(rule.caret_use_top);
}

#[test]
fn edits_of_one_rule_compose() {
    let mut twice = vec![AppCompatRule {
        process: "B.exe".into(),
        ..Default::default()
    }];
    set_first_show_mode(&mut twice, "A.exe", Some(FirstShowMode::Wait));
    set_first_show_mode(&mut twice, "a.exe", Some(FirstShowMode::Instant));
    assert_eq!(twice.len(), 2);
    assert_eq!(twice[0].first_show_mode, None);
    assert_eq!(twice[1].process, "A.exe");
    assert_eq!(twice[1].first_show_mode, Some(FirstShowMode::Instant));
}

#[test]
fn merging_keeps_the_order_and_the_rules_of_other_processes() {
    let rule = |process: &str, x: i32| AppCompatRule {
        process: process.into(),
        caret_offset_x: x,
        ..Default::default()
    };
    let merged = merge_rules(
        vec![rule("a", 1), rule("b", 2), rule("C", 3)],
        vec![rule("d", 4), rule("B", 5)],
    );
    let seen: Vec<(&str, i32)> = merged
        .iter()
        .map(|rule| (rule.process.as_str(), rule.caret_offset_x))
        .collect();
    assert_eq!(seen, vec![("a", 1), ("C", 3), ("d", 4), ("B", 5)]);
}

#[test]
fn the_guard_comes_from_the_last_lower_rule() {
    let rule = |guard: Option<bool>| AppCompatRule {
        process: "q".into(),
        composition_start_pair_guard: guard,
        ..Default::default()
    };
    let merged = merge_rules(vec![rule(Some(true)), rule(None)], vec![rule(None)]);
    assert_eq!(merged.len(), 1);
    assert_eq!(merged[0].composition_start_pair_guard, None);
    let merged = merge_rules(vec![rule(None), rule(Some(false))], vec![rule(None)]);
    assert_eq!(merged[0].composition_start_pair_guard, Some(false));
}

#[test]
fn merging_scopes_keeps_those_of_other_processes() {
    let scope = |process: &str, class: &str| InitialModeScopeRule {
        process: process.into(),
        comment: String::new(),
        classes: vec![class.into()],
    };
    let merged = merge_mode_scope(
        vec![scope("a", "1"), scope("b", "2")],
        vec![scope("A", "3"), scope("c", "4")],
    );
    assert_eq!(merged, vec![scope("b", "2"), scope("A", "3"), scope("c", "4")]);
}

#[test]
fn clones_answer_like_the_original() {
    let rules = vec![AppCompatRule {
        process: "A.exe".into(),
        host_render: true,
        ..Default::default()
    }];
    let scopes = vec![InitialModeScopeRule {
        process: "A.exe".into(),
        comment: String::new(),
        classes: vec!["Main".into()],
    }];
    let compat = AppCompat::from_parts(rules, scopes);
    let copy = compat.clone();
    drop(compat);
    assert_eq!(copy.host_render_processes(), vec!["A.exe".to_string()]);
    assert!(copy.get_rule("a.exe").is_some());
    assert!(copy.initial_mode_applies_to_window("a.exe", "MAIN"));
    assert!(!copy.initial_mode_applies_to_window("a.exe", "other"));

    let nothing = AppCompat::default();
    assert!(nothing.get_rule("a.exe").is_none());
    assert!(nothing.host_render_processes().is_empty());
    assert!(nothing.initial_mode_applies_to_window("a.exe", "other"));
}

#[test]
fn it_does_not_matter_which_layers_are_merged_first() {
    let rule = |process: &str, x: i32, guard: Option<bool>| AppCompatRule {
        process: process.into(),
        caret_offset_x: x,
        composition_start_pair_guard: guard,
        ..Default::default()
    };
    let low = || vec![rule("a", 1, Some(true)), rule("b", 2, None), rule("c", 3, Some(false))];
    let middle = || vec![rule("A", 4, None), rule("d", 5, Some(true)), rule("C", 6, None)];
    let high = || vec![rule("a", 7, None), rule("D", 8, None), rule("e", 9, None)];
    let left = merge_rules(merge_rules(low(), middle()), high());
    let right = merge_rules(low(), merge_rules(middle(), high()));
    assert_eq!(format!("{left:?}"), format!("{right:?}"));
    assert_eq!(left.len(), 5);
    assert_eq!(left[2].process, "a");
    assert_eq!(left[2].composition_start_pair_guard, Some(true));
    assert_eq!(left[1].composition_start_pair_guard, Some(false));
    let alone = merge_rules(vec![], high());
    assert_eq!(format!("{alone:?}"), format!("{:?}", high()));

    let scope = |process: &str, class: &str| InitialModeScopeRule {
        process: process.into(),
        comment: String::new(),
        classes: vec![class.into()],
    };
    let low = || vec![scope("a", "1"), scope("b", "2")];
    let middle = || vec![scope("A", "3"), scope("c", "4")];
    let high = || vec![scope("C", "5")];
    let left = merge_mode_scope(merge_mode_scope(low(), middle()), high());
    let right = merge_mode_scope(low(), merge_mode_scope(middle(), high()));
    assert_eq!(left, right);
    assert_eq!(merge_mode_scope(vec![], high()), high());
    assert_eq!(merge_mode_scope(low(), vec![]), low());
}
