use karmx::model_picker::{
    collect_model_rows, confirm, cycle_effort, effort_bar, effort_label, friendly_model_name,
    query_matches, row_matches, truncate_to, visible_row_budget, visible_rows, window,
    Confirmed, Focus, ListEntry, ModelChoice, ModelRow, Overlay, OverlayOutcome, PickerKey,
    ThinkingEffort,
};
use karmx::presentation::{
    classify_diff_line, diff_summary, hint_bar, render_diff, thousands, Context, DiffLine,
    SessionStats,
};
use karmx::slash_menu::{
    builtin_entries, compose, entry_action, find_entry, picked_line, picker_positions,
    prompt_line, run, should_open, skills_line, typed, MenuAction, MenuStart,
};
use karmx::update::binary_name;

#[test]
fn friendly_names_title_case_and_keep_acronyms() {
    assert_eq!(friendly_model_name("mistral-large-4"), "Mistral Large 4");
    assert_eq!(friendly_model_name("gpt-4o"), "GPT 4o");
    assert_eq!(friendly_model_name("glm-4.5"), "GLM 4.5");
    assert_eq!(friendly_model_name("o3-mini"), "O3 Mini");
}

#[test]
fn cycle_effort_wraps_from_max_to_off() {
    assert_eq!(cycle_effort(ThinkingEffort::High), ThinkingEffort::Max);
    assert_eq!(cycle_effort(ThinkingEffort::Max), ThinkingEffort::Off);
    assert_eq!(cycle_effort(ThinkingEffort::Off), ThinkingEffort::Low);
}

#[test]
fn filter_matches_friendly_name_and_provider() {
    let row = ModelRow {
        provider: "anthropic".to_string(),
        model: "mistral-large-4".to_string(),
        reasoning: true,
        effort: ThinkingEffort::Medium,
    };
    assert!(row_matches(&row, "large"));
    assert!(row_matches(&row, "ANTHROPIC"));
    assert!(row_matches(&row, "Mistral"));
    assert!(!row_matches(&row, "gpt"));
}

#[test]
fn sidekick_list_starts_with_same_as_lead() {
    let rows = vec![ModelRow {
        provider: "openai".to_string(),
        model: "gpt-4o".to_string(),
        reasoning: false,
        effort: ThinkingEffort::Medium,
    }];
    let lead = visible_rows(&rows, Focus::Lead, "");
    assert_eq!(lead, vec![ListEntry::Model(0)]);
    let sidekick = visible_rows(&rows, Focus::Sidekick, "");
    assert_eq!(sidekick, vec![ListEntry::SameAsLead, ListEntry::Model(0)]);
}

#[test]
fn window_keeps_selection_in_view() {
    assert_eq!(window(20, 0, 5), (0, 5));
    assert_eq!(window(20, 19, 5), (15, 20));
    assert_eq!(window(3, 1, 12), (0, 3));
}

#[test]
fn two_registered_models_are_listed_current_first_without_duplicates() {
    let provider_models = vec![
        (
            "anthropic".to_string(),
            vec!["mistral-large-4".to_string(), "mistral-small-4".to_string()],
        ),
        ("openai".to_string(), vec!["gpt-4o".to_string()]),
    ];
    let rows = collect_model_rows(
        "anthropic",
        "mistral-large-4",
        &[
            ("anthropic".to_string(), "mistral-large-4".to_string()),
            ("openai".to_string(), "gpt-4o".to_string()),
        ],
        &["openai".to_string(), "anthropic".to_string()],
        &provider_models,
        ThinkingEffort::High,
        |_| false,
    );

    let pairs: Vec<(&str, &str)> = rows
        .iter()
        .map(|row| (row.provider.as_str(), row.model.as_str()))
        .collect();
    assert_eq!(
        pairs,
        vec![
            ("anthropic", "mistral-large-4"),
            ("openai", "gpt-4o"),
            ("anthropic", "mistral-small-4"),
        ]
    );
    assert_eq!(rows[0].effort, ThinkingEffort::High);
    assert!(rows
        .iter()
        .any(|row| row.provider == "openai" && row.model == "gpt-4o"));
    assert_eq!(rows.len(), 3);
}

#[test]
fn effort_names_and_bars() {
    assert_eq!(effort_label(ThinkingEffort::Off), "Off");
    assert_eq!(effort_label(ThinkingEffort::Max), "Max");
    assert_ne!(effort_bar(ThinkingEffort::Low), effort_bar(ThinkingEffort::High));
    assert!(query_matches("Mistral Large", "larg"));
    assert!(query_matches("anything", ""));
    assert!(!query_matches("gpt", "mistral"));
}

#[test]
fn confirming_a_row() {
    let rows = vec![
        ModelRow {
            provider: "anthropic".into(),
            model: "mistral-large-4".into(),
            reasoning: true,
            effort: ThinkingEffort::Low,
        },
        ModelRow {
            provider: "openai".into(),
            model: "gpt-4o".into(),
            reasoning: false,
            effort: ThinkingEffort::Medium,
        },
    ];
    let lead = visible_rows(&rows, Focus::Lead, "");
    assert_eq!(
        confirm(&rows, &lead, 0, Focus::Lead),
        Confirmed::Lead(ModelChoice {
            provider: "anthropic".into(),
            model: "mistral-large-4".into(),
            thinking: Some(ThinkingEffort::Low),
        })
    );
    assert_eq!(
        confirm(&rows, &lead, 1, Focus::Lead),
        Confirmed::Lead(ModelChoice {
            provider: "openai".into(),
            model: "gpt-4o".into(),
            thinking: None,
        })
    );
    assert_eq!(confirm(&rows, &lead, 7, Focus::Lead), Confirmed::Nothing);
    let side = visible_rows(&rows, Focus::Sidekick, "");
    assert_eq!(confirm(&rows, &side, 0, Focus::Sidekick), Confirmed::Sidekick(None));
    assert_eq!(
        confirm(&rows, &side, 2, Focus::Sidekick),
        Confirmed::Sidekick(Some(("openai".into(), "gpt-4o".into())))
    );
}

#[test]
fn overlay_keys_drive_the_selection() {
    let mut rows = vec![
        ModelRow {
            provider: "anthropic".into(),
            model: "mistral-large-4".into(),
            reasoning: true,
            effort: ThinkingEffort::Low,
        },
        ModelRow {
            provider: "openai".into(),
            model: "gpt-4o".into(),
            reasoning: false,
            effort: ThinkingEffort::Medium,
        },
    ];
    let mut o = Overlay::start(&rows, "openai", "gpt-4o", None, None);
    assert_eq!(o.selected, 1);
    assert_eq!(o.focus, Focus::Lead);
    let list = o.settle(&rows);
    let out = o.on_key(&mut rows, &list, PickerKey::Up, "openai", "gpt-4o");
    assert_eq!(out, OverlayOutcome::Continue);
    assert_eq!(o.selected, 0);
    let list = o.settle(&rows);
    let out = o.on_key(&mut rows, &list, PickerKey::Enter, "openai", "gpt-4o");
    match out {
        OverlayOutcome::Finish(c) => {
            assert_eq!(c.model, "mistral-large-4");
            assert_eq!(c.thinking, Some(ThinkingEffort::Low));
        }
        other => panic!("expected a finish, got {other:?}"),
    }
    let list = o.settle(&rows);
    assert_eq!(
        o.on_key(&mut rows, &list, PickerKey::Escape, "openai", "gpt-4o"),
        OverlayOutcome::Cancel
    );
}

#[test]
fn long_text_is_cut_with_an_ellipsis() {
    assert_eq!(truncate_to("short", 10), "short");
    let t = truncate_to("a fairly long model name", 8);
    assert!(t.ends_with('…'), "got {t:?}");
    assert!(t.chars().count() <= 8);
    assert!(visible_row_budget(40) > 0);
}

#[test]
fn idle_shows_send_and_exit() {
    let b = hint_bar(Context::Idle, 200);
    assert!(b.contains("send"));
    assert!(b.contains("exit"));
}

#[test]
fn streaming_offers_interrupt_not_exit() {
    let b = hint_bar(Context::Streaming, 200);
    assert!(b.contains("interrupt"));
    assert!(!b.contains("exit"), "exit is not the useful hint mid-stream");
}

#[test]
fn hint_bar_never_exceeds_width() {
    for w in [10, 20, 40, 80] {
        let b = hint_bar(Context::Idle, w);
        assert!(b.len() <= w, "width {w} produced {} chars: {b:?}", b.len());
    }
}

#[test]
fn narrow_terminal_still_renders_something_or_nothing() {
    let b = hint_bar(Context::Idle, 1);
    assert!(b.len() <= 1);
}

#[test]
fn stats_render_includes_turns_and_tools() {
    let s = SessionStats {
        turns: 12,
        input_tokens: 1_234,
        output_tokens: 567,
        cached_tokens: 0,
        tool_calls: 5,
        elapsed_secs: 90,
    };
    let r = s.summary_line();
    assert!(r.contains("12 turns"));
    assert!(r.contains("5 tools"));
    assert!(r.contains("1m30s"));
}

#[test]
fn thousands_separates_groups() {
    let s = SessionStats {
        input_tokens: 1_234_567,
        ..Default::default()
    };
    assert!(s.summary_line().contains("1,234,567"));
    assert_eq!(thousands(0), "0");
    assert_eq!(thousands(999), "999");
    assert_eq!(thousands(1000), "1,000");
}

#[test]
fn elapsed_formats_hours_minutes_seconds() {
    let f = |s| {
        SessionStats {
            elapsed_secs: s,
            ..Default::default()
        }
        .format_elapsed()
    };
    assert_eq!(f(45), "45s");
    assert_eq!(f(90), "1m30s");
    assert_eq!(f(3700), "1h01m");
}

#[test]
fn diff_lines_classify_correctly() {
    assert!(matches!(classify_diff_line("+added"), DiffLine::Added(_)));
    assert!(matches!(classify_diff_line("-gone"), DiffLine::Removed(_)));
    assert!(matches!(classify_diff_line("+++ b/f"), DiffLine::Header(_)));
    assert!(matches!(classify_diff_line("--- a/f"), DiffLine::Header(_)));
    assert!(matches!(classify_diff_line(" ctx"), DiffLine::Context(_)));
}

#[test]
fn diff_headers_are_not_counted_as_changes() {
    let d = "--- a/f\n+++ b/f\n+one\n-two\n ctx";
    assert_eq!(diff_summary(d), (1, 1));
}

#[test]
fn render_diff_elides_visibly() {
    let d = (0..20)
        .map(|i| format!("+line {i}"))
        .collect::<Vec<_>>()
        .join("\n");
    let r = render_diff(&d, 5);
    assert!(r.contains("line 4"));
    assert!(!r.contains("line 5"));
    assert!(
        r.contains("15 more line(s) not shown"),
        "must say what was hidden"
    );
}

#[test]
fn render_diff_includes_all_when_under_limit() {
    let r = render_diff("+a\n-b\n", 10);
    assert!(r.contains("+a") && r.contains("-b"));
    assert!(!r.contains("not shown"));
}

#[test]
fn bare_slash_opens_menu() {
    assert!(should_open("/"));
}

#[test]
fn single_token_prefix_opens_menu() {
    assert!(should_open("/modl"));
    assert!(should_open("/mode"));
}

#[test]
fn paths_and_args_do_not_open_menu() {
    assert!(!should_open("/tmp/file"));
    assert!(!should_open("/model coder"));
    assert!(!should_open("plain message"));
}

#[test]
fn compose_adds_args() {
    assert_eq!(compose("mode", "auto"), "/mode auto");
    assert_eq!(compose("new", ""), "/new");
}

#[test]
fn exact_names_run_directly_and_others_open_the_picker() {
    let entries = builtin_entries();
    match run(" /model ", &entries) {
        MenuStart::Run(i) => assert_eq!(entries[i].name, "model"),
        other => panic!("expected a direct run, got {other:?}"),
    }
    assert_eq!(run("/mo", &entries), MenuStart::Pick("mo".to_string()));
    assert_eq!(typed("  //exit "), "exit");
    assert_eq!(find_entry(&entries, "nope"), None);
}

#[test]
fn picker_puts_prefix_matches_first() {
    let entries = builtin_entries();
    let order = picker_positions(&entries, "mo");
    assert_eq!(order.len(), entries.len());
    let names: Vec<&str> = order.iter().map(|&i| entries[i].name.as_str()).collect();
    assert!(names[0].starts_with("mo") && names[1].starts_with("mo"), "got {names:?}");
    assert!(!names[2].starts_with("mo"));
}

#[test]
fn entries_map_to_their_next_step() {
    let entries = builtin_entries();
    let exit = &entries[find_entry(&entries, "exit").unwrap()];
    assert_eq!(entry_action(exit), MenuAction::Dispatch("/exit".to_string()));
    let theme = &entries[find_entry(&entries, "t").unwrap()];
    match entry_action(theme) {
        MenuAction::PickFrom { command, options, title } => {
            assert_eq!(command, "/t");
            assert_eq!(options, vec!["light", "dark", "ansi"]);
            assert_eq!(title, "Theme");
        }
        other => panic!("unexpected {other:?}"),
    }
    assert_eq!(picked_line("/mode", "auto"), "/mode auto");
    assert_eq!(skills_line(&[]), "/skills");
    assert_eq!(skills_line(&["a".to_string(), "b".to_string()]), "/skills a b");
    assert_eq!(prompt_line("review", ""), "/prompt review");
    assert_eq!(prompt_line("review", "x y"), "/prompt review x y");
}

#[test]
fn test_binary_name() {
    assert_eq!(binary_name(false), "karmx");
    assert_eq!(binary_name(true), "karmx.exe");
}

#[test]
fn sidekick_and_lead_choices_carry_the_row() {
    let mut rows = vec![
        ModelRow { provider: "p".into(), model: "m-a".into(), reasoning: true, effort: ThinkingEffort::High },
        ModelRow { provider: "q".into(), model: "m-b".into(), reasoning: false, effort: ThinkingEffort::Low },
    ];
    let mut o = Overlay::start(&rows, "p", "m-a", None, None);
    let list = o.settle(&rows);
    assert_eq!(o.on_key(&mut rows, &list, PickerKey::Tab, "p", "m-a"), OverlayOutcome::Continue);
    let list = o.settle(&rows);
    assert_eq!(list[0], ListEntry::SameAsLead);
    let _ = o.on_key(&mut rows, &list, PickerKey::Down, "p", "m-a");
    let _ = o.on_key(&mut rows, &list, PickerKey::Down, "p", "m-a");
    assert_eq!(
        o.on_key(&mut rows, &list, PickerKey::Enter, "p", "m-a"),
        OverlayOutcome::PersistSidekick(Some(("q".into(), "m-b".into())))
    );
    assert_eq!(o.focus, Focus::Lead);
    let list = o.settle(&rows);
    match o.on_key(&mut rows, &list, PickerKey::Enter, "p", "m-a") {
        OverlayOutcome::Finish(c) => assert_eq!(c.thinking, Some(ThinkingEffort::High)),
        other => panic!("expected a finish, got {other:?}"),
    }
}

#[test]
fn builtin_entries_lead_where_they_say() {
    let entries = builtin_entries();
    let at = |n: &str| entry_action(&entries[find_entry(&entries, n).unwrap()]);
    assert_eq!(at("model"), MenuAction::PickModel);
    assert_eq!(at("mode"), MenuAction::PickMode);
    assert_eq!(at("fusion"), MenuAction::PickModel);
    assert_eq!(at("sidekick"), MenuAction::Dispatch("/sidekick".into()));
    assert_eq!(
        at("builtin"),
        MenuAction::AskArgs { name: "builtin".into(), hint: "names, comma-separated".into(), required: true }
    );
    assert_eq!(entries[find_entry(&entries, "mode").unwrap()].description, "Set the karmx mode");
}
