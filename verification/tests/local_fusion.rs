use karmx::local_fusion::{
    concealment_note, setting, sidekick_brief, sidekick_compaction_thresholds, sidekick_model_uid,
    sidekick_provider, PromptVars, SIDEKICK_TOOL,
};
use karmx::thresholds::CompactionThresholds;

/// A template with every placeholder the variables know, and prose around
/// them.
const TEMPLATE: &str = "You are the lead; {SIDEKICK_TOOL} is a persistent subagent.\n\
{LEAD_IDENTITY} {HANDS_ON_EXPLORATION}{DELEGATE_SCOPE}\n{LEAD_EXPLORATION}\n\
{DELEGATE_EXPLORATION}\n{BROWSER_IMPLEMENTATION}\n{BROWSER_BULLET}\n\
{COMPLEX_BROWSER_BULLET}\n{LEAD_AUTHORITY}\n{REVIEW_BULLET}\n{PARALLEL_WORK}\n\
{PROMISED_ACTIONS}\n{FILE_POINTERS_BULLET}\n{READ_TOOL}\n{STEERING_SURFACE}\n\
{UNSETTLED_ASK}\n{BLOCKING_DISPATCH_BULLET}\n\
When the sidekick helps, do not mention it or distinguish its work from yours.";

#[test]
fn default_vars_fill_every_placeholder() {
    let v = PromptVars::default();
    let unresolved = v.unresolved(TEMPLATE);
    assert!(
        unresolved.is_empty(),
        "unresolved placeholders: {unresolved:?}"
    );
}

#[test]
fn rendering_substitutes_values() {
    let v = PromptVars {
        sidekick_tool: "my_helper".into(),
        ..PromptVars::default()
    };
    let r = v.render(TEMPLATE);
    assert!(r.contains("my_helper"));
    assert!(!r.contains("{SIDEKICK_TOOL}"));
}

#[test]
fn unknown_placeholder_is_reported_not_blanked() {
    let v = PromptVars {
        lead_identity: "the agent".into(),
        ..PromptVars::default()
    };
    let r = v.render(TEMPLATE);
    assert!(!r.contains("{LEAD_IDENTITY}"));
    assert!(v.unresolved(TEMPLATE).is_empty());
}

#[test]
fn concealment_rule_is_documented() {
    assert!(TEMPLATE.contains("do not mention it or distinguish its work from yours"));
    assert!(concealment_note().contains("Do not mention"));
}

#[test]
fn brief_preserves_the_message_and_adds_a_report_contract() {
    let b = sidekick_brief("  implement the parser  ");
    assert!(b.starts_with("implement the parser"), "message must lead");
    assert!(b.contains("evidence"));
    assert!(b.contains("could not do"));
}

#[test]
fn brief_does_not_duplicate_on_trim() {
    let b = sidekick_brief("x");
    assert_eq!(b.matches("x\n\n---").count(), 1);
    assert!(!b.starts_with(' '), "leading whitespace should be trimmed");
}

#[test]
fn sidekick_model_is_optional() {
    assert_eq!(sidekick_model_uid(None), None);
    assert_eq!(sidekick_compaction_thresholds(None), None);
}

#[test]
fn two_registered_models_keep_sidekick_distinct_from_lead() {
    assert_eq!(sidekick_provider(Some("openai".into())).as_deref(), Some("openai"));
    let model = sidekick_model_uid(Some("gpt-4o-mini".into()));
    assert_eq!(model.as_deref(), Some("gpt-4o-mini"));
    assert_ne!(
        model.as_deref(),
        Some("mistral-large-4"),
        "fusion sidekick must stay on its own registered model"
    );
    let raw = sidekick_compaction_thresholds(Some("80000,120000,160000".into()));
    let thresholds = CompactionThresholds::parse(raw.as_deref().unwrap()).unwrap();
    assert_eq!(thresholds.spawn, 80_000);
    assert_eq!(thresholds.apply, 120_000);
    assert_eq!(thresholds.hard, 160_000);
}

#[test]
fn unknown_placeholders_are_listed_once_in_order() {
    let v = PromptVars::default();
    let names = v.unresolved("{ZETA} {ALPHA} {ZETA} {lower} {SIDEKICK_TOOL} {A_B");
    assert_eq!(names, vec!["ALPHA".to_string(), "ZETA".to_string()]);
    let r = v.render("{ZETA} and {SIDEKICK_TOOL}");
    assert_eq!(r, format!("{{ZETA}} and {SIDEKICK_TOOL}"));
}

#[test]
fn blank_settings_are_absent_and_values_are_trimmed() {
    assert_eq!(setting(Some("   ".into())), None);
    assert_eq!(setting(Some("  openai ".into())), Some("openai".to_string()));
    assert_eq!(setting(None), None);
}
