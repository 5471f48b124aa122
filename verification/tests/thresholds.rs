use karmx::thresholds::{summary_is_fresh, CompactionThresholds, Phase};

#[test]
fn parses_the_three_value_form() {
    let t = CompactionThresholds::parse("183500,183500,262144").unwrap();
    assert_eq!(t.spawn, 183_500);
    assert_eq!(t.apply, 183_500);
    assert_eq!(t.hard, 262_144);
}

#[test]
fn parses_the_two_value_form_as_spawn_equals_apply() {
    let t = CompactionThresholds::parse("183500,262144").unwrap();
    assert_eq!(t.spawn, 183_500, "two-value form applies at spawn");
    assert_eq!(t.apply, 183_500);
    assert_eq!(t.hard, 262_144);
}

#[test]
fn tolerates_whitespace() {
    let t = CompactionThresholds::parse(" 100 , 200 , 300 ").unwrap();
    assert_eq!((t.spawn, t.apply, t.hard), (100, 200, 300));
}

#[test]
fn rejects_out_of_order_thresholds() {
    let e = CompactionThresholds::parse("300,200,100")
        .unwrap_err()
        .to_string();
    assert!(e.contains("spawn <= apply <= hard"), "got: {e}");
}

#[test]
fn rejects_zero_and_non_numeric_and_wrong_arity() {
    assert!(CompactionThresholds::parse("0,100,200").is_err());
    assert!(CompactionThresholds::parse("a,b,c").is_err());
    assert!(CompactionThresholds::parse("100").is_err());
    assert!(CompactionThresholds::parse("1,2,3,4").is_err());
}

#[test]
fn equality_across_all_three_is_allowed() {
    let t = CompactionThresholds::parse("100,100,100").unwrap();
    assert_eq!(t.phase(100), Phase::Blocking);
}

#[test]
fn phase_boundaries_are_inclusive() {
    let t = CompactionThresholds::new(100, 200, 300).unwrap();
    assert_eq!(t.phase(99), Phase::Idle);
    assert_eq!(t.phase(100), Phase::Spawning, "reaching spawn acts on it");
    assert_eq!(t.phase(199), Phase::Spawning);
    assert_eq!(t.phase(200), Phase::Applying);
    assert_eq!(t.phase(299), Phase::Applying);
    assert_eq!(t.phase(300), Phase::Blocking);
    assert_eq!(t.phase(1_000_000), Phase::Blocking);
}

#[test]
fn only_blocking_phase_holds_up_inference() {
    let t = CompactionThresholds::new(100, 200, 300).unwrap();
    assert!(!t.must_block(99));
    assert!(!t.must_block(100), "spawning must not stall the turn");
    assert!(!t.must_block(200), "applying must not stall the turn");
    assert!(t.must_block(300));
}

#[test]
fn summary_is_wanted_from_spawn_onward() {
    let t = CompactionThresholds::new(100, 200, 300).unwrap();
    assert!(!t.should_spawn(99));
    assert!(t.should_spawn(100));
    assert!(t.should_spawn(250));
    assert!(t.should_spawn(300));
}

#[test]
fn display_round_trips_through_parse() {
    let t = CompactionThresholds::new(10, 20, 30).unwrap();
    assert_eq!(t.to_string(), "10,20,30");
    assert_eq!(CompactionThresholds::parse(&t.to_string()).unwrap(), t);
}

#[test]
fn fresh_summary_is_usable_stale_one_is_not() {
    assert!(summary_is_fresh(100, 150, 100), "grew less than the window");
    assert!(summary_is_fresh(100, 200, 100), "exactly at the window");
    assert!(!summary_is_fresh(100, 201, 100), "grew past the window");
    assert!(summary_is_fresh(100, 100, 0), "no growth is always fresh");
    assert!(!summary_is_fresh(100, 101, 0));
}

#[test]
fn new_rejects_zero_and_disorder_with_messages() {
    assert!(CompactionThresholds::new(0, 1, 2).is_err());
    let e = CompactionThresholds::new(3, 2, 1).unwrap_err().to_string();
    assert!(e.contains("spawn <= apply <= hard"), "got: {e}");
    assert!(CompactionThresholds::new(1, 1, 1).is_ok());
}

#[test]
fn phase_wants_summary_except_idle() {
    assert!(!Phase::Idle.wants_summary());
    assert!(Phase::Spawning.wants_summary());
    assert!(Phase::Applying.wants_summary());
    assert!(Phase::Blocking.wants_summary());
    assert!(Phase::Blocking.is_blocking());
    assert!(!Phase::Applying.is_blocking());
}

#[test]
fn a_summary_older_than_the_counter_is_fresh() {
    // Token counts that went down (a reset) never make a summary stale.
    assert!(summary_is_fresh(500, 100, 0));
}

/// The apply estimate the agent derives from a context limit and the
/// compaction fraction.
fn derived(limit: usize, fraction: f64) -> CompactionThresholds {
    let fraction = fraction.clamp(0.05, 1.0);
    CompactionThresholds::from_limit(limit, ((limit as f64) * fraction) as usize)
}

#[test]
fn derived_thresholds_start_before_apply_and_end_at_the_limit() {
    let t = derived(200_000, 0.8);
    assert_eq!(t.apply, 160_000);
    assert_eq!(t.hard, 200_000);
    assert!(t.spawn < t.apply, "spawn must lead apply to be predictive");
    assert_eq!(t.spawn, 156_000, "a tenth of the headroom early");
}

#[test]
fn derived_thresholds_are_always_ordered() {
    for limit in [1usize, 2, 7, 1_000, 8_192, 200_000, 2_000_000] {
        for f in [0.05f64, 0.5, 0.8, 0.95, 1.0] {
            let t = derived(limit, f);
            assert!(
                t.spawn <= t.apply && t.apply <= t.hard,
                "limit={limit} f={f} -> {}",
                t.to_string()
            );
            assert!(t.spawn > 0);
        }
    }
}

#[test]
fn derived_thresholds_reach_blocking_at_the_limit() {
    let t = derived(1000, 0.8);
    assert_eq!(t.phase(t.hard), Phase::Blocking);
    assert!(!t.phase(t.hard - 1).is_blocking());
}

#[test]
fn a_zero_limit_still_gives_usable_thresholds() {
    let t = CompactionThresholds::from_limit(0, 0);
    assert_eq!((t.spawn, t.apply, t.hard), (1, 1, 1));
    let t = CompactionThresholds::from_limit(100, 1);
    assert_eq!((t.spawn, t.apply, t.hard), (1, 1, 100));
}
