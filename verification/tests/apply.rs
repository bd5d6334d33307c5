use monitor_switcher::config::{CecConfig, Config, TargetEntry};
use monitor_switcher::display::apply::{
    active_keys, apply_profile, apply_step, apply_targets, build_paths, cec_note, cec_transitions,
    current_profile, power_plan, power_steps, resolve, run_cec, same_set, switch, wanted, ApplyState,
    CecPlan, CecTarget, Outcome, Power, Tier, SDC_ALLOW_CHANGES, SDC_ALLOW_PATH_ORDER_CHANGES, SDC_APPLY,
    SDC_SAVE_TO_DATABASE, SDC_TOPOLOGY_SUPPLIED, SDC_USE_SUPPLIED_DISPLAY_CONFIG, SDC_VALIDATE,
};
use monitor_switcher::display::ccd::{
    FixedNames, Luid, PathInfo, SourceInfo, TargetInfo, Topology, DISPLAYCONFIG_PATH_ACTIVE,
    DISPLAYCONFIG_PATH_MODE_IDX_INVALID,
};
use monitor_switcher::display::identity::enumerate;
use monitor_switcher::display::TargetKey;
use monitor_switcher::error::Error;
use monitor_switcher::winerr::Answer;

fn key(target_id: u32) -> TargetKey {
    TargetKey {
        adapter: "adapter-0".into(),
        target_id,
    }
}

fn config(targets: &[(&str, u32)]) -> Config {
    let mut config = Config::default();
    for (name, id) in targets {
        config.targets.insert(
            name.to_string(),
            TargetEntry {
                key: key(*id),
                edid: None,
                friendly: None,
                cec: None,
            },
        );
    }
    config
}

fn members(names: &[&str]) -> Vec<String> {
    names.iter().map(|s| s.to_string()).collect()
}

#[test]
fn resolve_collapses_a_repeated_member() {
    let cfg = config(&[("main", 1), ("sidemon", 2)]);
    let got = resolve(&cfg, &members(&["main", "sidemon", "main"])).unwrap();
    assert_eq!(got, vec![key(1), key(2)]);
}

/// Two config names may point at one output; that is still one output.
#[test]
fn resolve_collapses_two_names_for_the_same_output() {
    let cfg = config(&[("television", 1), ("tv", 1)]);
    let got = resolve(&cfg, &members(&["tv", "television"])).unwrap();
    assert_eq!(got, vec![key(1)]);
}

#[test]
fn resolve_keeps_first_mention_order() {
    let cfg = config(&[("a", 1), ("b", 2), ("c", 3)]);
    let got = resolve(&cfg, &members(&["c", "a", "c", "b"])).unwrap();
    assert_eq!(got, vec![key(3), key(1), key(2)]);
}

#[test]
fn resolve_names_both_the_unknown_target_and_the_known_ones() {
    let cfg = config(&[("main", 1)]);
    let err = resolve(&cfg, &members(&["main", "nope"]))
        .unwrap_err()
        .message();
    assert!(err.contains("nope"), "{err}");
    assert!(err.contains("main"), "{err}");
}

#[test]
fn same_set_ignores_order() {
    assert!(same_set(&[key(1), key(2)], &[key(2), key(1)]));
}

/// The regression guard: a length check plus one-way containment called these two
/// equal.
#[test]
fn same_set_rejects_a_different_set_of_equal_length() {
    assert!(!same_set(&[key(1), key(1)], &[key(1), key(2)]));
    assert!(!same_set(&[key(1), key(2)], &[key(1), key(1)]));
}

#[test]
fn same_set_tolerates_repeats_on_either_side() {
    assert!(same_set(&[key(1), key(1), key(2)], &[key(2), key(1)]));
    assert!(same_set(&[key(2), key(1)], &[key(1), key(1), key(2)]));
}

#[test]
fn same_set_rejects_a_subset_in_either_direction() {
    assert!(!same_set(&[key(1)], &[key(1), key(2)]));
    assert!(!same_set(&[key(1), key(2)], &[key(1)]));
}

// --- build_paths, driven by a topology assembled here ---

const GPU: u32 = 1;

fn test_path(
    adapter: u32,
    target_id: u32,
    source_id: u32,
    active: bool,
    available: bool,
) -> PathInfo {
    let luid = Luid { low_part: adapter, high_part: 0 };
    PathInfo {
        source_info: SourceInfo {
            adapter_id: luid,
            id: source_id,
            mode_info_idx: DISPLAYCONFIG_PATH_MODE_IDX_INVALID,
            status_flags: 0,
        },
        target_info: TargetInfo {
            adapter_id: luid,
            id: target_id,
            mode_info_idx: DISPLAYCONFIG_PATH_MODE_IDX_INVALID,
            output_technology: 0,
            rotation: 0,
            scaling: 0,
            refresh_numerator: 0,
            refresh_denominator: 0,
            scan_line_ordering: 0,
            target_available: available,
            status_flags: 0,
        },
        flags: if active { DISPLAYCONFIG_PATH_ACTIVE } else { 0 },
    }
}

fn resolver() -> FixedNames {
    let mut names = FixedNames::new();
    names.learn_adapter(Luid { low_part: GPU, high_part: 0 }, Ok("adapter-0".to_string()));
    names
}

fn topology(paths: Vec<PathInfo>) -> Topology {
    Topology {
        paths,
        modes: Vec::new(),
    }
}

fn mode_indices(path: &PathInfo) -> (u32, u32) {
    (path.source_info.mode_info_idx, path.target_info.mode_info_idx)
}

fn sources_for(paths: &[PathInfo]) -> Vec<u32> {
    paths.iter().map(|p| p.source_info.id).collect()
}

#[test]
fn build_paths_returns_one_path_per_wanted_output_in_order() {
    let topo = topology(vec![
        test_path(GPU, 100, 0, false, true),
        test_path(GPU, 101, 1, false, true),
    ]);
    let built = build_paths(&topo, &[key(101), key(100)], &resolver()).unwrap();
    assert_eq!(
        built.iter().map(|p| p.target_info.id).collect::<Vec<_>>(),
        [101, 100]
    );
}

/// Every path handed to `SetDisplayConfig` must say ACTIVE and nothing else, and
/// must carry no stale mode indices.
#[test]
fn build_paths_marks_paths_active_and_clears_their_modes() {
    let mut noisy = test_path(GPU, 100, 0, false, true);
    noisy.flags = u32::MAX;
    noisy.source_info.mode_info_idx = 7;
    noisy.target_info.mode_info_idx = 9;

    let built = build_paths(&topology(vec![noisy]), &[key(100)], &resolver()).unwrap();

    assert_eq!(built[0].flags, DISPLAYCONFIG_PATH_ACTIVE);
    assert_eq!(
        mode_indices(&built[0]),
        (
            DISPLAYCONFIG_PATH_MODE_IDX_INVALID,
            DISPLAYCONFIG_PATH_MODE_IDX_INVALID
        )
    );
}

/// A display that is already on keeps the source it is already using, so a swap
/// disturbs the displays that are not changing as little as possible.
#[test]
fn build_paths_leaves_an_active_output_on_its_current_source() {
    let topo = topology(vec![
        test_path(GPU, 100, 0, false, true),
        test_path(GPU, 100, 1, false, true),
        test_path(GPU, 100, 2, true, true),
        test_path(GPU, 101, 0, false, true),
        test_path(GPU, 101, 1, false, true),
    ]);
    let built = build_paths(&topo, &[key(100), key(101)], &resolver()).unwrap();
    assert_eq!(sources_for(&built), [2, 0]);
}

#[test]
fn build_paths_gives_each_output_a_source_of_its_own() {
    let topo = topology(vec![
        test_path(GPU, 100, 0, false, true),
        test_path(GPU, 100, 1, false, true),
        test_path(GPU, 101, 0, false, true),
        test_path(GPU, 101, 1, false, true),
    ]);
    let built = build_paths(&topo, &[key(100), key(101)], &resolver()).unwrap();
    let mut sources = sources_for(&built);
    sources.sort_unstable();
    assert_eq!(sources, [0, 1], "two outputs shared one source");
}

#[test]
fn build_paths_reports_an_output_that_is_not_connected() {
    let topo = topology(vec![test_path(GPU, 100, 0, false, true)]);
    let err = build_paths(&topo, &[key(100), key(999)], &resolver())
        .map(|_| ())
        .unwrap_err()
        .message();
    assert!(err.contains("999"), "{err}");
    assert!(err.contains("not connected"), "{err}");
}

/// A path the GPU marks unavailable is not a route to that output.
#[test]
fn build_paths_will_not_route_through_an_unavailable_path() {
    let topo = topology(vec![
        test_path(GPU, 100, 0, false, true),
        test_path(GPU, 101, 1, false, false),
    ]);
    let err = build_paths(&topo, &[key(100), key(101)], &resolver())
        .map(|_| ())
        .unwrap_err()
        .message();
    assert!(err.contains("101"), "{err}");
}

/// The output ceiling: more displays wanted than the adapter has sources to drive
/// them with.
#[test]
fn build_paths_reports_when_the_sources_run_out() {
    let topo = topology(vec![
        test_path(GPU, 100, 0, false, true),
        test_path(GPU, 101, 0, false, true),
    ]);
    let err = build_paths(&topo, &[key(100), key(101)], &resolver())
        .map(|_| ())
        .unwrap_err()
        .message();
    assert!(err.contains("no free GPU source"), "{err}");
    assert!(err.contains("2 outputs at once"), "{err}");
}

#[test]
fn build_paths_of_nothing_asks_for_nothing() {
    let topo = topology(vec![test_path(GPU, 100, 0, true, true)]);
    assert!(build_paths(&topo, &[], &resolver()).unwrap().is_empty());
}

#[test]
fn build_paths_fails_when_an_adapter_cannot_be_resolved() {
    let topo = topology(vec![test_path(GPU + 9, 100, 0, false, true)]);
    assert!(build_paths(&topo, &[key(100)], &resolver()).is_err());
}

/// Adapters get new handles when Windows restarts; outputs are known by device path.
#[test]
fn outputs_are_found_again_after_a_restart() {
    let paths = |gpu| {
        vec![
            test_path(gpu, 100, 0, true, true),
            test_path(gpu, 100, 1, false, true),
            test_path(gpu, 101, 0, false, true),
            test_path(gpu, 101, 1, false, true),
        ]
    };
    let named = |gpu| {
        let mut names = FixedNames::new();
        names.learn_adapter(Luid { low_part: gpu, high_part: 0 }, Ok("adapter-0".to_string()));
        names
    };
    let wanted = [key(101), key(100)];
    let before = build_paths(&topology(paths(0x10A5D)), &wanted, &named(0x10A5D)).unwrap();
    let after = build_paths(&topology(paths(0xE852)), &wanted, &named(0xE852)).unwrap();
    assert_eq!(sources_for(&before), [1, 0]);
    assert_eq!(sources_for(&after), [1, 0]);
    assert_eq!(after[0].target_info.id, 101);
    assert_eq!(after[0].target_info.adapter_id.low_part, 0xE852);
}

fn cec_config(power_on: bool, standby: bool) -> CecConfig {
    CecConfig {
        hdmi_port: 1,
        power_on,
        standby,
        activate_source: true,
    }
}

/// A config with one CEC-capable display (`tv`, target 1) and one plain one
/// (`main`, target 2).
fn cec_config_with(cec: Option<CecConfig>) -> Config {
    let entry = |target_id, cec| TargetEntry {
        key: key(target_id),
        edid: None,
        friendly: None,
        cec,
    };
    let mut config = Config::default();
    config.targets.insert("tv".to_string(), entry(1, cec));
    config.targets.insert("main".to_string(), entry(2, None));
    config
}

fn names(targets: &[CecTarget]) -> Vec<&str> {
    targets.iter().map(|t| t.name.as_str()).collect()
}

#[test]
fn a_display_being_switched_on_is_woken() {
    let config = cec_config_with(Some(cec_config(true, true)));
    let plan = cec_transitions(&config, &[key(1), key(2)], &[key(2)]);
    assert_eq!(names(&plan.waking), ["tv"]);
    assert!(names(&plan.sleeping).is_empty());
}

#[test]
fn a_display_being_switched_off_is_put_to_sleep() {
    let config = cec_config_with(Some(cec_config(true, true)));
    let plan = cec_transitions(&config, &[key(2)], &[key(1), key(2)]);
    assert_eq!(names(&plan.sleeping), ["tv"]);
    assert!(names(&plan.waking).is_empty());
}

/// The cleanup this guards: a change that leaves the TV where it was must produce
/// no CEC work, and so no "feature is off" warning either.
#[test]
fn a_display_that_does_not_change_state_is_left_alone() {
    let config = cec_config_with(Some(cec_config(true, true)));

    let still_on = cec_transitions(&config, &[key(1), key(2)], &[key(1), key(2)]);
    assert!(names(&still_on.waking).is_empty() && names(&still_on.sleeping).is_empty());

    let still_off = cec_transitions(&config, &[key(2)], &[key(2)]);
    assert!(names(&still_off.waking).is_empty() && names(&still_off.sleeping).is_empty());
}

#[test]
fn each_direction_can_be_opted_out_of_separately() {
    let no_wake = cec_config_with(Some(cec_config(false, true)));
    assert!(names(&cec_transitions(&no_wake, &[key(1)], &[]).waking).is_empty());
    assert_eq!(
        names(&cec_transitions(&no_wake, &[], &[key(1)]).sleeping),
        ["tv"]
    );

    let no_sleep = cec_config_with(Some(cec_config(true, false)));
    assert_eq!(
        names(&cec_transitions(&no_sleep, &[key(1)], &[]).waking),
        ["tv"]
    );
    assert!(names(&cec_transitions(&no_sleep, &[], &[key(1)]).sleeping).is_empty());
}

#[test]
fn a_display_without_a_cec_block_is_never_acted_on() {
    let config = cec_config_with(None);
    let plan = cec_transitions(&config, &[key(1)], &[key(2)]);
    assert!(names(&plan.waking).is_empty() && names(&plan.sleeping).is_empty());
}

#[test]
fn same_set_matches_two_empty_sets() {
    assert!(same_set(&[], &[]));
    assert!(!same_set(&[], &[key(1)]));
}

// --- applying ---

fn ok() -> Answer {
    Answer { code: 0, message: None }
}

fn bad(code: u32) -> Answer {
    Answer { code, message: None }
}

#[test]
fn what_is_active_already_is_not_applied_again() {
    let topo = topology(vec![
        test_path(GPU, 100, 0, true, true),
        test_path(GPU, 101, 1, true, true),
    ]);
    let todo = apply_targets(&topo, &resolver(), vec![key(101), key(100)], false).unwrap();
    assert!(matches!(todo.state, ApplyState::Done { outcome: Outcome::AlreadyActive }));
    assert!(todo.state.call_flags().is_none());
}

#[test]
fn a_change_is_validated_and_then_made_from_the_database() {
    let topo = topology(vec![
        test_path(GPU, 100, 0, true, true),
        test_path(GPU, 101, 1, false, true),
    ]);
    let todo = apply_targets(&topo, &resolver(), vec![key(101)], false).unwrap();
    assert_eq!(todo.was_active, vec![key(100)]);
    assert_eq!(todo.desired, vec![key(101)]);
    assert_eq!(todo.paths.len(), 1);
    let flags = todo.state.call_flags().unwrap();
    assert!(flags & SDC_VALIDATE != 0 && flags & SDC_APPLY == 0);

    let next = apply_step(todo.state, &ok());
    assert!(matches!(next, ApplyState::Database));
    let flags = next.call_flags().unwrap();
    assert_eq!(
        flags,
        SDC_APPLY | SDC_TOPOLOGY_SUPPLIED | SDC_ALLOW_PATH_ORDER_CHANGES
    );

    let done = apply_step(next, &ok());
    assert!(matches!(done, ApplyState::Done { outcome: Outcome::Applied(Tier::Database) }));
    assert!(done.call_flags().is_none());
}

#[test]
fn a_layout_that_the_database_lacks_is_left_to_windows() {
    let next = apply_step(ApplyState::Database, &bad(1610));
    let flags = next.call_flags().unwrap();
    assert_eq!(
        flags,
        SDC_APPLY | SDC_USE_SUPPLIED_DISPLAY_CONFIG | SDC_ALLOW_CHANGES | SDC_SAVE_TO_DATABASE
    );
    let done = apply_step(next, &ok());
    assert!(matches!(done, ApplyState::Done { outcome: Outcome::Applied(Tier::BestMode) }));

    let failed = apply_step(apply_step(ApplyState::Database, &bad(1610)), &bad(31));
    match failed {
        ApplyState::Failed { error: Error::Apply { database, best_mode } } => {
            assert_eq!(database.code, 1610);
            assert_eq!(best_mode.code, 31);
        }
        _ => panic!("did not fail"),
    }
}

#[test]
fn a_dry_run_stops_at_validation() {
    let done = apply_step(ApplyState::Validate { dry_run: true }, &ok());
    assert!(matches!(done, ApplyState::Done { outcome: Outcome::Validated }));
    // A real apply may recover from what validation refuses, so it goes on.
    let goes_on = apply_step(ApplyState::Validate { dry_run: false }, &bad(87));
    assert!(matches!(goes_on, ApplyState::Database));
    let failed = apply_step(ApplyState::Validate { dry_run: true }, &bad(87));
    match failed {
        ApplyState::Failed { error } => {
            assert!(error.message().contains("ERROR_INVALID_PARAMETER (87)"));
        }
        _ => panic!("did not fail"),
    }
}

#[test]
fn an_unknown_profile_is_named_with_the_known_ones() {
    let mut cfg = config(&[("main", 1)]);
    cfg.profiles.insert("desk".to_string(), members(&["main"]));
    let why = wanted(&cfg, "nope").unwrap_err().message();
    assert!(why.contains("nope") && why.contains("desk"), "{why}");
    assert_eq!(wanted(&cfg, "desk").unwrap(), vec![key(1)]);

    let topo = topology(vec![test_path(GPU, 1, 0, true, true)]);
    let todo = apply_profile(&cfg, "desk", false, Ok((topo, resolver()))).unwrap();
    assert!(matches!(todo.state, ApplyState::Done { outcome: Outcome::AlreadyActive }));
}

#[test]
fn power_follows_a_change_and_nothing_else() {
    let config = cec_config_with(Some(cec_config(true, true)));
    let plan = |outcome| power_plan(&config, outcome, &[key(1)], &[key(2)]);
    assert_eq!(names(&plan(Outcome::Applied(Tier::Database)).waking), ["tv"]);
    assert!(names(&plan(Outcome::Validated).waking).is_empty());
    // Being on screen already says nothing about what it was before.
    assert!(names(&plan(Outcome::AlreadyActive).sleeping).is_empty());
}

#[test]
fn displays_go_to_sleep_before_others_wake() {
    let target = |name: &str| CecTarget { name: name.to_string(), conf: cec_config(true, true) };
    let plan = CecPlan {
        waking: vec![target("tv"), target("attic")],
        sleeping: vec![target("main")],
    };
    let steps: Vec<(String, Power)> =
        power_steps(plan).into_iter().map(|s| (s.target.name, s.power)).collect();
    assert_eq!(
        steps,
        [
            ("main".to_string(), Power::Standby),
            ("tv".to_string(), Power::On),
            ("attic".to_string(), Power::On)
        ]
    );
}

#[test]
fn notes_on_power_say_what_came_of_it() {
    assert_eq!(cec_note("tv", Power::On, &Ok("now on".to_string())), "tv: now on");
    let note = cec_note("tv", Power::Standby, &Err("no adapter".to_string()));
    assert!(note.contains("tv") && note.contains("no adapter"), "{note}");

    let config = cec_config_with(Some(cec_config(true, true)));
    let plan = cec_transitions(&config, &[key(1)], &[]);
    let notes = run_cec(&plan);
    assert_eq!(notes.len(), 1);
    assert!(notes[0].contains("tv"), "{notes:?}");
}

#[test]
fn switching_goes_to_the_other_profile() {
    let mut cfg = config(&[("main", 100), ("tv", 101)]);
    cfg.profiles.insert("desk".to_string(), members(&["main"]));
    cfg.profiles.insert("sofa".to_string(), members(&["tv"]));
    cfg.profiles.insert("broken".to_string(), members(&["gone"]));
    let seen = |active_tv: bool| {
        let topo = topology(vec![
            test_path(GPU, 100, 0, !active_tv, true),
            test_path(GPU, 101, 1, active_tv, true),
        ]);
        enumerate(&topo, &resolver())
    };
    assert_eq!(switch(&cfg, "desk", "sofa", seen(false)).unwrap(), "sofa");
    assert_eq!(switch(&cfg, "desk", "sofa", seen(true)).unwrap(), "desk");
    assert_eq!(active_keys(&seen(true).unwrap()), vec![key(101)]);
    assert_eq!(current_profile(&cfg, &seen(false).unwrap()).as_deref(), Some("desk"));
    assert_eq!(current_profile(&cfg, &seen(true).unwrap()).as_deref(), Some("sofa"));
    assert_eq!(current_profile(&cfg, &[]), None);
}

#[test]
fn the_two_ways_of_applying_are_told_apart() {
    assert_ne!(Tier::Database.describe(), Tier::BestMode.describe());
}
