use monitor_switcher::display::ccd::{
    FixedNames, Luid, ModeInfo, PathInfo, SourceInfo, SourceMode, TargetInfo, TargetName, Topology,
    DISPLAYCONFIG_PATH_ACTIVE, DISPLAYCONFIG_PATH_MODE_IDX_INVALID,
};
use monitor_switcher::display::identity::{enumerate, Refresh};
use monitor_switcher::display::TargetKey;

const GPU: u32 = 1;

fn luid(low_part: u32) -> Luid {
    Luid { low_part, high_part: 0 }
}

fn test_path(
    adapter: u32,
    target_id: u32,
    source_id: u32,
    active: bool,
    available: bool,
) -> PathInfo {
    PathInfo {
        source_info: SourceInfo {
            adapter_id: luid(adapter),
            id: source_id,
            mode_info_idx: DISPLAYCONFIG_PATH_MODE_IDX_INVALID,
            status_flags: 0,
        },
        target_info: TargetInfo {
            adapter_id: luid(adapter),
            id: target_id,
            mode_info_idx: DISPLAYCONFIG_PATH_MODE_IDX_INVALID,
            output_technology: 0,
            rotation: 0,
            scaling: 0,
            refresh_numerator: 0,
            refresh_denominator: 0,
            scan_line_ordering: 0,
            target_available: available,
            status_flags: 0,
        },
        flags: if active { DISPLAYCONFIG_PATH_ACTIVE } else { 0 },
    }
}

fn names() -> FixedNames {
    let mut names = FixedNames::new();
    names.learn_adapter(luid(GPU), Ok("adapter-0".to_string()));
    names
}

fn named(friendly: &str, edid: &str) -> TargetName {
    TargetName {
        friendly: Some(friendly.to_string()),
        device_path: None,
        edid: Some(edid.to_string()),
        output_technology: 0,
    }
}

fn topology(paths: Vec<PathInfo>) -> Topology {
    Topology {
        paths,
        modes: Vec::new(),
    }
}

/// `QDC_ALL_PATHS` reports roughly every source-by-target pairing, so one monitor
/// turns up many times. Collapsing that is the whole job.
#[test]
fn enumerate_reports_one_entry_per_physical_output() {
    let topo = topology(vec![
        test_path(GPU, 100, 0, false, true),
        test_path(GPU, 100, 1, false, true),
        test_path(GPU, 100, 2, false, true),
        test_path(GPU, 101, 0, false, true),
        test_path(GPU, 101, 1, false, true),
    ]);
    let found = enumerate(&topo, &names()).unwrap();
    assert_eq!(
        found.iter().map(|m| m.key.target_id).collect::<Vec<_>>(),
        [100, 101]
    );
}

/// Only the active path carries mode information, so where a target has both it is
/// the active one that must win, whichever order they arrive in.
#[test]
fn enumerate_keeps_the_active_path_for_a_target() {
    for paths in [
        vec![
            test_path(GPU, 100, 0, false, true),
            test_path(GPU, 100, 1, true, true),
        ],
        vec![
            test_path(GPU, 100, 1, true, true),
            test_path(GPU, 100, 0, false, true),
        ],
    ] {
        let found = enumerate(&topology(paths), &names()).unwrap();
        assert_eq!(found.len(), 1);
        assert!(found[0].active, "the inactive path won");
        assert_eq!(found[0].source_id, 1);
    }
}

/// Targets the GPU does not report as available are phantom connectors, unless they
/// are somehow active, in which case they plainly exist.
#[test]
fn enumerate_drops_phantom_targets_but_keeps_active_ones() {
    let topo = topology(vec![
        test_path(GPU, 100, 0, false, true),
        test_path(GPU, 200, 1, false, false),
        test_path(GPU, 300, 2, true, false),
    ]);
    let found = enumerate(&topo, &names()).unwrap();
    let ids: Vec<u32> = found.iter().map(|m| m.key.target_id).collect();
    assert!(ids.contains(&100), "{ids:?}");
    assert!(
        !ids.contains(&200),
        "a phantom target was reported: {ids:?}"
    );
    assert!(ids.contains(&300), "an active target was dropped: {ids:?}");
}

/// Active first, then by target id, so the listing does not reshuffle itself
/// between runs just because the API changed its path order.
#[test]
fn enumerate_sorts_active_first_then_by_target_id() {
    let topo = topology(vec![
        test_path(GPU, 300, 0, false, true),
        test_path(GPU, 100, 1, false, true),
        test_path(GPU, 400, 2, true, true),
        test_path(GPU, 200, 3, true, true),
    ]);
    let found = enumerate(&topo, &names()).unwrap();
    assert_eq!(
        found.iter().map(|m| m.key.target_id).collect::<Vec<_>>(),
        [200, 400, 100, 300]
    );
}

#[test]
fn enumerate_labels_outputs_from_the_names_it_is_given() {
    let mut names = names();
    names.learn_target(luid(GPU), 100, named("MPG321UX OLED", "MSI3DD2"));
    names.learn_target(luid(GPU), 101, named("DELL U2415", "DELA0BC"));
    let topo = topology(vec![
        test_path(GPU, 100, 0, false, true),
        test_path(GPU, 101, 1, false, true),
        test_path(GPU, 102, 2, false, true),
    ]);
    let found = enumerate(&topo, &names).unwrap();
    assert_eq!(found[0].label(), "MPG321UX OLED [MSI3DD2]");
    assert_eq!(found[1].label(), "DELL U2415 [DELA0BC]");
    // A target that reports nothing is exactly what an output that is switched off
    // looks like.
    assert_eq!(found[2].label(), "(unidentified)");
}

/// An adapter that cannot be resolved is fatal: without its device path there is no
/// stable identity to key a config on.
#[test]
fn enumerate_fails_when_an_adapter_cannot_be_resolved() {
    let topo = topology(vec![test_path(GPU + 9, 100, 0, false, true)]);
    assert!(enumerate(&topo, &names()).is_err());
}

#[test]
fn enumerate_of_nothing_is_empty_rather_than_an_error() {
    assert!(enumerate(&topology(Vec::new()), &names())
        .unwrap()
        .is_empty());
}

#[test]
fn an_active_output_has_its_mode_rate_and_device() {
    let mut path = test_path(GPU, 100, 4, true, true);
    path.source_info.mode_info_idx = 0;
    path.target_info.refresh_numerator = 59951;
    path.target_info.refresh_denominator = 1000;
    let topo = Topology {
        paths: vec![path],
        modes: vec![ModeInfo::Source(SourceMode { width: 1920, height: 1080, x: 5, y: -7 })],
    };
    let mut names = names();
    names.learn_source(luid(GPU), 4, r"\\.\DISPLAY1".to_string());
    let found = enumerate(&topo, &names).unwrap();
    assert_eq!(found[0].mode, Some(SourceMode { width: 1920, height: 1080, x: 5, y: -7 }));
    assert_eq!(found[0].refresh, Some(Refresh { numerator: 59951, denominator: 1000 }));
    assert_eq!(found[0].gdi_name.as_deref(), Some(r"\\.\DISPLAY1"));
}

#[test]
fn keys_are_the_same_by_adapter_and_target() {
    let key = |adapter: &str, target_id| TargetKey { adapter: adapter.to_string(), target_id };
    assert!(key("a", 1).same_key(&key("a", 1)));
    assert!(!key("a", 1).same_key(&key("a", 2)));
    assert!(!key("a", 1).same_key(&key("b", 1)));
    assert_eq!(key("a", 1).clone(), key("a", 1));
}

#[test]
fn a_listing_does_not_depend_on_the_order_of_paths() {
    let one = test_path(GPU, 100, 0, true, true);
    let two = test_path(GPU, 101, 1, false, true);
    let three = test_path(GPU, 99, 2, false, true);
    let ids = |paths: Vec<PathInfo>| -> Vec<u32> {
        enumerate(&topology(paths), &names()).unwrap().iter().map(|m| m.key.target_id).collect()
    };
    assert_eq!(ids(vec![one, two, three]), [100, 99, 101]);
    assert_eq!(ids(vec![three, one, two]), [100, 99, 101]);
}
