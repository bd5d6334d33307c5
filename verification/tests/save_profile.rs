use monitor_switcher::cli::save_profile::{record, report, slug, unique_name};
use monitor_switcher::config::{Config, TargetEntry};
use monitor_switcher::display::apply::current_profile;
use monitor_switcher::display::ccd::{Luid, TargetName};
use monitor_switcher::display::{Monitor, TargetKey};

fn monitor(friendly: Option<&str>, edid: Option<&str>, target_id: u32) -> Monitor {
    Monitor {
        key: TargetKey {
            adapter: "adapter-0".into(),
            target_id,
        },
        adapter_luid: Luid {
            low_part: 0,
            high_part: 0,
        },
        source_id: 0,
        active: true,
        available: true,
        name: TargetName {
            friendly: friendly.map(String::from),
            device_path: None,
            edid: edid.map(String::from),
            output_technology: 0,
        },
        mode: None,
        refresh: None,
        gdi_name: None,
    }
}

#[test]
fn slug_lowercases_and_joins_on_punctuation() {
    assert_eq!(slug("MPG321UX OLED"), "mpg321ux-oled");
    assert_eq!(slug("LG ULTRAGEAR"), "lg-ultragear");
    assert_eq!(slug("DELL U2415"), "dell-u2415");
}

#[test]
fn slug_collapses_runs_and_trims_the_ends() {
    assert_eq!(slug("  A  B  "), "a-b");
    assert_eq!(slug("a---b"), "a-b");
    assert_eq!(slug("...x..."), "x");
}

#[test]
fn slug_of_nothing_usable_is_empty() {
    assert_eq!(slug(""), "");
    assert_eq!(slug("!!!"), "");
}

#[test]
fn unique_name_prefers_the_friendly_name() {
    let config = Config::default();
    let m = monitor(Some("MPG321UX OLED"), Some("MSI3DD2"), 37121);
    assert_eq!(unique_name(&config, &m), "mpg321ux-oled");
}

#[test]
fn unique_name_falls_back_to_the_edid_id() {
    let config = Config::default();
    let m = monitor(None, Some("MSI3DD2"), 37121);
    assert_eq!(unique_name(&config, &m), "msi3dd2");
}

/// A friendly name of nothing but punctuation slugs to an empty string, which must
/// not become the target's name.
#[test]
fn unique_name_skips_a_friendly_name_that_slugs_to_nothing() {
    let config = Config::default();
    let m = monitor(Some("!!!"), Some("MSI3DD2"), 37121);
    assert_eq!(unique_name(&config, &m), "msi3dd2");
}

#[test]
fn unique_name_falls_back_to_the_target_id() {
    let config = Config::default();
    let m = monitor(None, None, 37121);
    assert_eq!(unique_name(&config, &m), "target-37121");
}

/// Two identical panels are ordinary: the suffix is what keeps the second one from
/// overwriting the first.
#[test]
fn unique_name_suffixes_around_a_collision() {
    let mut config = Config::default();
    let m = monitor(Some("DELL U2415"), None, 37123);

    for expected in ["dell-u2415", "dell-u2415-2", "dell-u2415-3"] {
        let name = unique_name(&config, &m);
        assert_eq!(name, expected);
        config.targets.insert(
            name,
            TargetEntry {
                key: m.key.clone(),
                edid: None,
                friendly: None,
                cec: None,
            },
        );
    }
}

#[test]
fn recording_names_new_outputs_and_keeps_the_names_of_old_ones() {
    let mut config = Config::default();
    let first = [monitor(Some("LG ULTRAGEAR"), None, 1)];
    let saved = record(&mut config, &first, "desk", false).unwrap();
    assert_eq!(saved.members, ["lg-ultragear"]);
    assert_eq!(saved.newly_named, ["lg-ultragear"]);

    let mut off = monitor(Some("PHL"), None, 3);
    off.active = false;
    let second = [
        monitor(Some("LG ULTRAGEAR"), None, 1),
        monitor(Some("LG ULTRAGEAR"), Some("GSM5BD3"), 2),
        off,
    ];
    let saved = record(&mut config, &second, "both", false).unwrap();
    assert_eq!(saved.members, ["lg-ultragear", "lg-ultragear-2"]);
    assert_eq!(saved.newly_named, ["lg-ultragear-2"]);
    assert_eq!(config.targets.len(), 2);
    assert_eq!(config.profiles.get("both").unwrap(), &["lg-ultragear", "lg-ultragear-2"]);
    assert_eq!(config.targets.get("lg-ultragear-2").unwrap().edid.as_deref(), Some("GSM5BD3"));

    let lines = report("both", &saved, &config, "config.json");
    assert!(lines[0].contains("both"), "{lines:?}");
}

#[test]
fn recording_refuses_to_overwrite_and_to_record_nothing() {
    let mut config = Config::default();
    let one = [monitor(Some("LG"), None, 1)];
    record(&mut config, &one, "desk", false).unwrap();
    let why = record(&mut config, &one, "desk", false).unwrap_err().message();
    assert!(why.contains("desk") && why.contains("--force"), "{why}");
    assert!(record(&mut config, &one, "desk", true).is_ok());
    assert!(record(&mut config, &[], "none", false).is_err());
    assert!(!config.profiles.contains_key("none"));
}

#[test]
fn a_saved_profile_is_the_one_on_screen() {
    let mut config = Config::default();
    let now = [monitor(Some("LG"), None, 1), monitor(Some("LG"), None, 2)];
    record(&mut config, &now, "desk", false).unwrap();
    assert_eq!(current_profile(&config, &now).as_deref(), Some("desk"));
    assert_eq!(current_profile(&config, &now[..1]), None);
}
