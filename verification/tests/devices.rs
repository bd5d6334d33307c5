use monitor_switcher::cec::{
    display_line, open_failed, osd_name, sleep, sleep_sent, wake, wake_step, Heard, PowerStatus, Sleep, Wake,
    POWER_ON_SECONDS,
};
use monitor_switcher::cli::cec::pick;
use monitor_switcher::cli::vcp::{
    find_display, get_line, next_value, parse_code, plan, set_line, switch_line, Command, Request,
};
use monitor_switcher::config::{CecConfig, Config, TargetEntry};
use monitor_switcher::ddc::{
    capabilities, check_capabilities, check_count, device_name, enumeration_failed, find_device,
    get_reply, set_reply, unsupported, Vcp,
};
use monitor_switcher::display::ccd::{Luid, TargetName};
use monitor_switcher::display::{Monitor, TargetKey};
use monitor_switcher::error::causes;
use monitor_switcher::winerr::Answer;

fn answer(code: u32) -> Answer {
    Answer { code, message: None }
}

fn status(status: PowerStatus, time_up: bool) -> Heard {
    Heard::Status { status, time_up }
}

fn sent() -> Heard {
    Heard::Sent { outcome: Ok(()) }
}

fn refused() -> Heard {
    Heard::Sent { outcome: Err("bus error".to_string()) }
}

fn done(state: Wake) -> String {
    match state {
        Wake::Done { message } => message,
        other => panic!("{other:?}"),
    }
}

#[test]
fn a_wake_waits_for_the_set_to_settle() {
    let s = wake_step(wake(), true, status(PowerStatus::InTransitionOnToStandby, false));
    assert!(matches!(s, Wake::Settling));
    let s = wake_step(s, true, status(PowerStatus::InTransitionOnToStandby, true));
    assert!(matches!(s, Wake::Checking));
    let s = wake_step(s, true, status(PowerStatus::Standby, false));
    assert!(matches!(s, Wake::Sending));
    let s = wake_step(s, true, sent());
    let s = wake_step(s, true, status(PowerStatus::InTransitionStandbyToOn, false));
    assert!(matches!(s, Wake::Waiting));
    let s = wake_step(s, true, status(PowerStatus::On, false));
    assert!(matches!(s, Wake::Claiming { .. }));
    assert_eq!(done(wake_step(s, true, sent())), "TV woken, input claimed");
}

#[test]
fn a_set_that_is_on_is_left_on() {
    let checking = || wake_step(wake(), false, status(PowerStatus::On, false));
    assert!(matches!(checking(), Wake::Checking));
    assert_eq!(done(wake_step(checking(), false, status(PowerStatus::On, false))), "TV already on");
    let claiming = wake_step(checking(), true, status(PowerStatus::On, false));
    assert_eq!(done(wake_step(claiming, true, sent())), "TV already on, input claimed");
}

#[test]
fn a_set_that_never_confirms_is_noted() {
    let s = wake_step(Wake::Waiting, false, status(PowerStatus::Unknown, true));
    assert!(matches!(s, Wake::Asking));
    let said = done(wake_step(s, false, status(PowerStatus::Standby, false)));
    assert!(said.contains(&format!("{POWER_ON_SECONDS}s")), "{said}");
    assert!(said.contains(&PowerStatus::Standby.name()), "{said}");
}

#[test]
fn a_refused_command_is_a_failure() {
    match wake_step(Wake::Sending, true, refused()) {
        Wake::Failed { error } => {
            assert_eq!(error.message(), "sending CEC power-on: bus error");
            assert_eq!(causes(&error), ["sending CEC power-on", "bus error"]);
        }
        other => panic!("{other:?}"),
    }
    let claiming = wake_step(Wake::Waiting, true, status(PowerStatus::On, false));
    match wake_step(claiming, true, refused()) {
        Wake::Failed { error } => {
            assert_eq!(error.message(), "claiming the TV's input as active source: bus error");
        }
        other => panic!("{other:?}"),
    }
    assert_eq!(
        sleep_sent(Err("bus error".to_string())).unwrap_err().message(),
        "sending CEC standby: bus error"
    );
    assert!(open_failed("none".to_string()).message().ends_with(": none"));
}

#[test]
fn a_set_is_put_to_sleep_once() {
    assert!(matches!(sleep(PowerStatus::On), Sleep::Sending));
    assert!(matches!(sleep(PowerStatus::Unknown), Sleep::Sending));
    for asleep in [PowerStatus::Standby, PowerStatus::InTransitionOnToStandby] {
        match sleep(asleep) {
            Sleep::Done { message } => assert_eq!(message, "TV already in standby"),
            other => panic!("{other:?}"),
        }
    }
    assert_eq!(sleep_sent(Ok(())).unwrap(), "TV sent to standby");
    assert_eq!(display_line("tv", "on"), "tv: on");
    assert!(osd_name().len() <= 13);
}

fn cec_config(names: &[&str]) -> Config {
    let mut config = Config::default();
    for (i, name) in names.iter().enumerate() {
        config.targets.insert(
            name.to_string(),
            TargetEntry {
                key: TargetKey { adapter: "gpu".to_string(), target_id: i as u32 },
                edid: None,
                friendly: None,
                cec: Some(CecConfig { hdmi_port: 3, ..CecConfig::default() }),
            },
        );
    }
    config.targets.insert(
        "plain".to_string(),
        TargetEntry {
            key: TargetKey { adapter: "gpu".to_string(), target_id: 99 },
            edid: None,
            friendly: None,
            cec: None,
        },
    );
    config
}

#[test]
fn a_display_is_picked_where_there_is_no_doubt() {
    let one = pick(&cec_config(&["tv"]), None).unwrap();
    assert_eq!(one.name, "tv");
    assert_eq!(one.conf.hdmi_port, 3);

    let two = cec_config(&["tv", "attic"]);
    let why = pick(&two, None).unwrap_err().message();
    assert!(why.contains("tv") && why.contains("attic"), "{why}");
    assert_eq!(pick(&two, Some("attic")).unwrap().name, "attic");

    assert!(pick(&cec_config(&[]), None).is_err());
    assert!(pick(&two, Some("plain")).unwrap_err().message().contains("plain"));
    assert!(pick(&two, Some("nope")).unwrap_err().message().contains("nope"));
}

#[test]
fn codes_are_hexadecimal() {
    assert_eq!(parse_code("60").unwrap(), 0x60);
    assert_eq!(parse_code("0x60").unwrap(), 0x60);
    assert_eq!(parse_code("0XdF").unwrap(), 0xDF);
    for bad in ["", "0x", "100", "zz", "-1"] {
        let why = parse_code(bad).unwrap_err().message();
        assert!(why.contains(bad), "{why}");
    }
}

#[test]
fn what_is_wrong_with_a_code_is_said_as_the_standard_library_says_it() {
    for bad in ["", "100", "100z", "1fz", "zz", "+", "-1", "+100", "0000z", "00100"] {
        let why = parse_code(bad).unwrap_err();
        let standard = u8::from_str_radix(bad, 16).unwrap_err().to_string();
        let said = format!("\"{bad}\" is not a VCP code; expected hex, e.g. 60 or 0x60");
        assert_eq!(why.message(), format!("{said}: {standard}"));
        assert_eq!(causes(&why), [said, standard]);
    }
}

#[test]
fn stepping_goes_round_the_values() {
    assert_eq!(next_value(&[15, 18], 15), 18);
    assert_eq!(next_value(&[15, 18], 18), 15);
    assert_eq!(next_value(&[15, 18], 3), 15);
    assert_eq!(next_value(&[7], 7), 7);
    assert_eq!(next_value(&[1, 2, 3], 2), 3);
}

#[test]
fn commands_become_requests() {
    let t = || "main".to_string();
    let c = || "60".to_string();
    let (target, request) = plan(Command::Get { target: t(), code: c() }).unwrap();
    assert_eq!(target, "main");
    assert!(matches!(request, Request::Read { code: 0x60 }));
    let put = plan(Command::Write { target: t(), code: c(), value: 15 }).unwrap().1;
    assert!(matches!(put, Request::Put { code: 0x60, value: 15 }));
    let step = plan(Command::Switch { target: t(), code: c(), values: vec![15, 18] }).unwrap().1;
    assert!(matches!(step, Request::Step { code: 0x60, values } if values == [15, 18]));
    let caps = plan(Command::Caps { target: t() }).unwrap().1;
    assert!(matches!(caps, Request::Capabilities));
    assert!(plan(Command::Get { target: t(), code: "zz".to_string() }).is_err());
}

#[test]
fn answers_from_a_display_are_lines() {
    let vcp = Vcp { current: 15, maximum: 18 };
    let got = get_line("main", 0x60, vcp);
    assert!(got.starts_with("main") && got.contains("60") && got.contains("15"), "{got}");
    assert!(set_line("main", 0x60, 18).contains("18"));
    let switched = switch_line("main", 0x60, 15, 18);
    assert!(switched.contains("15") && switched.contains("18"), "{switched}");
}

fn monitor(target_id: u32, gdi_name: Option<&str>) -> Monitor {
    Monitor {
        key: TargetKey { adapter: "gpu".to_string(), target_id },
        adapter_luid: Luid { low_part: 0, high_part: 0 },
        source_id: 0,
        active: gdi_name.is_some(),
        available: true,
        name: TargetName::default(),
        mode: None,
        refresh: None,
        gdi_name: gdi_name.map(String::from),
    }
}

#[test]
fn a_display_is_found_by_its_name() {
    let config = cec_config(&["main", "side"]);
    let monitors = [monitor(0, Some("DISPLAY1")), monitor(1, None)];
    assert_eq!(find_display(&config, "main", &monitors).unwrap(), "DISPLAY1");
    assert!(find_display(&config, "side", &monitors).unwrap_err().message().contains("side"));
    assert!(find_display(&config, "plain", &monitors).unwrap_err().message().contains("plain"));
    let why = find_display(&config, "nope", &monitors).unwrap_err().message();
    assert!(why.contains("nope") && why.contains("main"), "{why}");
}

#[test]
fn replies_of_a_display_are_checked() {
    let vcp = Vcp { current: 1, maximum: 2 };
    assert_eq!(get_reply(1, 0x60, vcp, &answer(0)).unwrap(), vcp);
    let why = get_reply(0, 0x60, vcp, &answer(0xC026_2582)).unwrap_err().message();
    assert_eq!(why, unsupported(0x60, &answer(0xC026_2582)));
    assert!(why.contains("0xC0262582"), "{why}");
    assert!(set_reply(1, 0x60, &answer(0)).is_ok());
    assert!(set_reply(0, 0x60, &answer(87)).is_err());
    assert!(check_count("DISPLAY1", 1).is_ok());
    assert!(check_count("DISPLAY1", 0).unwrap_err().message().contains("DISPLAY1"));
    assert!(check_capabilities(1, 9).is_ok());
    assert!(check_capabilities(0, 9).is_err());
    assert!(check_capabilities(1, 0).is_err());
    assert!(enumeration_failed(&answer(5)).message().contains("ERROR_ACCESS_DENIED"));
}

#[test]
fn capabilities_end_at_the_zero_and_are_never_refused() {
    assert_eq!(capabilities(1, b"(prot(monitor))\0rest").unwrap(), "(prot(monitor))");
    assert_eq!(capabilities(1, b"no zero").unwrap(), "no zero");
    assert_eq!(capabilities(1, b"a\xFFb\0").unwrap(), "a\u{FFFD}b");
    assert!(capabilities(0, b"x").is_err());
}

#[test]
fn devices_are_found_by_name() {
    let units: Vec<u16> = "DISPLAY2\0junk".encode_utf16().collect();
    assert_eq!(device_name(true, &units).as_deref(), Some("DISPLAY2"));
    assert_eq!(device_name(false, &units), None);
    let names = [None, Some("DISPLAY1".to_string()), Some("DISPLAY2".to_string())];
    assert_eq!(find_device(&names, "DISPLAY2").unwrap(), 2);
    assert_eq!(
        find_device(&names, "DISPLAY9").unwrap_err().message(),
        "no attached display is currently driven by DISPLAY9"
    );
}
