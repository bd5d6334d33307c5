use monitor_switcher::hotkey::{
    key_code, key_name, parse, plan, plan_with, Plan, MOD_ALT, MOD_CONTROL, MOD_NOREPEAT, MOD_SHIFT,
    MOD_WIN,
};
use monitor_switcher::names::NameMap;

fn mods(spec: &str) -> u32 {
    // NOREPEAT is always on; mask it out so the tests read as the written
    // combination rather than as an implementation detail.
    parse(spec).unwrap().modifiers.0 & !MOD_NOREPEAT
}

/// The two combinations actually bound on this desk.
#[test]
fn parses_the_real_bindings() {
    let s = parse("ctrl+shift+s").unwrap();
    assert_eq!(s.modifiers.0 & !MOD_NOREPEAT, MOD_CONTROL | MOD_SHIFT);
    assert_eq!(s.vk, 'S' as u32);

    let d = parse("ctrl+shift+d").unwrap();
    assert_eq!(d.vk, 'D' as u32);
}

#[test]
fn every_modifier_is_understood_with_its_aliases() {
    assert_eq!(mods("ctrl+a"), MOD_CONTROL);
    assert_eq!(mods("control+a"), MOD_CONTROL);
    assert_eq!(mods("alt+a"), MOD_ALT);
    assert_eq!(mods("win+a"), MOD_WIN);
    assert_eq!(mods("super+a"), MOD_WIN);
    assert_eq!(
        mods("ctrl+alt+shift+win+a"),
        MOD_CONTROL | MOD_ALT | MOD_SHIFT | MOD_WIN
    );
}

#[test]
fn case_and_spacing_do_not_matter() {
    assert_eq!(
        parse("CTRL+SHIFT+S").unwrap(),
        parse("ctrl+shift+s").unwrap()
    );
    assert_eq!(
        parse(" ctrl + shift + s ").unwrap(),
        parse("ctrl+shift+s").unwrap()
    );
}

#[test]
fn understands_letters_digits_and_function_keys() {
    assert_eq!(parse("ctrl+7").unwrap().vk, '7' as u32);
    assert_eq!(parse("ctrl+f1").unwrap().vk, 0x70);
    assert_eq!(parse("ctrl+f24").unwrap().vk, 0x87);
    assert_eq!(parse("ctrl+space").unwrap().vk, 0x20);
    assert_eq!(parse("ctrl+pageup").unwrap().vk, 0x21);
}

/// Auto-repeat would turn a held key into a stream of display switches.
#[test]
fn always_asks_for_no_repeat() {
    assert!(parse("ctrl+shift+s").unwrap().modifiers.0 & MOD_NOREPEAT != 0);
}

/// The dangerous case: `RegisterHotKey` would accept a bare key and then swallow it
/// everywhere.
#[test]
fn refuses_a_key_with_no_modifier() {
    let err = parse("s").unwrap_err().message();
    assert!(err.contains("no modifier"), "{err}");
    assert!(parse("f1").is_err());
}

#[test]
fn refuses_the_other_ways_of_writing_nonsense() {
    for bad in [
        "",
        "ctrl",
        "ctrl+shift",
        "ctrl+",
        "ctrl++s",
        "ctrl+nosuchkey",
        "ctrl+f25",
    ] {
        assert!(parse(bad).is_err(), "{bad:?} was accepted");
    }
}

#[test]
fn refuses_two_keys() {
    let err = parse("ctrl+a+b").unwrap_err().message();
    assert!(err.contains("two keys"), "{err}");
}

#[test]
fn describes_itself_the_way_it_was_written() {
    assert_eq!(parse("ctrl+shift+s").unwrap().describe(), "Ctrl+Shift+S");
    assert_eq!(parse("alt+f4").unwrap().describe(), "Alt+F4");
    assert_eq!(parse("win+ctrl+left").unwrap().describe(), "Ctrl+Win+Left");
}

/// Round-trip: anything `describe` prints must parse back to itself.
#[test]
fn description_parses_back_to_the_same_binding() {
    for spec in [
        "ctrl+shift+s",
        "ctrl+shift+d",
        "alt+f4",
        "win+space",
        "ctrl+alt+delete",
        "ctrl+7",
    ] {
        let one = parse(spec).unwrap();
        let two = parse(&one.describe()).unwrap();
        assert_eq!(one, two, "{spec} described as {}", one.describe());
    }
}

#[test]
fn every_key_is_named_as_it_is_written() {
    for name in ["a", "z", "0", "9", "f1", "f9", "f10", "f24", "space", "left", "delete"] {
        let vk = key_code(name).unwrap();
        assert_eq!(key_name(vk).to_lowercase(), name);
    }
    for name in ["", "f0", "f25", "fx", "é", "ab"] {
        assert_eq!(key_code(name), None, "{name:?}");
    }
}

fn configured(pairs: &[(&str, &str)]) -> NameMap<String> {
    let mut map = NameMap::new();
    for (k, v) in pairs {
        map.insert(k.to_string(), v.to_string());
    }
    map
}

fn planned(pairs: &[(&str, &str)]) -> Plan {
    plan(&configured(pairs), false)
}

/// The pair actually bound on this desk.
#[test]
fn accepts_the_real_configuration() {
    let plan = planned(&[
        ("ctrl+shift+d", "switch"),
        ("ctrl+shift+s", "vcp switch main 60 15 18"),
    ]);
    assert!(plan.problems.is_empty(), "{:?}", plan.problems);
    assert_eq!(plan.ready.len(), 2);
    let specs: Vec<&str> = plan.ready.iter().map(|a| a.spec.as_str()).collect();
    assert_eq!(specs, ["ctrl+shift+d", "ctrl+shift+s"]);
}

/// One bad line must not cost the good ones.
#[test]
fn keeps_the_working_hotkeys_and_explains_the_rest() {
    let plan = planned(&[
        ("ctrl+shift+d", "switch"),
        ("ctrl+shift+nope", "switch"),
    ]);
    assert_eq!(plan.ready.len(), 1);
    assert_eq!(plan.ready[0].spec, "ctrl+shift+d");
    assert_eq!(plan.problems.len(), 1);
    assert!(plan.problems[0].contains("nope"), "{:?}", plan.problems);
}

/// A command that would have failed on the command line fails at startup instead of
/// becoming a key that quietly does nothing.
#[test]
fn rejects_a_command_the_cli_would_reject() {
    let plan = planned(&[("ctrl+shift+d", "swtich")]);
    assert!(plan.ready.is_empty());
    assert_eq!(plan.problems.len(), 1);
}

/// A problem says what is wrong, once: the cause of it is in the text already.
#[test]
fn a_refused_value_is_explained_once() {
    let plan = planned(&[("ctrl+shift+d", "vcp set main 60 x")]);
    assert_eq!(plan.problems.len(), 1);
    let said = &plan.problems[0];
    assert_eq!(said.matches("invalid digit found in string").count(), 1, "{said}");
}

#[test]
fn rejects_an_empty_command() {
    let plan = planned(&[("ctrl+shift+d", "   ")]);
    assert!(plan.ready.is_empty());
    assert!(
        plan.problems[0].contains("no command"),
        "{:?}",
        plan.problems
    );
}

/// Different spellings, same keystroke: the second RegisterHotKey would be the one
/// to fail, so say so up front.
#[test]
fn notices_two_entries_asking_for_the_same_keys() {
    let plan = planned(&[
        ("ctrl+shift+d", "switch"),
        ("CTRL+SHIFT+D", "apply-profile tv"),
    ]);
    assert_eq!(plan.ready.len(), 1);
    assert_eq!(plan.problems.len(), 1);
    assert!(
        plan.problems[0].contains("same keys"),
        "{:?}",
        plan.problems
    );
}

#[test]
fn no_hotkeys_is_not_a_problem() {
    let plan = planned(&[]);
    assert!(plan.ready.is_empty() && plan.problems.is_empty());
}

#[test]
fn complaints_about_commands_are_passed_on() {
    let map = configured(&[("ctrl+a", "switch"), ("ctrl+b", "list")]);
    let plan = plan_with(&map, &[Err("no such thing".to_string()), Ok(())]);
    assert_eq!(plan.problems, ["ctrl+a: no such thing"]);
    assert_eq!(plan.ready.len(), 1);
    assert_eq!(plan.ready[0].command, "list");
    assert_eq!(plan.ready[0].words, ["list"]);
}

#[test]
fn an_accepted_entry_keeps_its_command_and_words() {
    let plan = planned(&[("ctrl+shift+d", r#"apply-profile "living room""#)]);
    assert_eq!(plan.ready[0].command, r#"apply-profile "living room""#);
    assert_eq!(plan.ready[0].words, ["apply-profile", "living room"]);
    assert_eq!(plan.ready[0].binding, parse("ctrl+shift+d").unwrap());
}
