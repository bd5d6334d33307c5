use monitor_switcher::app::{
    check_words, parse_args, parse_words, report, run, run_words, split_words, switch_names, Cli,
    Command, ConfigPlace, DryRun,
};
use monitor_switcher::cli;
use monitor_switcher::config::Config;
use monitor_switcher::display::apply::{Outcome, Report, Tier};
use monitor_switcher::error::causes;

fn words(line: &str) -> Vec<String> {
    split_words(line)
}

fn argv(line: &str) -> Vec<String> {
    let mut v = vec!["monitor-switcher".to_string()];
    v.extend(words(line));
    v
}

/// The two actions actually bound on this desk, straight out of the shortcuts they
/// replace.
#[test]
fn split_words_handles_the_real_actions() {
    assert_eq!(words("switch"), ["switch"]);
    assert_eq!(
        words("vcp switch main 60 15 18"),
        ["vcp", "switch", "main", "60", "15", "18"]
    );
}

#[test]
fn split_words_ignores_surplus_whitespace() {
    assert_eq!(words("  switch   tv  "), ["switch", "tv"]);
    assert_eq!(words(""), Vec::<String>::new());
    assert_eq!(words("   "), Vec::<String>::new());
}

#[test]
fn split_words_keeps_a_quoted_argument_together() {
    assert_eq!(
        words(r#"apply-profile "living room""#),
        ["apply-profile", "living room"]
    );
    assert_eq!(words(r#""" x"#), ["", "x"]);
}

#[test]
fn split_words_joins_what_touches_and_closes_nothing() {
    assert_eq!(words(r#"a"b c"d e"#), ["ab cd", "e"]);
    assert_eq!(words(r#"a "b c"#), ["a", "b c"]);
    assert_eq!(words("a\u{a0}b\tc"), ["a", "b", "c"]);
}

/// Every configured action is parsed by the command line's own parser, so a typo
/// is a startup error rather than a hotkey that does nothing.
#[test]
fn a_configured_action_is_checked_against_the_real_parser() {
    let ok = parse_args(&argv("switch"), true);
    assert!(ok.is_ok());

    let bad = parse_args(&argv("swtich"), true);
    assert!(bad.is_err(), "a misspelled subcommand was accepted");
}

#[test]
fn vcp_switch_parses_with_its_values() {
    let cli = parse_args(&argv("vcp switch main 60 15 18"), true)
        .expect("the action bound to ctrl+shift+s");
    match cli.command {
        Command::Vcp {
            command: cli::vcp::Command::Switch { target, values, code },
        } => {
            assert_eq!(target, "main");
            assert_eq!(code, "60");
            assert_eq!(values, [15, 18]);
        }
        _ => panic!("parsed as the wrong command"),
    }
}

#[test]
fn every_command_is_understood() {
    let cli = parse_args(&argv("list --active --json"), false).unwrap();
    assert!(cli.config.is_none());
    assert!(matches!(cli.command, Command::List { active: true, json: true }));

    let cli = parse_args(&argv("list"), false).unwrap();
    assert!(matches!(cli.command, Command::List { active: false, json: false }));

    let cli = parse_args(&argv("save-profile desk --force"), false).unwrap();
    match cli.command {
        Command::SaveProfile { name, force } => {
            assert_eq!(name, "desk");
            assert!(force);
        }
        _ => panic!("parsed as the wrong command"),
    }

    let cli = parse_args(&argv("apply-profile tv --dry-run"), false).unwrap();
    match cli.command {
        Command::ApplyProfile { name, dry } => {
            assert_eq!(name, "tv");
            assert_eq!(dry, DryRun { dry_run: true });
        }
        _ => panic!("parsed as the wrong command"),
    }

    let cli = parse_args(&argv("switch desk tv"), false).unwrap();
    match cli.command {
        Command::Switch { profiles, dry } => {
            assert_eq!(profiles, ["desk", "tv"]);
            assert_eq!(dry, DryRun { dry_run: false });
        }
        _ => panic!("parsed as the wrong command"),
    }

    let cli = parse_args(&argv("cec off tv"), true).unwrap();
    match cli.command {
        Command::Cec { action, target } => {
            assert_eq!(action, cli::cec::Action::Off);
            assert_eq!(target.as_deref(), Some("tv"));
        }
        _ => panic!("parsed as the wrong command"),
    }

    let cli = parse_args(&argv("vcp get main 0x60"), false).unwrap();
    match cli.command {
        Command::Vcp { command: cli::vcp::Command::Get { target, code } } => {
            assert_eq!(target, "main");
            assert_eq!(code, "0x60");
        }
        _ => panic!("parsed as the wrong command"),
    }

    let cli = parse_args(&argv("vcp set main 60 15"), false).unwrap();
    match cli.command {
        Command::Vcp { command: cli::vcp::Command::Write { target, code, value } } => {
            assert_eq!(target, "main");
            assert_eq!(code, "60");
            assert_eq!(value, 15);
        }
        _ => panic!("parsed as the wrong command"),
    }

    let cli = parse_args(&argv("vcp caps main"), false).unwrap();
    match cli.command {
        Command::Vcp { command: cli::vcp::Command::Caps { target } } => assert_eq!(target, "main"),
        _ => panic!("parsed as the wrong command"),
    }
}

#[test]
fn the_config_option_is_understood_anywhere() {
    for line in ["--config a.json list", "list --config a.json", "list --config=a.json"] {
        let cli = parse_args(&argv(line), false).unwrap();
        assert_eq!(cli.config.as_deref(), Some("a.json"), "{line}");
    }
    let cli = parse_args(&argv("vcp --config a.json caps main"), false).unwrap();
    assert_eq!(cli.config.as_deref(), Some("a.json"));
}

#[test]
fn the_command_line_refuses_nonsense() {
    for line in [
        "",
        "nope",
        "save-profile",
        "apply-profile",
        "switch a b c",
        "vcp",
        "vcp set main 60",
        "vcp set main 60 x",
        "vcp set main 60 4294967296",
        "vcp switch main 60",
        "vcp switch main 60 15",
        "cec",
        "cec sideways",
        "list --nope",
        "list extra",
        "--config",
    ] {
        let usage = parse_args(&argv(line), true).unwrap_err();
        assert!(usage.complaint, "{line:?} was not complained about");
        assert!(!usage.text.is_empty(), "{line:?}");
    }
}

#[test]
fn cec_is_a_command_only_where_it_is_built_in() {
    assert!(parse_args(&argv("cec status"), true).is_ok());
    assert!(parse_args(&argv("cec status"), false).is_err());
}

#[test]
fn help_and_version_are_answers_and_not_complaints() {
    let version = parse_args(&argv("--version"), true).unwrap_err();
    assert!(!version.complaint);
    assert_eq!(version.text.trim(), "monitor-switcher 0.1.0");

    let help = parse_args(&argv("--help"), true).unwrap_err();
    assert!(!help.complaint);
    assert!(help.text.contains("Switch display topology via the Windows CCD API"), "{}", help.text);
    for command in ["list", "save-profile", "apply-profile", "cec", "vcp", "switch"] {
        assert!(help.text.contains(command), "{}", help.text);
    }
}

#[test]
fn usage_goes_by_the_name_of_the_programs_file() {
    let usage = |program: &str| {
        let argv = [program.to_string(), "nope".to_string()];
        parse_args(&argv, false).unwrap_err().text
    };
    for program in [
        "switcher.exe",
        "/opt/tools/switcher.exe",
        "./switcher.exe",
        "tools/switcher.exe/",
        "tools/switcher.exe/.",
        "tools//switcher.exe",
    ] {
        assert!(usage(program).contains("Usage: switcher.exe "), "{}", usage(program));
    }
    for program in ["", ".", "..", "tools/..", "/"] {
        assert!(usage(program).contains("Usage: monitor-switcher "), "{}", usage(program));
    }
    // Where a path is for the system to take apart, its last component counts.
    for program in [r"C:\tools\switcher.exe", r"C:\", "C:", "a:b", r"tools\", "//server/share/x"] {
        let name = std::path::Path::new(program).file_name().map(|n| n.to_str().unwrap());
        let said = format!("Usage: {} ", name.unwrap_or("monitor-switcher"));
        assert!(usage(program).contains(&said), "{}", usage(program));
    }
    assert!(parse_args(&[], false).unwrap_err().complaint);
}

#[test]
fn words_are_read_for_a_program_that_goes_by_a_name_or_by_none() {
    let usage = |program: Option<&str>, line: &str| {
        parse_words(program.map(String::from), &words(line), false).unwrap_err().text
    };
    assert!(usage(Some("switcher.exe"), "vcp --help").contains("Usage: switcher.exe vcp "));
    assert!(usage(None, "--help").contains("Usage: monitor-switcher "));
    assert!(usage(None, "vcp --help").contains("Usage: vcp "));
    assert!(parse_words(None, &words("switch desk tv"), false).is_ok());
}

#[test]
fn a_refused_value_carries_its_cause() {
    let usage = parse_args(&argv("vcp set main 60 x"), false).unwrap_err();
    assert_eq!(usage.causes, ["invalid digit found in string"]);
    let error = run_words(&words("vcp set main 60 x"), "config.json", false).unwrap_err();
    assert_eq!(causes(&error), [usage.text.as_str(), "invalid digit found in string"]);
    let error = check_words(&words("vcp set main 60 4294967296"), false).unwrap_err();
    assert_eq!(causes(&error)[1..], ["4294967296 is not in 0..=4294967295"]);
    let error = run_words(&words("swtich"), "config.json", false).unwrap_err();
    assert_eq!(causes(&error).len(), 1);
    let help = parse_args(&argv("--help"), false).unwrap_err();
    assert!(help.causes.is_empty());
}

#[test]
fn help_on_power_explains_each_action() {
    let help = parse_args(&argv("cec --help"), true).unwrap_err();
    assert!(!help.complaint);
    for said in [
        "status: Report the display's power state",
        "on:     Wake the display and take over its input",
        "off:    Put the display into standby",
    ] {
        assert!(help.text.contains(said), "{}", help.text);
    }
    let wrong = parse_args(&argv("cec sideways"), true).unwrap_err();
    assert!(wrong.text.contains("[possible values: status, on, off]"), "{}", wrong.text);
}

#[test]
fn a_number_past_its_range_is_refused_with_the_range() {
    for (value, said) in [
        ("4294967296", "4294967296 is not in 0..=4294967295"),
        ("x", "invalid digit found in string"),
    ] {
        let usage = parse_args(&argv(&format!("vcp set main 60 {value}")), false).unwrap_err();
        assert!(usage.text.contains(said), "{}", usage.text);
    }
}

#[test]
fn checked_words_are_those_that_would_parse() {
    assert!(check_words(&words("switch"), false).is_ok());
    let why = check_words(&words("swtich"), false).unwrap_err().message();
    assert!(why.contains("swtich"), "{why}");
}

#[test]
fn words_run_against_a_known_config_unless_they_name_their_own() {
    let cli = run_words(&words("switch desk tv"), r"C:\conf\config.json", false).unwrap();
    assert_eq!(cli.config.as_deref(), Some(r"C:\conf\config.json"));
    match cli.command {
        Command::Switch { profiles, .. } => assert_eq!(profiles, ["desk", "tv"]),
        _ => panic!("parsed as the wrong command"),
    }

    for line in ["--config other.json switch", "switch --config other.json"] {
        let cli = run_words(&words(line), "config.json", false).unwrap();
        assert_eq!(cli.config.as_deref(), Some("other.json"), "{line}");
    }

    assert!(run_words(&words("swtich"), "config.json", false).is_err());
}

#[test]
fn a_run_says_where_the_config_is_and_what_comes_first() {
    let given = parse_args(&argv("--config a.json list"), false).unwrap();
    let todo = run(given, Err("not found".to_string())).unwrap();
    assert!(matches!(&todo.config, ConfigPlace::Given { path } if path == "a.json"));
    assert!(todo.displays_first);
    assert!(!todo.needs_config);

    let usual = parse_args(&argv("switch"), false).unwrap();
    let todo = run(usual, Ok(r"C:\local".to_string())).unwrap();
    match &todo.config {
        ConfigPlace::Usual { parts } => {
            assert_eq!(parts, &[r"C:\local", "monitor-switcher", "config.json"]);
        }
        _ => panic!("looked elsewhere"),
    }
    assert!(!todo.displays_first);
    assert!(todo.needs_config);

    let lost = parse_args(&argv("switch"), false).unwrap();
    let why = run(lost, Err("environment variable not found".to_string())).unwrap_err();
    assert_eq!(
        why.message(),
        "LOCALAPPDATA is not set; pass --config with an explicit path: environment variable not found"
    );
    assert_eq!(
        causes(&why),
        [
            "LOCALAPPDATA is not set; pass --config with an explicit path",
            "environment variable not found",
        ]
    );

    let vcp = Cli {
        config: Some("a.json".to_string()),
        command: Command::Vcp {
            command: cli::vcp::Command::Caps { target: "main".to_string() },
        },
    };
    let todo = run(vcp, Err(String::new())).unwrap();
    assert!(!todo.displays_first && !todo.needs_config);
}

#[test]
fn switching_takes_no_profiles_or_exactly_two() {
    let mut config = Config::default();
    let two = ["desk".to_string(), "tv".to_string()];
    assert_eq!(switch_names(&config, &two).unwrap(), ("desk".to_string(), "tv".to_string()));
    assert_eq!(
        switch_names(&config, &two[..1]).unwrap_err().message(),
        "switch takes either no profiles or exactly 2"
    );
    assert!(switch_names(&config, &[]).unwrap_err().message().contains("no switch pair configured"));

    config.switch = Some(two.to_vec());
    assert_eq!(switch_names(&config, &[]).unwrap(), ("desk".to_string(), "tv".to_string()));

    config.switch = Some(vec!["desk".to_string()]);
    assert_eq!(
        switch_names(&config, &[]).unwrap_err().message(),
        "\"switch\" must name exactly 2 profiles, found 1"
    );
}

#[test]
fn a_report_says_what_came_of_it() {
    let lines = |outcome, notes: &[&str]| {
        report("tv", &Report { outcome, cec: notes.iter().map(|n| n.to_string()).collect() })
    };
    assert_eq!(lines(Outcome::AlreadyActive, &[]), ["\"tv\" is already active"]);
    assert_eq!(
        lines(Outcome::Validated, &[]),
        ["\"tv\" validates; nothing was changed"]
    );
    assert_eq!(
        lines(Outcome::Applied(Tier::Database), &["tv: awake"]),
        [
            format!("Applied \"tv\" — {}", Tier::Database.describe()),
            "  tv: awake".to_string()
        ]
    );
}
