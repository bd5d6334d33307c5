use monitor_switcher::config::Config;
use monitor_switcher::error::Error;
use monitor_switcher::hotkey::{plan, Plan};
use monitor_switcher::icon::Status;
use monitor_switcher::tray::{
    already_running, autostart_command, choice_of, config_path, event_of, failed_lines, failure,
    reload, reply_to, running_line, runs_lines, start, Choice, Dispatch, Event, Item, State,
    ID_ACTION, ID_AUTOSTART, ID_CONFIG, ID_EXIT, ID_LOG, ID_RELOAD, TIP_UNITS, WM_ACTION_DONE,
    WM_CLOSE, WM_CREATE, WM_DESTROY, WM_DISPLAYCHANGE, WM_HOTKEY, WM_LBUTTONDBLCLK, WM_LBUTTONUP,
    WM_QUERYENDSESSION, WM_RBUTTONUP, WM_TRAY,
};
use monitor_switcher::winerr::Answer;

fn config(pairs: &[(&str, &str)]) -> Config {
    let mut config = Config::default();
    for (k, v) in pairs {
        config.hotkeys.insert(k.to_string(), v.to_string());
    }
    config
}

fn planned(pairs: &[(&str, &str)]) -> Plan {
    plan(&config(pairs).hotkeys, false)
}

fn state(pairs: &[(&str, &str)]) -> State {
    let plan = planned(pairs);
    State {
        config: "config.json".to_string(),
        actions: plan.ready,
        problems: plan.problems,
        status: Status::Ready,
        active: None,
    }
}

const TWO: [(&str, &str); 2] = [("ctrl+shift+d", "switch"), ("ctrl+shift+s", "list")];

#[test]
fn the_icon_says_how_things_stand() {
    let mut s = state(&TWO);
    assert_eq!(s.tooltip(), "monitor-switcher — on an unnamed arrangement");
    s.active = Some("desk".to_string());
    assert_eq!(s.tooltip(), "monitor-switcher — on desk");
    assert!(s.set_status(Status::Working));
    assert_eq!(s.tooltip(), "monitor-switcher — working, on desk");
    assert!(s.set_status(Status::Problem));
    assert_eq!(s.tooltip(), "monitor-switcher — last action failed, on desk");
    s.problems.push("x".to_string());
    assert_eq!(s.tooltip(), "monitor-switcher — 1 hotkey unavailable, on desk");
    s.problems.push("y".to_string());
    assert_eq!(s.tooltip(), "monitor-switcher — 2 hotkeys unavailable, on desk");
    // A hotkey that never registered is a standing condition.
    assert!(!s.set_status(Status::Ready));
    assert_eq!(s.status, Status::Problem);
}

#[test]
fn what_the_icon_says_is_cut_to_the_room_there_is() {
    let mut s = state(&TWO);
    s.active = Some("x".repeat(200));
    let tip = s.wide_tip();
    assert_eq!(tip.len(), TIP_UNITS);
    let whole: Vec<u16> = s.tooltip().encode_utf16().collect();
    assert_eq!(tip, whole[..TIP_UNITS]);
    s.active = Some("🖥".to_string());
    assert_eq!(s.wide_tip(), s.tooltip().encode_utf16().collect::<Vec<u16>>());
}

#[test]
fn the_daemon_starts_where_there_is_something_to_do() {
    let plan = start("c.json", Ok(config(&TWO)), false).unwrap();
    assert_eq!(
        runs_lines(&plan.ready),
        ["Ctrl+Shift+D runs \"switch\"", "Ctrl+Shift+S runs \"list\""]
    );

    let why = start("c.json", Ok(config(&[])), false).unwrap_err().message();
    assert!(why.starts_with("no hotkeys are configured"), "{why}");
    assert!(why.contains("c.json"), "{why}");

    // One that is all wrong is explained in the menu.
    let plan = start("c.json", Ok(config(&[("s", "switch")])), false).unwrap();
    assert!(plan.ready.is_empty());
    assert_eq!(plan.problems.len(), 1);

    let missing = Error::Plain { why: "gone".to_string() };
    let why = start("c.json", Err(missing), false).unwrap_err();
    assert_eq!(failure(&why), "the daemon needs a config at c.json\n\ncaused by: gone");
}

#[test]
fn the_daemon_takes_one_option() {
    let args = |words: &[&str]| -> Vec<String> { words.iter().map(|w| w.to_string()).collect() };
    assert_eq!(config_path(&args(&[])).unwrap(), None);
    assert_eq!(
        config_path(&args(&["--config", "a.json"])).unwrap().as_deref(),
        Some("a.json")
    );
    assert_eq!(
        config_path(&args(&["--config"])).unwrap_err().message(),
        "--config needs a path after it"
    );
    let why = config_path(&args(&["list"])).unwrap_err().message();
    assert!(why.contains("not \"list\""), "{why}");
    assert!(already_running().message().contains("already running"));
}

#[test]
fn a_refused_hotkey_does_not_shift_the_others() {
    let mut s = state(&[("ctrl+a", "list"), ("ctrl+b", "switch"), ("ctrl+c", "vcp caps main")]);
    let refused = Answer { code: 1409, message: Some("Hot key is already registered.".to_string()) };
    for (i, action) in s.take_planned().into_iter().enumerate() {
        let id = s.next_id();
        if i == 1 {
            s.registered(action, Some(&refused));
        } else {
            let command = action.command.clone();
            s.registered(action, None);
            assert_eq!(s.actions[id].command, command);
        }
    }
    assert_eq!(s.actions.len(), 2);
    assert_eq!(s.actions[1].command, "vcp caps main");
    assert_eq!(
        s.problems,
        ["ctrl+b: Windows would not register it (error 1409: Hot key is already registered.). Another program probably has it."]
    );
    s.started();
    assert_eq!(s.status, Status::Problem);
}

#[test]
fn a_reload_keeps_what_works() {
    let broken = reload(Err(Error::Plain { why: "bad json".to_string() }), false).unwrap_err();
    assert_eq!(
        broken,
        ["reload failed, keeping the hotkeys already registered: bad json"]
    );

    let unusable = reload(Ok(config(&[("s", "switch")])), false).unwrap_err();
    assert_eq!(
        unusable[0],
        "reload found no usable hotkey, keeping the ones already registered:"
    );
    assert!(unusable[1].starts_with("  s: "), "{unusable:?}");

    // Turning hotkeys off is honoured.
    let none = reload(Ok(config(&[])), false).unwrap();
    assert!(none.ready.is_empty() && none.problems.is_empty());

    let mut s = state(&TWO);
    s.status = Status::Problem;
    let todo = s.replan(none);
    assert!(todo.is_empty() && s.actions.is_empty());
    let lines = s.reloaded(Some("desk".to_string()));
    assert_eq!(
        lines,
        [
            "no hotkeys are configured now; the daemon is idle until you add one",
            "config reloaded"
        ]
    );
    assert_eq!(s.status, Status::Ready);
    assert_eq!(s.active.as_deref(), Some("desk"));
}

#[test]
fn messages_mean_what_they_mean() {
    let of = |msg, number, click| event_of(msg, number, click, 0xC123);
    assert_eq!(of(WM_CREATE, 0, 0), Event::Create);
    assert_eq!(of(WM_HOTKEY, 3, 0), Event::Run { index: 3 });
    assert_eq!(of(WM_TRAY, 1, WM_RBUTTONUP), Event::Menu);
    assert_eq!(of(WM_TRAY, 1, WM_LBUTTONUP), Event::Menu);
    assert_eq!(of(WM_TRAY, 1, WM_LBUTTONDBLCLK), Event::Run { index: 0 });
    assert_eq!(of(WM_TRAY, 1, 0x200), Event::Ignored);
    assert_eq!(of(WM_ACTION_DONE, 1, 0), Event::ActionDone { ok: true });
    assert_eq!(of(WM_ACTION_DONE, 0, 0), Event::ActionDone { ok: false });
    assert_eq!(of(WM_DISPLAYCHANGE, 0, 0), Event::DisplayChange);
    assert_eq!(of(WM_CLOSE, 0, 0), Event::Close);
    assert_eq!(of(WM_QUERYENDSESSION, 0, 0), Event::EndSession);
    assert_eq!(of(WM_DESTROY, 0, 0), Event::Destroy);
    assert_eq!(of(0xC123, 0, 0), Event::TaskbarCreated);
    assert_eq!(of(0x0F, 0, 0), Event::Other);
    assert_eq!(reply_to(Event::Other), None);
    assert_eq!(reply_to(Event::EndSession), Some(1));
    assert_eq!(reply_to(Event::Menu), Some(0));
}

#[test]
fn one_action_runs_at_a_time() {
    let mut s = state(&TWO);
    assert!(matches!(s.dispatch(2, false), Dispatch::Nothing));
    assert!(!s.has_action(2) && s.has_action(1));
    match s.dispatch(0, false) {
        Dispatch::Started { words, label, redraw } => {
            assert_eq!(words, ["switch"]);
            assert_eq!(label, "switch");
            assert!(redraw);
        }
        other => panic!("{other:?}"),
    }
    assert_eq!(s.status, Status::Working);
    match s.dispatch(1, true) {
        Dispatch::Ignored { line } => {
            assert_eq!(line, "\"list\" ignored: the previous action is still running");
        }
        other => panic!("{other:?}"),
    }
    assert!(s.action_done(true, Some("tv".to_string())));
    assert_eq!(s.status, Status::Ready);
    assert_eq!(s.active.as_deref(), Some("tv"));
    assert!(s.action_done(false, None));
    assert_eq!(s.status, Status::Problem);
}

#[test]
fn an_action_is_logged() {
    assert_eq!(running_line("switch"), "running \"switch\"");
    let error = Error::Nested {
        doing: "doing this".to_string(),
        inner: Box::new(Error::Plain { why: "broken".to_string() }),
    };
    assert_eq!(
        failed_lines("switch", &error),
        ["\"switch\" failed: doing this: broken", "  caused by: broken"]
    );
}

#[test]
fn the_menu_shows_everything_and_picking_does_it() {
    let mut s = state(&[("ctrl+shift+d", "switch"), ("s", "list"), ("ctrl+shift+x", "list")]);
    s.active = Some("desk".to_string());
    let items = s.menu(true);
    assert!(matches!(&items[0], Item::Note { text } if text == "Active: desk"));
    assert!(matches!(&items[1], Item::Separator));
    match &items[2] {
        Item::Entry { text, id, checked } => {
            assert_eq!(text, "switch\tCtrl+Shift+D");
            assert_eq!(*id, ID_ACTION);
            assert!(!*checked);
            assert_eq!(choice_of(*id, true), Choice::Run { index: 0 });
        }
        other => panic!("{other:?}"),
    }
    assert!(matches!(&items[3], Item::Entry { id, .. } if *id == ID_ACTION + 1));
    assert!(matches!(&items[4], Item::Separator));
    assert!(matches!(&items[5], Item::Note { text } if text.starts_with("s: ")));
    let rest: Vec<(usize, bool)> = items[6..]
        .iter()
        .filter_map(|i| match i {
            Item::Entry { id, checked, .. } => Some((*id, *checked)),
            _ => None,
        })
        .collect();
    assert_eq!(
        rest,
        [
            (ID_CONFIG, false),
            (ID_LOG, false),
            (ID_RELOAD, false),
            (ID_AUTOSTART, true),
            (ID_EXIT, false)
        ]
    );
    assert_eq!(items.len(), 13);

    assert_eq!(choice_of(0, true), Choice::Nothing);
    assert_eq!(choice_of(ID_CONFIG, true), Choice::OpenConfig);
    assert_eq!(choice_of(ID_LOG, true), Choice::OpenLog);
    assert_eq!(choice_of(ID_RELOAD, true), Choice::Reload);
    assert_eq!(choice_of(ID_AUTOSTART, true), Choice::Autostart { on: false });
    assert_eq!(choice_of(ID_AUTOSTART, false), Choice::Autostart { on: true });
    assert_eq!(choice_of(ID_EXIT, true), Choice::Exit);

    let mut quiet = state(&TWO);
    quiet.active = None;
    let items = quiet.menu(false);
    assert!(matches!(&items[0], Item::Note { text } if text == "Active: an unnamed arrangement"));
    assert_eq!(items.len(), 11);
}

#[test]
fn autostart_names_the_config() {
    assert_eq!(
        autostart_command(r"C:\a b\tray.exe", r"C:\c\config.json"),
        r#""C:\a b\tray.exe" --config "C:\c\config.json""#
    );
}
