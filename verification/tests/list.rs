use monitor_switcher::cli::list::{json_rows, luid_text, render_table, run, shown};
use monitor_switcher::config::{Config, TargetEntry};
use monitor_switcher::display::ccd::{Luid, SourceMode, TargetName};
use monitor_switcher::display::identity::Refresh;
use monitor_switcher::display::{Monitor, TargetKey};

const HEADERS: [&str; 8] = [
    "NAME", "STATE", "GPU", "TARGET", "CONN", "MODE", "POSITION", "MONITOR",
];

fn cells(values: [&str; 8]) -> [String; 8] {
    values.map(String::from)
}

/// Every column starts at the same offset on every line, header included.
#[test]
fn render_table_aligns_each_column_across_every_line() {
    let rows = [
        cells([
            "main",
            "active",
            "gpu0",
            "37121",
            "DisplayPort",
            "3840x2160",
            "0,0",
            "MSI",
        ]),
        cells([
            "sidemon", "inactive", "gpu0", "37124", "HDMI", "-", "-", "LG",
        ]),
    ];
    let out = render_table(&HEADERS, &rows);
    assert_eq!(out.len(), 3);

    let sources = [cells(HEADERS), rows[0].clone(), rows[1].clone()];
    // Widest cell per column, plus the two-space separator.
    let widths = [7usize, 8, 4, 6, 11, 9, 8];
    let mut offset = 0;
    for (col, width) in widths.iter().enumerate() {
        for (line, source) in out.iter().zip(&sources) {
            assert!(
                line[offset..].starts_with(&source[col]),
                "column {col} of {line:?} does not begin at {offset}"
            );
        }
        offset += width + 2;
    }
}

/// The last column is not padded, so no row carries invisible trailing whitespace
/// into a terminal or a copy-paste.
#[test]
fn render_table_leaves_no_trailing_whitespace() {
    let rows = [cells(["a", "b", "c", "d", "e", "f", "g", "h"])];
    for line in render_table(&HEADERS, &rows) {
        assert_eq!(line, line.trim_end(), "trailing space in {line:?}");
    }
}

#[test]
fn render_table_of_no_rows_is_just_the_header() {
    let out = render_table(&HEADERS, &[]);
    assert_eq!(
        out,
        ["NAME  STATE  GPU  TARGET  CONN  MODE  POSITION  MONITOR"]
    );
}

/// Widths are counted in characters. Measuring bytes would pad a column holding any
/// non-ASCII name one place too far for every row in it.
#[test]
fn render_table_measures_characters_not_bytes() {
    let headers = ["N", "S", "G", "T", "C", "M", "P", "MONITOR"];
    let rows = [
        // Seven characters, eight bytes.
        cells(["ölandet", "b", "c", "d", "e", "f", "g", "h"]),
        cells(["1234567", "b", "c", "d", "e", "f", "g", "h"]),
    ];
    let out = render_table(&headers, &rows);
    for line in &out[1..] {
        let chars: Vec<char> = line.chars().collect();
        assert_eq!(
            chars[9], 'b',
            "second column should start at character 9 of {line:?}"
        );
    }
}

fn monitor(adapter: &str, target_id: u32, active: bool) -> Monitor {
    Monitor {
        key: TargetKey { adapter: adapter.to_string(), target_id },
        adapter_luid: Luid { low_part: 0xBEEF, high_part: 1 },
        source_id: 0,
        active,
        available: true,
        name: TargetName {
            friendly: Some("LG".to_string()),
            device_path: None,
            edid: None,
            output_technology: 5,
        },
        mode: if active { Some(SourceMode { width: 1920, height: 1080, x: -10, y: 0 }) } else { None },
        refresh: if active { Some(Refresh { numerator: 60, denominator: 1 }) } else { None },
        gdi_name: None,
    }
}

#[test]
fn a_listing_shows_each_output_and_the_adapters() {
    let mut config = Config::default();
    config.targets.insert(
        "tv".to_string(),
        TargetEntry {
            key: TargetKey { adapter: "pci-b".to_string(), target_id: 2 },
            edid: None,
            friendly: None,
            cec: None,
        },
    );
    let monitors = [monitor("pci-a", 1, true), monitor("pci-b", 2, false)];
    let rates = [Some("60Hz".to_string()), None];
    let lines = run(&monitors, &config, false, &rates);
    let text = lines.join("\n");
    assert!(lines[0].starts_with("NAME"), "{text}");
    assert!(lines[1].contains("1920x1080 @ 60Hz"), "{text}");
    assert!(lines[1].contains("-10,0"), "{text}");
    assert!(lines[1].contains("HDMI"), "{text}");
    assert!(lines[2].starts_with("tv"), "{text}");
    assert!(text.contains("pci-a") && text.contains("pci-b"), "{text}");
    for line in &lines {
        assert_eq!(line, line.trim_end());
    }

    let only = run(&monitors, &config, true, &rates);
    assert!(!only.join("\n").contains("pci-b"));
}

#[test]
fn only_active_outputs_are_shown_on_request() {
    let monitors = [monitor("a", 1, false), monitor("a", 2, true), monitor("b", 3, true)];
    assert_eq!(shown(&monitors, false), [0, 1, 2]);
    assert_eq!(shown(&monitors, true), [1, 2]);
}

#[test]
fn a_luid_is_written_in_hex() {
    assert_eq!(luid_text(Luid { low_part: 0xBEEF, high_part: 1 }), "0x00000001-0x0000BEEF");
}

#[test]
fn a_row_tells_all_about_an_output_that_is_shown() {
    let mut config = Config::default();
    config.targets.insert(
        "tv".to_string(),
        TargetEntry {
            key: TargetKey { adapter: "pci-b".to_string(), target_id: 2 },
            edid: None,
            friendly: None,
            cec: None,
        },
    );
    let mut main = monitor("pci-a", 1, true);
    main.source_id = 7;
    main.name.device_path = Some(r"\\?\DISPLAY#LG".to_string());
    main.name.edid = Some("GSM5BD3".to_string());
    main.gdi_name = Some(r"\\.\DISPLAY1".to_string());
    let mut tv = monitor("pci-b", 2, false);
    tv.available = false;
    tv.name.friendly = None;
    let monitors = [main, tv];

    let rows = json_rows(&monitors, &config, false);
    assert_eq!(rows.len(), 2);
    let row = &rows[0];
    assert_eq!(row.name, None);
    assert_eq!((row.adapter.as_str(), row.target_id), ("pci-a", 1));
    assert_eq!(row.adapter_luid, "0x00000001-0x0000BEEF");
    assert_eq!(row.source_id, 7);
    assert!(row.active && row.available);
    assert_eq!(row.connector, "HDMI");
    assert_eq!(row.friendly.as_deref(), Some("LG"));
    assert_eq!(row.edid.as_deref(), Some("GSM5BD3"));
    assert_eq!(row.monitor_device_path.as_deref(), Some(r"\\?\DISPLAY#LG"));
    assert_eq!(row.gdi_name.as_deref(), Some(r"\\.\DISPLAY1"));
    assert_eq!((row.width, row.height), (Some(1920), Some(1080)));
    assert_eq!((row.x, row.y), (Some(-10), Some(0)));
    assert_eq!(row.refresh, Some(Refresh { numerator: 60, denominator: 1 }));

    let row = &rows[1];
    assert_eq!(row.name.as_deref(), Some("tv"));
    assert!(!row.active && !row.available);
    assert_eq!((row.width, row.height, row.x, row.y), (None, None, None, None));
    assert_eq!((&row.friendly, &row.edid, &row.gdi_name), (&None, &None, &None));
    assert_eq!(row.refresh, None);

    let active = json_rows(&monitors, &config, true);
    assert_eq!(active.len(), 1);
    assert_eq!(active[0].target_id, 1);
}

#[test]
fn a_desk_with_four_displays_is_listed() {
    let desk = [
        ("main", 37121, 10, Some((3840, 2160, 0, 0)), "MPG321UX OLED", "MSI3DD2", Some("239.99Hz")),
        ("dell", 37123, 5, Some((1920, 1200, 3840, 401)), "DELL U2415", "DELA0BC", Some("59.95Hz")),
        ("sidemon", 37124, 10, Some((2560, 1440, -2560, 167)), "LG ULTRAGEAR", "GSM5BD3", Some("59.951Hz")),
        ("tv", 37120, 5, None, "Philips FTV", "PHL01EA", None),
    ];
    let mut config = Config::default();
    let mut monitors = Vec::new();
    let mut rates = Vec::new();
    for (name, target_id, technology, mode, friendly, edid, rate) in desk {
        let key = TargetKey { adapter: "pci".to_string(), target_id };
        let mut m = monitor("pci", target_id, mode.is_some());
        m.mode = mode.map(|(width, height, x, y)| SourceMode { width, height, x, y });
        m.name = TargetName {
            friendly: Some(friendly.to_string()),
            device_path: None,
            edid: Some(edid.to_string()),
            output_technology: technology,
        };
        monitors.push(m);
        rates.push(rate.map(String::from));
        config.targets.insert(
            name.to_string(),
            TargetEntry { key, edid: None, friendly: None, cec: None },
        );
    }
    assert_eq!(
        run(&monitors, &config, false, &rates),
        [
            "NAME     STATE     GPU   TARGET  CONN         MODE                  POSITION   MONITOR",
            "main     active    gpu0  37121   DisplayPort  3840x2160 @ 239.99Hz  0,0        MPG321UX OLED [MSI3DD2]",
            "dell     active    gpu0  37123   HDMI         1920x1200 @ 59.95Hz   3840,401   DELL U2415 [DELA0BC]",
            "sidemon  active    gpu0  37124   DisplayPort  2560x1440 @ 59.951Hz  -2560,167  LG ULTRAGEAR [GSM5BD3]",
            "tv       inactive  gpu0  37120   HDMI         -                     -          Philips FTV [PHL01EA]",
            "",
            "gpu0  pci",
        ]
    );
}
