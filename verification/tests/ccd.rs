use monitor_switcher::display::ccd::{
    adapter_device_path, decode_utf16, encode_utf16, format_edid_id, non_empty,
    output_technology_name, query, query_step, read_topology, source_gdi_name, target_name,
    wide_to_string, FixedNames, Luid, ModeInfo, PathInfo, QueryState, SourceInfo, SourceMode,
    SystemNames, TargetInfo, TargetName, TargetReply, Topology, DISPLAYCONFIG_OUTPUT_TECHNOLOGY_DISPLAYPORT_EXTERNAL,
    DISPLAYCONFIG_OUTPUT_TECHNOLOGY_HDMI, DISPLAYCONFIG_OUTPUT_TECHNOLOGY_INTERNAL,
    DISPLAYCONFIG_PATH_MODE_IDX_INVALID, EDID_IDS_VALID, QUERY_ATTEMPTS,
};
use monitor_switcher::error::Error;
use monitor_switcher::winerr::{Answer, ERROR_INSUFFICIENT_BUFFER, ERROR_SUCCESS};

const NOWHERE: Luid = Luid { low_part: 0, high_part: 0 };

/// A path whose source half points at `mode_idx`.
fn path_at(mode_idx: u32) -> PathInfo {
    PathInfo {
        source_info: SourceInfo {
            adapter_id: NOWHERE,
            id: 0,
            mode_info_idx: mode_idx,
            status_flags: 0,
        },
        target_info: TargetInfo {
            adapter_id: NOWHERE,
            id: 0,
            mode_info_idx: 0,
            output_technology: 0,
            rotation: 0,
            scaling: 0,
            refresh_numerator: 0,
            refresh_denominator: 0,
            scan_line_ordering: 0,
            target_available: false,
            status_flags: 0,
        },
        flags: 0,
    }
}

fn source_mode_info(width: u32, height: u32, x: i32, y: i32) -> ModeInfo {
    ModeInfo::Source(SourceMode { width, height, x, y })
}

#[test]
fn source_mode_reads_the_mode_a_path_points_at() {
    let topo = Topology {
        paths: Vec::new(),
        modes: vec![
            source_mode_info(1920, 1080, 0, 0),
            source_mode_info(3840, 2160, -2560, 167),
        ],
    };

    assert_eq!(
        topo.source_mode(&path_at(0)),
        Some(SourceMode {
            width: 1920,
            height: 1080,
            x: 0,
            y: 0
        })
    );
    // Displays left of or above the primary sit at negative coordinates; the
    // position fields are signed and must stay that way.
    assert_eq!(
        topo.source_mode(&path_at(1)),
        Some(SourceMode {
            width: 3840,
            height: 2160,
            x: -2560,
            y: 167
        })
    );
}

#[test]
fn source_mode_declines_an_index_past_the_end() {
    let topo = Topology {
        paths: Vec::new(),
        modes: vec![source_mode_info(1920, 1080, 0, 0)],
    };
    assert_eq!(topo.source_mode(&path_at(1)), None);
    assert_eq!(topo.source_mode(&path_at(9999)), None);
}

/// The value `build_paths` writes into every path it sends to Windows. It must read
/// back as "no mode", not as an enormous index.
#[test]
fn source_mode_declines_the_invalid_index_sentinel() {
    let topo = Topology {
        paths: Vec::new(),
        modes: vec![source_mode_info(1920, 1080, 0, 0)],
    };
    assert_eq!(
        topo.source_mode(&path_at(DISPLAYCONFIG_PATH_MODE_IDX_INVALID)),
        None
    );
}

/// An entry is only a source mode when it says so.
#[test]
fn source_mode_declines_an_entry_that_is_not_a_source_mode() {
    let topo = Topology {
        paths: Vec::new(),
        modes: vec![ModeInfo::Other],
    };
    assert_eq!(topo.source_mode(&path_at(0)), None);
}

#[test]
fn source_mode_declines_when_there_are_no_modes_at_all() {
    let topo = Topology {
        paths: Vec::new(),
        modes: Vec::new(),
    };
    assert_eq!(topo.source_mode(&path_at(0)), None);
}

// --- decoding the fixed-size buffers the Win32 calls fill in ---

fn wide(s: &str) -> Vec<u16> {
    s.encode_utf16().collect()
}

#[test]
fn wide_to_string_stops_at_the_terminator() {
    let mut buf = wide("DISPLAY1");
    buf.push(0);
    buf.extend(wide("leftover rubbish"));
    assert_eq!(wide_to_string(&buf), "DISPLAY1");
}

#[test]
fn wide_to_string_accepts_a_buffer_with_no_terminator() {
    assert_eq!(wide_to_string(&wide("DISPLAY1")), "DISPLAY1");
}

#[test]
fn wide_to_string_handles_empty_and_immediately_terminated_buffers() {
    assert_eq!(wide_to_string(&[]), "");
    assert_eq!(wide_to_string(&[0]), "");
    assert_eq!(wide_to_string(&[0, 0, 0]), "");
}

#[test]
fn wide_to_string_trims_padding() {
    assert_eq!(wide_to_string(&wide("  LG ULTRAGEAR  ")), "LG ULTRAGEAR");
}

/// An unpaired surrogate must come back lossily rather than panicking: this decodes
/// whatever the driver put in the buffer.
#[test]
fn wide_to_string_survives_invalid_utf16() {
    let decoded = wide_to_string(&[0xD800, 0x0041]);
    assert!(decoded.contains('A'), "{decoded:?}");
}

#[test]
fn decoding_agrees_with_the_standard_library() {
    for buf in [
        wide("plain"),
        wide("Übergröße — 日本 🖥 \u{10FFFF}"),
        vec![0xD83D, 0xDDA5, 0xD83D, 0x0041, 0xDDA5],
        vec![0xDC00, 0xD800],
        vec![0xD800, 0xD800, 0xDC00],
        vec![0xD800],
        vec![],
    ] {
        assert_eq!(decode_utf16(&buf, buf.len()), String::from_utf16_lossy(&buf), "{buf:?}");
    }
}

#[test]
fn encoding_agrees_with_the_standard_library_and_decodes_back() {
    for text in ["", "plain", "Übergröße — 日本", "🖥x\u{10000}\u{10FFFF}\u{FFFF}"] {
        let units = encode_utf16(text);
        assert_eq!(units, wide(text), "{text}");
        assert_eq!(decode_utf16(&units, units.len()), text);
    }
}

#[test]
fn non_empty_maps_blank_to_none() {
    assert_eq!(non_empty(String::new()), None);
    assert_eq!(non_empty("x".to_string()), Some("x".to_string()));
}

// --- EDID id decoding ---

/// The four monitors this was built against. The manufacturer ids are the
/// little-endian u16 Windows reports for the big-endian pair EDID stores (Dell's
/// `10 AC` arrives as `0xAC10`), so this pins the byte swap as well as the 5-bit
/// unpacking.
#[test]
fn format_edid_id_decodes_real_monitors() {
    assert_eq!(format_edid_id(0x6936, 0x3DD2), "MSI3DD2");
    assert_eq!(format_edid_id(0x6D1E, 0x5BD3), "GSM5BD3");
    assert_eq!(format_edid_id(0xAC10, 0xA0BC), "DELA0BC");
    assert_eq!(format_edid_id(0x0C41, 0x01EA), "PHL01EA");
}

/// Dropping the swap would decode the same bytes as something else entirely; this
/// fails if anyone decides the swap looks redundant.
#[test]
fn format_edid_id_is_sensitive_to_the_byte_swap() {
    assert_ne!(
        format_edid_id(0xAC10, 0xA0BC),
        format_edid_id(0x10AC, 0xA0BC)
    );
}

#[test]
fn format_edid_id_pads_the_product_code_to_four_digits() {
    assert_eq!(format_edid_id(0x0C41, 0x0001), "PHL0001");
}

/// Five bits hold 0..=31, but only 1..=26 name a letter. Anything else is a
/// manufacturer id that was never filled in.
#[test]
fn format_edid_id_marks_letters_that_are_out_of_range() {
    assert_eq!(format_edid_id(0x0000, 0x0000), "???0000");
    // 27, 27, 27: in range for the field, outside the alphabet.
    let packed: u16 = (27 << 10) | (27 << 5) | 27;
    assert_eq!(format_edid_id(packed.swap_bytes(), 0x1234), "???1234");
}

#[test]
fn output_technology_names_the_connectors_in_use_here() {
    assert_eq!(
        output_technology_name(DISPLAYCONFIG_OUTPUT_TECHNOLOGY_HDMI),
        "HDMI"
    );
    assert_eq!(
        output_technology_name(DISPLAYCONFIG_OUTPUT_TECHNOLOGY_DISPLAYPORT_EXTERNAL),
        "DisplayPort"
    );
    // 0x80000000, which is also i32::MIN, so this is the value an "obviously out of
    // range" probe would accidentally land on.
    assert_eq!(
        output_technology_name(DISPLAYCONFIG_OUTPUT_TECHNOLOGY_INTERNAL),
        "Internal"
    );
    assert_eq!(DISPLAYCONFIG_OUTPUT_TECHNOLOGY_INTERNAL, i32::MIN);
    // "Other" goes by minus one.
    assert_eq!(output_technology_name(-1), "other");
    // A real connector type, S-video, that has no name here.
    assert_eq!(output_technology_name(1), "other");
}

// --- reading the configuration ---

fn answer(code: u32) -> Answer {
    Answer { code, message: None }
}

#[test]
fn a_query_sizes_and_reads() {
    let start = query();
    assert!(matches!(start, QueryState::Sizing { .. }));
    let reading = query_step(start, &answer(ERROR_SUCCESS));
    assert!(matches!(reading, QueryState::Reading { .. }));
    assert!(matches!(query_step(reading, &answer(ERROR_SUCCESS)), QueryState::Done));
}

#[test]
fn a_query_tries_again_while_the_configuration_changes_and_then_gives_up() {
    let mut state = query();
    for _ in 0..QUERY_ATTEMPTS {
        assert!(matches!(state, QueryState::Sizing { .. }), "{state:?}");
        state = query_step(state, &answer(ERROR_SUCCESS));
        assert!(matches!(state, QueryState::Reading { .. }), "{state:?}");
        state = query_step(state, &answer(ERROR_INSUFFICIENT_BUFFER));
    }
    match state {
        QueryState::Failed { error: Error::KeptChanging } => {}
        _ => panic!("{state:?}"),
    }
}

#[test]
fn a_query_reports_a_refusal() {
    match query_step(query(), &answer(5)) {
        QueryState::Failed { error } => {
            assert!(error.message().contains("ERROR_ACCESS_DENIED"), "{}", error.message());
        }
        state => panic!("{state:?}"),
    }
    let reading = query_step(query(), &answer(ERROR_SUCCESS));
    match query_step(reading, &answer(50)) {
        QueryState::Failed { error } => {
            assert!(error.message().contains("ERROR_NOT_SUPPORTED"), "{}", error.message());
        }
        state => panic!("{state:?}"),
    }
}

#[test]
fn only_what_was_written_is_read() {
    let topo = read_topology(
        vec![path_at(0), path_at(1), path_at(2)],
        vec![ModeInfo::Other],
        2,
        9,
    );
    assert_eq!(topo.paths, [path_at(0), path_at(1)]);
    assert_eq!(topo.modes, [ModeInfo::Other]);
}

fn reply(code: u32, flags: u32) -> TargetReply {
    TargetReply {
        code,
        flags,
        friendly_name: wide("LG ULTRAGEAR\0junk"),
        device_path: wide("\0"),
        edid_manufacture_id: 0x6D1E,
        edid_product_code_id: 0x5BD3,
        output_technology: 5,
    }
}

#[test]
fn a_targets_name_is_read_from_the_reply() {
    let name = target_name(&reply(ERROR_SUCCESS, EDID_IDS_VALID));
    assert_eq!(name.friendly.as_deref(), Some("LG ULTRAGEAR"));
    assert_eq!(name.device_path, None);
    assert_eq!(name.edid.as_deref(), Some("GSM5BD3"));
    assert_eq!(name.output_technology, 5);

    // A manufacturer that is filled in counts without the flag.
    assert_eq!(target_name(&reply(ERROR_SUCCESS, 0)).edid.as_deref(), Some("GSM5BD3"));
    let mut blank = reply(ERROR_SUCCESS, 0);
    blank.edid_manufacture_id = 0;
    assert_eq!(target_name(&blank).edid, None);

    let unknown = target_name(&reply(87, EDID_IDS_VALID));
    assert_eq!(unknown.friendly, None);
    assert_eq!(unknown.edid, None);
    assert_eq!(unknown.output_technology, TargetName::default().output_technology);
}

#[test]
fn devices_are_read_from_their_replies() {
    assert_eq!(adapter_device_path(&answer(0), &wide("pci\0x")).unwrap(), "pci");
    assert_eq!(adapter_device_path(&answer(5), &wide("pci")).unwrap_err().code, 5);
    assert_eq!(source_gdi_name(0, &wide("DISPLAY1\0")).as_deref(), Some("DISPLAY1"));
    assert_eq!(source_gdi_name(0, &[0]), None);
    assert_eq!(source_gdi_name(87, &wide("DISPLAY1")), None);
}

#[test]
fn what_was_learned_is_what_is_told() {
    let gpu = Luid { low_part: 1, high_part: 2 };
    let mut names = FixedNames::default();
    assert!(names.adapter_path(gpu).is_err());
    assert!(names.source_gdi_name(gpu, 3).is_none());
    assert!(names.target_name(gpu, 4).friendly.is_none());

    names.learn_adapter(gpu, Ok("pci".to_string()));
    names.learn_source(gpu, 3, "DISPLAY1".to_string());
    names.learn_target(gpu, 4, target_name(&reply(0, 0)));
    assert_eq!(names.adapter_path(gpu).unwrap(), "pci");
    assert_eq!(names.source_gdi_name(gpu, 3).as_deref(), Some("DISPLAY1"));
    assert_eq!(names.target_name(gpu, 4).friendly.as_deref(), Some("LG ULTRAGEAR"));

    let other = Luid { low_part: 1, high_part: 3 };
    names.learn_adapter(other, Err(answer(31)));
    let why = names.adapter_path(other).unwrap_err().message();
    assert!(why.contains("ERROR_GEN_FAILURE"), "{why}");
}

#[test]
fn each_name_is_asked_for_once() {
    let path = |low_part, target, source| {
        let mut p = path_at(0);
        p.source_info.adapter_id = Luid { low_part, high_part: 0 };
        p.target_info.adapter_id = Luid { low_part, high_part: 0 };
        p.source_info.id = source;
        p.target_info.id = target;
        p
    };
    let topo = Topology {
        paths: vec![path(1, 100, 0), path(1, 100, 1), path(1, 101, 0), path(2, 100, 0)],
        modes: Vec::new(),
    };
    let asked = SystemNames::of(&topo);
    let gpu = |low_part| Luid { low_part, high_part: 0 };
    assert_eq!(asked.adapters, [gpu(1), gpu(2)]);
    assert_eq!(asked.targets, [(gpu(1), 100), (gpu(1), 101), (gpu(2), 100)]);
    assert_eq!(asked.sources, [(gpu(1), 0), (gpu(1), 1), (gpu(2), 0)]);
}
