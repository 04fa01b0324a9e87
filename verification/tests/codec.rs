//! Tests of the text codecs: keyboard and mouse sub-fields, frame records,
//! frame sequences, and the two configuration groups.

use libtas_movie::config::{Config, GeneralConfig, InvalidConfigError, TimetrackConfig};
use libtas_movie::inputs::{
    Input, Inputs, InvalidInputsError, KeyboardInput, MouseInput, ReferenceMode,
};

#[test]
fn test_keyboard_decode_encode() {
    let k = KeyboardInput::decode("K7a:ff53").unwrap();
    assert_eq!(k, KeyboardInput(vec![0x7a, 0xff53]));
    assert_eq!(k.encode(), "K7a:ff53");
}

#[test]
fn test_keyboard_empty() {
    let k = KeyboardInput::decode("K").unwrap();
    assert_eq!(k, KeyboardInput(vec![]));
    assert_eq!(k.encode(), "K");
}

#[test]
fn test_keyboard_errors() {
    match KeyboardInput::decode("7a:ff53") {
        Err(InvalidInputsError::MissingMarker(s)) => assert_eq!(s, "7a:ff53"),
        other => panic!("expected MissingMarker, got {:?}", other),
    }
    match KeyboardInput::decode("K7a:zz") {
        Err(InvalidInputsError::InvalidKeyCode(s)) => assert_eq!(s, "zz"),
        other => panic!("expected InvalidKeyCode, got {:?}", other),
    }
    // an overflowing key identifier is rejected, not truncated
    match KeyboardInput::decode("K123456789") {
        Err(InvalidInputsError::InvalidKeyCode(s)) => assert_eq!(s, "123456789"),
        other => panic!("expected InvalidKeyCode, got {:?}", other),
    }
}

#[test]
fn test_keyboard_uppercase_hex_canonicalized() {
    let k = KeyboardInput::decode("KFF53").unwrap();
    assert_eq!(k, KeyboardInput(vec![0xff53]));
    assert_eq!(k.encode(), "Kff53");
}

#[test]
fn test_mouse_decode_encode() {
    let m = MouseInput::decode("M166:270:A:1....:0").unwrap();
    assert_eq!(m.xpos, 166);
    assert_eq!(m.ypos, 270);
    assert_eq!(m.reference_mode, ReferenceMode::Absolute);
    assert!(m.left_click);
    assert!(!m.middle_click);
    assert!(!m.right_click);
    assert!(!m.button4);
    assert!(!m.button5);
    assert_eq!(m.encode(), "M166:270:A:1....:0");
}

#[test]
fn test_mouse_negative_relative() {
    let m = MouseInput::decode("M-5:-17:R:.2.4.:0").unwrap();
    assert_eq!(m.xpos, -5);
    assert_eq!(m.ypos, -17);
    assert_eq!(m.reference_mode, ReferenceMode::Relative);
    assert!(!m.left_click && m.middle_click && !m.right_click);
    assert!(m.button4 && !m.button5);
    assert_eq!(m.encode(), "M-5:-17:R:.2.4.:0");
}

#[test]
fn test_mouse_any_non_dot_is_pressed() {
    let m = MouseInput::decode("M0:0:A:x.z.9:0").unwrap();
    assert!(m.left_click && !m.middle_click && m.right_click);
    assert!(!m.button4 && m.button5);
    // encoding is canonical: slot digits, not the original characters
    assert_eq!(m.encode(), "M0:0:A:1.3.5:0");
}

#[test]
fn test_mouse_errors() {
    match MouseInput::decode("166:270:A:1....:0") {
        Err(InvalidInputsError::MissingMarker(_)) => {}
        other => panic!("expected MissingMarker, got {:?}", other),
    }
    match MouseInput::decode("M166:270") {
        Err(InvalidInputsError::WrongFieldCount(_)) => {}
        other => panic!("expected WrongFieldCount, got {:?}", other),
    }
    match MouseInput::decode("M1x6:270:A:1....:0") {
        Err(InvalidInputsError::InvalidCoordinate(s)) => assert_eq!(s, "1x6"),
        other => panic!("expected InvalidCoordinate, got {:?}", other),
    }
    match MouseInput::decode("M166:270:Q:1....:0") {
        Err(InvalidInputsError::InvalidMode(s)) => assert_eq!(s, "Q"),
        other => panic!("expected InvalidMode, got {:?}", other),
    }
    match MouseInput::decode("M166:270:A:1...:0") {
        Err(InvalidInputsError::WrongButtonFieldLength(s)) => assert_eq!(s, "1..."),
        other => panic!("expected WrongButtonFieldLength, got {:?}", other),
    }
}

#[test]
fn test_mouse_extra_fields_tolerated() {
    let m = MouseInput::decode("M1:2:A:.....:0:junk:junk").unwrap();
    assert_eq!(m.xpos, 1);
    assert_eq!(m.ypos, 2);
}

#[test]
fn test_reference_mode() {
    assert_eq!(ReferenceMode::decode("A").unwrap(), ReferenceMode::Absolute);
    assert_eq!(ReferenceMode::decode("R").unwrap(), ReferenceMode::Relative);
    assert!(ReferenceMode::decode("X").is_err());
    assert_eq!(ReferenceMode::Absolute.encode(), "A");
    assert_eq!(ReferenceMode::Relative.encode(), "R");
}

#[test]
fn test_empty_frame_round_trip() {
    let i = Input::decode("|").unwrap();
    assert_eq!(i.keyboard, None);
    assert_eq!(i.mouse, None);
    assert_eq!(i.encode(), "|");
}

#[test]
fn test_frame_keyboard_and_mouse() {
    let i = Input::decode("|K7a:ff53|M166:270:A:1....:0|").unwrap();
    assert_eq!(i.keyboard, Some(KeyboardInput(vec![0x7a, 0xff53])));
    let m = i.mouse.unwrap();
    assert_eq!((m.xpos, m.ypos), (166, 270));
    assert_eq!(i.encode(), "|K7a:ff53|M166:270:A:1....:0|");
}

#[test]
fn test_frame_canonicalizes_mouse_before_keyboard() {
    // decode accepts mouse first; encode puts the keyboard first
    let i = Input::decode("|M1:2:A:.....:0|K7a|").unwrap();
    assert_eq!(i.keyboard, Some(KeyboardInput(vec![0x7a])));
    assert!(i.mouse.is_some());
    assert_eq!(i.encode(), "|K7a|M1:2:A:.....:0|");
}

#[test]
fn test_frame_stub_subfields_skipped() {
    let i = Input::decode("|K7a|C1:2|F3|T60|").unwrap();
    assert_eq!(i.keyboard, Some(KeyboardInput(vec![0x7a])));
    assert_eq!(i.mouse, None);
    // stubs are recognized but carry no data, so they do not re-encode
    assert_eq!(i.encode(), "|K7a|");
}

#[test]
fn test_frame_errors() {
    match Input::decode("K7a") {
        Err(InvalidInputsError::MissingMarker(_)) => {}
        other => panic!("expected MissingMarker, got {:?}", other),
    }
    match Input::decode("|K7a") {
        Err(InvalidInputsError::MissingMarker(_)) => {}
        other => panic!("expected MissingMarker, got {:?}", other),
    }
    match Input::decode("|X9|") {
        Err(InvalidInputsError::UnrecognizedSubfield(s)) => assert_eq!(s, "X9"),
        other => panic!("expected UnrecognizedSubfield, got {:?}", other),
    }
    match Input::decode("||") {
        Err(InvalidInputsError::UnrecognizedSubfield(s)) => assert_eq!(s, ""),
        other => panic!("expected UnrecognizedSubfield, got {:?}", other),
    }
}

#[test]
fn test_inputs_decode_encode() {
    let text = "this line is skipped\n|K7a|\n\n|\n|M1:2:R:12345:0|\n";
    let inputs = Inputs::decode(text).unwrap();
    assert_eq!(inputs.0.len(), 3);
    assert_eq!(inputs.0[0].keyboard, Some(KeyboardInput(vec![0x7a])));
    assert_eq!(inputs.0[1], Input::default());
    assert!(inputs.0[2].mouse.unwrap().button5);
    assert_eq!(inputs.encode(), "|K7a|\n|\n|M1:2:R:12345:0|\n");
}

#[test]
fn test_inputs_index_and_len() {
    let inputs = Inputs::decode("|K7a|\n|\n").unwrap();
    assert_eq!(inputs.len(), 2);
    assert_eq!(inputs.index(0).keyboard, Some(KeyboardInput(vec![0x7a])));
    assert_eq!(inputs.index(1), &Input::default());
}

#[test]
fn test_inputs_first_bad_frame_aborts() {
    match Inputs::decode("|K7a|\n|Xbad|\n|\n") {
        Err(InvalidInputsError::UnrecognizedSubfield(s)) => assert_eq!(s, "Xbad"),
        other => panic!("expected UnrecognizedSubfield, got {:?}", other),
    }
}

fn sample_general_text() -> String {
    [
        "[General]",
        "authors=synabler",
        "auto_restart=false",
        "frame_count=456",
        "framerate_den=1",
        "framerate_num=20",
        "game_name=ruffle",
        "initial_monotonic_time_nsec=0",
        "initial_monotonic_time_sec=1",
        "initial_time_nsec=0",
        "initial_time_sec=1",
        "length_nsec=800000000",
        "length_sec=22",
        "libtas_major_version=1",
        "libtas_minor_version=4",
        "libtas_patch_version=7",
        "md5=c9b4f1b544725cb0d9d784c35232a52d",
        "mouse_support=true",
        "nb_controllers=0",
        "rerecord_count=101",
        "savestate_frame_count=456",
        "variable_framerate=false",
    ]
    .join("\n")
        + "\n"
}

fn sample_timetrack_text() -> String {
    [
        "[mainthread_timetrack]",
        "GetTickCount=-1",
        "GetTickCount64=-1",
        "QueryPerformanceCounter=-1",
        "clock=-1",
        "clock_gettime_monotonic=-1",
        "clock_gettime_real=-1",
        "gettimeofday=-1",
        "sdl_getperformancecounter=-1",
        "sdl_getticks=-1",
        "time=-1",
    ]
    .join("\n")
        + "\n"
}

pub fn sample_config_text() -> String {
    sample_general_text() + "\n" + &sample_timetrack_text()
}

#[test]
fn test_general_config_values() {
    let g = GeneralConfig::decode(&sample_general_text()).unwrap();
    assert_eq!(g.authors, "synabler");
    assert_eq!(g.auto_restart, false);
    assert_eq!(g.frame_count, 456);
    assert_eq!(g.framerate_den, 1);
    assert_eq!(g.framerate_num, 20);
    assert_eq!(g.game_name, "ruffle");
    assert_eq!(g.initial_monotonic_time_nsec, 0);
    assert_eq!(g.initial_monotonic_time_sec, 1);
    assert_eq!(g.initial_time_nsec, 0);
    assert_eq!(g.initial_time_sec, 1);
    assert_eq!(g.length_nsec, 800000000);
    assert_eq!(g.length_sec, 22);
    assert_eq!(g.libtas_major_version, 1);
    assert_eq!(g.libtas_minor_version, 4);
    assert_eq!(g.libtas_patch_version, 7);
    assert_eq!(g.md5, "c9b4f1b544725cb0d9d784c35232a52d");
    assert_eq!(g.mouse_support, true);
    assert_eq!(g.nb_controllers, 0);
    assert_eq!(g.rerecord_count, 101);
    assert_eq!(g.savestate_frame_count, 456);
    assert_eq!(g.variable_framerate, false);
    assert_eq!(g.encode(), sample_general_text());
}

#[test]
fn test_timetrack_config_values() {
    let t = TimetrackConfig::decode(&sample_timetrack_text()).unwrap();
    assert_eq!(t.get_tick_count, -1);
    assert_eq!(t.get_tick_count64, -1);
    assert_eq!(t.query_performance_counter, -1);
    assert_eq!(t.clock, -1);
    assert_eq!(t.clock_gettime_monotonic, -1);
    assert_eq!(t.clock_gettime_real, -1);
    assert_eq!(t.gettimeofday, -1);
    assert_eq!(t.sdl_getperformancecounter, -1);
    assert_eq!(t.sdl_getticks, -1);
    assert_eq!(t.time, -1);
    assert_eq!(t.encode(), sample_timetrack_text());
}

#[test]
fn test_config_decode_encode() {
    let text = sample_config_text();
    let c = Config::decode(&text).unwrap();
    assert_eq!(c.general.frame_count, 456);
    assert_eq!(c.mainthread_timetrack.time, -1);
    assert_eq!(c.encode(), text);
}

#[test]
fn test_config_missing_separator() {
    match Config::decode(&sample_general_text()) {
        Err(InvalidConfigError::MissingSeparator) => {}
        other => panic!("expected MissingSeparator, got {:?}", other),
    }
}

#[test]
fn test_config_marker_mismatch() {
    match GeneralConfig::decode("[Wrong]\nauthors=x\n") {
        Err(InvalidConfigError::GroupMarkerMismatch(s)) => assert_eq!(s, "[General]"),
        other => panic!("expected GroupMarkerMismatch, got {:?}", other),
    }
}

#[test]
fn test_config_malformed_line_is_hard_error() {
    let text = "[General]\nauthors=x\nthis line has no equals sign\nframe_count=4\n";
    match GeneralConfig::decode(text) {
        Err(InvalidConfigError::MalformedLine(s)) => {
            assert_eq!(s, "this line has no equals sign");
        }
        other => panic!("expected MalformedLine, got {:?}", other),
    }
}

#[test]
fn test_config_field_parse_error_names_key() {
    match GeneralConfig::decode("[General]\nframe_count=abc\n") {
        Err(InvalidConfigError::FieldParseError(s)) => assert_eq!(s, "frame_count"),
        other => panic!("expected FieldParseError, got {:?}", other),
    }
    match TimetrackConfig::decode("[mainthread_timetrack]\nclock=1.5\n") {
        Err(InvalidConfigError::FieldParseError(s)) => assert_eq!(s, "clock"),
        other => panic!("expected FieldParseError, got {:?}", other),
    }
}

#[test]
fn test_config_unknown_keys_ignored() {
    let g = GeneralConfig::decode("[General]\nfuture_key=whatever\nframe_count=9\n").unwrap();
    assert_eq!(g.frame_count, 9);
    assert_eq!(g.authors, "");
}

#[test]
fn test_config_key_order_and_signs_canonicalized() {
    // reordered keys, a plus sign and leading zeros all read; encode is canonical
    let g = GeneralConfig::decode("[General]\nframe_count=+0456\nauthors=synabler\n").unwrap();
    assert_eq!(g.frame_count, 456);
    assert_eq!(g.authors, "synabler");
    let again = GeneralConfig::decode(&g.encode()).unwrap();
    assert_eq!(again, g);
    assert_eq!(again.encode(), g.encode());
}

#[test]
fn test_value_may_contain_equals() {
    let g = GeneralConfig::decode("[General]\nauthors=a=b=c\n").unwrap();
    assert_eq!(g.authors, "a=b=c");
}

#[test]
fn test_config_crlf_lines_tolerated() {
    let g = GeneralConfig::decode("[General]\r\nauthors=synabler\r\nframe_count=4\r\n").unwrap();
    assert_eq!(g.authors, "synabler");
    assert_eq!(g.frame_count, 4);
}

#[test]
fn test_config_crlf_groups_with_blank_separator() {
    let text = "[General]\r\nframe_count=4\r\n\n[mainthread_timetrack]\r\nclock=-1\r\n";
    let c = Config::decode(text).unwrap();
    assert_eq!(c.general.frame_count, 4);
    assert_eq!(c.mainthread_timetrack.clock, -1);
}

#[test]
fn test_config_interior_carriage_return_kept() {
    // only trailing carriage returns are line-ending noise; interior ones are data
    let g = GeneralConfig::decode("[General]\nauthors=a\rb\r\n").unwrap();
    assert_eq!(g.authors, "a\rb");
}
