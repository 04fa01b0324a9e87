//! Tests of the capture container: decoding real gzip-compressed tar archives
//! and re-encoding them byte-identically.

use libtas_movie::inputs::{Input, KeyboardInput};
use libtas_movie::movie::{decode_session, load_from_members, LibTASMovie, LoadError};

fn build_archive(members: &[(&str, &str)]) -> Vec<u8> {
    let enc = flate2::write::GzEncoder::new(Vec::new(), flate2::Compression::default());
    let mut tar = tar::Builder::new(enc);
    for (name, data) in members {
        let mut header = tar::Header::new_gnu();
        header.set_path(name).unwrap();
        header.set_size(data.len() as u64);
        header.set_mode(0o644);
        header.set_cksum();
        tar.append(&header, data.as_bytes()).unwrap();
    }
    tar.into_inner().unwrap().finish().unwrap()
}

fn read_members(bytes: &[u8]) -> Vec<(String, String)> {
    let mut archive = tar::Archive::new(flate2::read::GzDecoder::new(bytes));
    let mut out = Vec::new();
    for entry in archive.entries().unwrap() {
        let mut entry = entry.unwrap();
        let name = entry.path().unwrap().to_str().unwrap().to_string();
        let mut data = String::new();
        std::io::Read::read_to_string(&mut entry, &mut data).unwrap();
        out.push((name, data));
    }
    out
}

fn sample_config_text() -> String {
    [
        "[General]",
        "authors=synabler",
        "auto_restart=false",
        "frame_count=456",
        "framerate_den=1",
        "framerate_num=20",
        "game_name=ruffle",
        "initial_monotonic_time_nsec=0",
        "initial_monotonic_time_sec=1",
        "initial_time_nsec=0",
        "initial_time_sec=1",
        "length_nsec=800000000",
        "length_sec=22",
        "libtas_major_version=1",
        "libtas_minor_version=4",
        "libtas_patch_version=7",
        "md5=c9b4f1b544725cb0d9d784c35232a52d",
        "mouse_support=true",
        "nb_controllers=0",
        "rerecord_count=101",
        "savestate_frame_count=456",
        "variable_framerate=false",
        "",
        "[mainthread_timetrack]",
        "GetTickCount=-1",
        "GetTickCount64=-1",
        "QueryPerformanceCounter=-1",
        "clock=-1",
        "clock_gettime_monotonic=-1",
        "clock_gettime_real=-1",
        "gettimeofday=-1",
        "sdl_getperformancecounter=-1",
        "sdl_getticks=-1",
        "time=-1",
    ]
    .join("\n")
        + "\n"
}

fn sample_members() -> Vec<(String, String)> {
    vec![
        ("config.ini".to_string(), sample_config_text()),
        ("inputs".to_string(), "|K7a|\n|\n".to_string()),
        ("annotations.txt".to_string(), "hello".to_string()),
        ("editor.ini".to_string(), "".to_string()),
    ]
}

fn sample_archive() -> Vec<u8> {
    let members = sample_members();
    let borrowed: Vec<(&str, &str)> =
        members.iter().map(|(n, d)| (n.as_str(), d.as_str())).collect();
    build_archive(&borrowed)
}

#[test]
fn test_end_to_end_decode_and_reencode() {
    let movie = decode_session(&sample_archive()).unwrap();

    assert_eq!(movie.config.general.frame_count, 456);
    assert_eq!(movie.inputs.0.len(), 2);
    assert_eq!(movie.inputs.0[0].keyboard, Some(KeyboardInput(vec![0x7a])));
    assert_eq!(movie.inputs.0[0].mouse, None);
    assert_eq!(movie.inputs.0[1], Input::default());
    assert_eq!(movie.annotations, "hello");
    assert_eq!(movie.editor, "");

    // re-encoding reproduces byte-identical canonical text for each member
    let bytes = movie.compress().unwrap();
    let members = read_members(&bytes);
    assert_eq!(members.len(), 4);
    assert_eq!(members[0].0, "config.ini");
    assert_eq!(members[0].1, sample_config_text());
    assert_eq!(members[1].0, "inputs");
    assert_eq!(members[1].1, "|K7a|\n|\n");
    assert_eq!(members[2].0, "annotations.txt");
    assert_eq!(members[2].1, "hello");
    assert_eq!(members[3].0, "editor.ini");
    assert_eq!(members[3].1, "");
}

#[test]
fn test_decode_of_encode_gives_movie_back() {
    let mut movie = decode_session(&sample_archive()).unwrap();
    movie.annotations = "edited afterwards\nwith two lines".to_string();
    movie.config.general.rerecord_count += 1;
    let bytes = movie.compress().unwrap();
    let again = decode_session(&bytes).unwrap();
    assert_eq!(again, movie);
}

#[test]
fn test_member_order_does_not_matter_on_decode() {
    let config = sample_config_text();
    let bytes = build_archive(&[
        ("editor.ini", ""),
        ("inputs", "|\n"),
        ("annotations.txt", "x"),
        ("config.ini", config.as_str()),
    ]);
    let movie = decode_session(&bytes).unwrap();
    assert_eq!(movie.inputs.0.len(), 1);
    assert_eq!(movie.annotations, "x");
}

#[test]
fn test_incomplete_capture_names_missing_member() {
    let config = sample_config_text();
    let bytes = build_archive(&[
        ("config.ini", config.as_str()),
        ("inputs", "|\n"),
        ("annotations.txt", ""),
    ]);
    match decode_session(&bytes) {
        Err(LoadError::IncompleteCapture(names)) => {
            assert_eq!(names, vec!["editor.ini".to_string()]);
        }
        other => panic!("expected IncompleteCapture, got {:?}", other),
    }
}

#[test]
fn test_empty_archive_names_all_members() {
    let bytes = build_archive(&[]);
    match decode_session(&bytes) {
        Err(LoadError::IncompleteCapture(names)) => {
            assert_eq!(
                names,
                vec![
                    "config.ini".to_string(),
                    "inputs".to_string(),
                    "annotations.txt".to_string(),
                    "editor.ini".to_string(),
                ]
            );
        }
        other => panic!("expected IncompleteCapture, got {:?}", other),
    }
}

#[test]
fn test_extra_entry_is_fatal() {
    let config = sample_config_text();
    let bytes = build_archive(&[
        ("config.ini", config.as_str()),
        ("inputs", "|\n"),
        ("annotations.txt", ""),
        ("editor.ini", ""),
        ("extra.bin", "surprise"),
    ]);
    match decode_session(&bytes) {
        Err(LoadError::ExtraEntry(name)) => assert_eq!(name, "extra.bin"),
        other => panic!("expected ExtraEntry, got {:?}", other),
    }
}

#[test]
fn test_not_gzip_is_archive_corrupt() {
    match decode_session(b"this is not a movie at all") {
        Err(LoadError::ArchiveCorrupt) => {}
        other => panic!("expected ArchiveCorrupt, got {:?}", other),
    }
}

#[test]
fn test_truncated_archive_is_archive_corrupt() {
    let whole = sample_archive();
    let truncated = &whole[..whole.len() / 2];
    match decode_session(truncated) {
        Err(LoadError::ArchiveCorrupt) => {}
        other => panic!("expected ArchiveCorrupt, got {:?}", other),
    }
}

#[test]
fn test_invalid_config_member() {
    let bytes = build_archive(&[
        ("config.ini", "[General]\nno equals sign here\n\n[mainthread_timetrack]\n"),
        ("inputs", "|\n"),
        ("annotations.txt", ""),
        ("editor.ini", ""),
    ]);
    match decode_session(&bytes) {
        Err(LoadError::InvalidConfig(_)) => {}
        other => panic!("expected InvalidConfig, got {:?}", other),
    }
}

#[test]
fn test_invalid_inputs_member() {
    let config = sample_config_text();
    let bytes = build_archive(&[
        ("config.ini", config.as_str()),
        ("inputs", "|Xbad|\n"),
        ("annotations.txt", ""),
        ("editor.ini", ""),
    ]);
    match decode_session(&bytes) {
        Err(LoadError::InvalidInputs(_)) => {}
        other => panic!("expected InvalidInputs, got {:?}", other),
    }
}

#[test]
fn test_load_helpers_populate_movie() {
    let mut movie = LibTASMovie::default();
    movie.load_config(&sample_config_text()).unwrap();
    movie.load_inputs("|K7a|\n").unwrap();
    movie.load_annotations("notes");
    movie.load_editor("state");
    assert_eq!(movie.config.general.game_name, "ruffle");
    assert_eq!(movie.inputs.0.len(), 1);
    assert_eq!(movie.annotations, "notes");
    assert_eq!(movie.editor, "state");
    assert!(movie.load_config("garbage").is_err());
}

#[test]
fn test_load_from_members_directly() {
    let movie = load_from_members(sample_members()).unwrap();
    assert_eq!(movie.config.general.authors, "synabler");
    assert_eq!(movie.inputs.0.len(), 2);
    match load_from_members(vec![("nope".to_string(), "".to_string())]) {
        Err(LoadError::ExtraEntry(name)) => assert_eq!(name, "nope"),
        other => panic!("expected ExtraEntry, got {:?}", other),
    }
}

#[test]
fn test_empty_inputs_member() {
    let config = sample_config_text();
    let bytes = build_archive(&[
        ("config.ini", config.as_str()),
        ("inputs", ""),
        ("annotations.txt", ""),
        ("editor.ini", ""),
    ]);
    let movie = decode_session(&bytes).unwrap();
    assert_eq!(movie.inputs.0.len(), 0);
    assert_eq!(movie.inputs.encode(), "");
}

#[test]
fn test_duplicate_member_overwrites() {
    let config = sample_config_text();
    let bytes = build_archive(&[
        ("config.ini", config.as_str()),
        ("inputs", "|\n"),
        ("inputs", "|K7a|\n"),
        ("annotations.txt", ""),
        ("editor.ini", ""),
    ]);
    let movie = decode_session(&bytes).unwrap();
    assert_eq!(movie.inputs.0.len(), 1);
    assert_eq!(movie.inputs.0[0].keyboard, Some(KeyboardInput(vec![0x7a])));
}

#[test]
fn test_hand_built_movie_round_trip() {
    let mut movie = LibTASMovie::default();
    movie.config.general.authors = "someone".to_string();
    movie.config.general.frame_count = 3;
    movie.config.mainthread_timetrack.time = -1;
    movie.inputs = libtas_movie::inputs::Inputs(vec![Input::default()]);
    movie.annotations = "a\nb".to_string();
    let bytes = movie.compress().unwrap();
    let back = decode_session(&bytes).unwrap();
    assert_eq!(back, movie);
    // encoding the decoded movie reproduces the members of the first encoding
    let again = back.compress().unwrap();
    assert_eq!(read_members(&again), read_members(&bytes));
}

#[test]
fn test_newline_in_metadata_field_breaks_canonical_text() {
    // a newline inside a metadata string splits its key=value line in two, so
    // such a movie (never produced by a decode) does not survive re-reading
    let mut movie = LibTASMovie::default();
    movie.config.general.authors = "a\nb".to_string();
    let bytes = movie.compress().unwrap();
    assert!(decode_session(&bytes).is_err());
}
