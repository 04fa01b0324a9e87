//! The two fixed-schema `key=value` configuration groups and their pairing
//! into a whole session configuration. Each group is a data-driven schema: a
//! field enumeration carrying its key, its value reading and its canonical
//! value writing, iterated by decode and encode alike. Unknown keys are
//! ignored for forward compatibility; a line without `=` is a hard error.

use crate::models;
use crate::num::{
    bool_text, dec_text, int_text, lemma_dec_digit_not_sep, lemma_dec_text, lemma_int_text_clean,
    lemma_parse_dec_text,
    lemma_parse_int_text, parse_bool, parse_bool_chars, parse_i64, parse_i64_chars, parse_u32,
    parse_u32_chars, parse_u64, parse_u64_chars,
};
use crate::text::{
    cat_lines, chars_eq_str, chars_to_string, find_char, find_char_at, find_nlnl, find_nlnl_at,
    lemma_cat_lines_snoc, lemma_find_char, lemma_find_char_unique, lemma_find_nlnl,
    lemma_find_nlnl_cat, lemma_no_char_concat, lemma_split_pieces_free, lemma_strip_cr_prefix,
    lemma_text_lines_cat, line_ready, no_char, push_str_chars, raw_lines, split_on, str_to_chars, strip_cr,
    text_lines, text_lines_chars,
};
use vstd::prelude::*;

verus! {

/// An error while parsing a config group.
#[derive(Clone, Debug, PartialEq, Eq)]
pub enum InvalidConfigError {
    /// The group text does not open with the expected marker line, carried
    /// here.
    GroupMarkerMismatch(String),
    /// A line without `=`, carried here.
    MalformedLine(String),
    /// A recognized key, carried here, whose value does not read as the
    /// field's type.
    FieldParseError(String),
    /// The two groups are not separated by a blank line.
    MissingSeparator,
}

/// Specification-level image of [`InvalidConfigError`].
pub enum ConfigErrV {
    GroupMarkerMismatch(Seq<char>),
    MalformedLine(Seq<char>),
    FieldParseError(Seq<char>),
    MissingSeparator,
}

impl View for InvalidConfigError {
    type V = ConfigErrV;

    open spec fn view(&self) -> ConfigErrV {
        match self {
            InvalidConfigError::GroupMarkerMismatch(s) => ConfigErrV::GroupMarkerMismatch(s@),
            InvalidConfigError::MalformedLine(s) => ConfigErrV::MalformedLine(s@),
            InvalidConfigError::FieldParseError(s) => ConfigErrV::FieldParseError(s@),
            InvalidConfigError::MissingSeparator => ConfigErrV::MissingSeparator,
        }
    }
}

/// The `General` group: fixed-schema session metadata.
#[derive(Clone, Debug, PartialEq, Eq)]
pub struct GeneralConfig {
    /// Author(s) of the movie.
    pub authors: String,
    /// Whether the game automatically restarts after being closed.
    pub auto_restart: bool,
    /// The number of frames in the movie.
    pub frame_count: u64,
    /// Denominator of the framerate (`framerate_num/framerate_den`).
    pub framerate_den: u64,
    /// Numerator of the framerate (`framerate_num/framerate_den`).
    pub framerate_num: u64,
    /// The name of the game executable.
    pub game_name: String,
    /// Fractional part of the initial monotonic system time, in nanoseconds.
    pub initial_monotonic_time_nsec: u64,
    /// Integer part of the initial monotonic system time, in seconds.
    pub initial_monotonic_time_sec: u64,
    /// Fractional part of the initial system time, in nanoseconds.
    pub initial_time_nsec: u64,
    /// Integer part of the initial system time, in seconds.
    pub initial_time_sec: u64,
    /// Fractional part of the movie length, in nanoseconds.
    pub length_nsec: u64,
    /// Integer part of the movie length, in seconds.
    pub length_sec: u64,
    /// The major version of libTAS (`a` in `a.b.c`).
    pub libtas_major_version: u32,
    /// The minor version of libTAS (`b` in `a.b.c`).
    pub libtas_minor_version: u32,
    /// The patch version of libTAS (`c` in `a.b.c`).
    pub libtas_patch_version: u32,
    /// The MD5 hash of the game executable.
    pub md5: String,
    /// Whether mouse inputs are sent to the game.
    pub mouse_support: bool,
    /// The number of controllers (up to 4).
    pub nb_controllers: u32,
    /// The number of rerecords.
    pub rerecord_count: u64,
    /// The frame count including savestate loads.
    pub savestate_frame_count: u64,
    /// Whether the framerate can change in the middle of the movie.
    pub variable_framerate: bool,
}

/// Specification-level image of [`GeneralConfig`].
pub struct GeneralConfigV {
    pub authors: Seq<char>,
    pub auto_restart: bool,
    pub frame_count: u64,
    pub framerate_den: u64,
    pub framerate_num: u64,
    pub game_name: Seq<char>,
    pub initial_monotonic_time_nsec: u64,
    pub initial_monotonic_time_sec: u64,
    pub initial_time_nsec: u64,
    pub initial_time_sec: u64,
    pub length_nsec: u64,
    pub length_sec: u64,
    pub libtas_major_version: u32,
    pub libtas_minor_version: u32,
    pub libtas_patch_version: u32,
    pub md5: Seq<char>,
    pub mouse_support: bool,
    pub nb_controllers: u32,
    pub rerecord_count: u64,
    pub savestate_frame_count: u64,
    pub variable_framerate: bool,
}

impl View for GeneralConfig {
    type V = GeneralConfigV;

    open spec fn view(&self) -> GeneralConfigV {
        (GeneralConfigV {
            authors: self.authors@,
            auto_restart: self.auto_restart,
            frame_count: self.frame_count,
            framerate_den: self.framerate_den,
            framerate_num: self.framerate_num,
            game_name: self.game_name@,
            initial_monotonic_time_nsec: self.initial_monotonic_time_nsec,
            initial_monotonic_time_sec: self.initial_monotonic_time_sec,
            initial_time_nsec: self.initial_time_nsec,
            initial_time_sec: self.initial_time_sec,
            length_nsec: self.length_nsec,
            length_sec: self.length_sec,
            libtas_major_version: self.libtas_major_version,
            libtas_minor_version: self.libtas_minor_version,
            libtas_patch_version: self.libtas_patch_version,
            md5: self.md5@,
            mouse_support: self.mouse_support,
            nb_controllers: self.nb_controllers,
            rerecord_count: self.rerecord_count,
            savestate_frame_count: self.savestate_frame_count,
            variable_framerate: self.variable_framerate,
        })
    }
}

/// The all-default value every decode starts from.
pub open spec fn default_general() -> GeneralConfigV {
    (GeneralConfigV {
        authors: Seq::<char>::empty(),
        auto_restart: false,
        frame_count: 0u64,
        framerate_den: 0u64,
        framerate_num: 0u64,
        game_name: Seq::<char>::empty(),
        initial_monotonic_time_nsec: 0u64,
        initial_monotonic_time_sec: 0u64,
        initial_time_nsec: 0u64,
        initial_time_sec: 0u64,
        length_nsec: 0u64,
        length_sec: 0u64,
        libtas_major_version: 0u32,
        libtas_minor_version: 0u32,
        libtas_patch_version: 0u32,
        md5: Seq::<char>::empty(),
        mouse_support: false,
        nb_controllers: 0u32,
        rerecord_count: 0u64,
        savestate_frame_count: 0u64,
        variable_framerate: false,
    })
}

impl Default for GeneralConfig {
    fn default() -> (r: GeneralConfig)
        ensures
            r@ == default_general(),
    {
        GeneralConfig {
            authors: String::new(),
            auto_restart: false,
            frame_count: 0,
            framerate_den: 0,
            framerate_num: 0,
            game_name: String::new(),
            initial_monotonic_time_nsec: 0,
            initial_monotonic_time_sec: 0,
            initial_time_nsec: 0,
            initial_time_sec: 0,
            length_nsec: 0,
            length_sec: 0,
            libtas_major_version: 0,
            libtas_minor_version: 0,
            libtas_patch_version: 0,
            md5: String::new(),
            mouse_support: false,
            nb_controllers: 0,
            rerecord_count: 0,
            savestate_frame_count: 0,
            variable_framerate: false,
        }
    }
}

/// The schema of [`GeneralConfig`]: one entry per recognized key.
#[derive(Clone, Copy)]
pub enum GeneralField {
    Authors,
    AutoRestart,
    FrameCount,
    FramerateDen,
    FramerateNum,
    GameName,
    InitialMonotonicTimeNsec,
    InitialMonotonicTimeSec,
    InitialTimeNsec,
    InitialTimeSec,
    LengthNsec,
    LengthSec,
    LibtasMajorVersion,
    LibtasMinorVersion,
    LibtasPatchVersion,
    Md5,
    MouseSupport,
    NbControllers,
    RerecordCount,
    SavestateFrameCount,
    VariableFramerate,
}

/// The key naming each field on a `key=value` line.
pub open spec fn general_key(f: GeneralField) -> Seq<char> {
    match f {
        GeneralField::Authors => "authors"@,
        GeneralField::AutoRestart => "auto_restart"@,
        GeneralField::FrameCount => "frame_count"@,
        GeneralField::FramerateDen => "framerate_den"@,
        GeneralField::FramerateNum => "framerate_num"@,
        GeneralField::GameName => "game_name"@,
        GeneralField::InitialMonotonicTimeNsec => "initial_monotonic_time_nsec"@,
        GeneralField::InitialMonotonicTimeSec => "initial_monotonic_time_sec"@,
        GeneralField::InitialTimeNsec => "initial_time_nsec"@,
        GeneralField::InitialTimeSec => "initial_time_sec"@,
        GeneralField::LengthNsec => "length_nsec"@,
        GeneralField::LengthSec => "length_sec"@,
        GeneralField::LibtasMajorVersion => "libtas_major_version"@,
        GeneralField::LibtasMinorVersion => "libtas_minor_version"@,
        GeneralField::LibtasPatchVersion => "libtas_patch_version"@,
        GeneralField::Md5 => "md5"@,
        GeneralField::MouseSupport => "mouse_support"@,
        GeneralField::NbControllers => "nb_controllers"@,
        GeneralField::RerecordCount => "rerecord_count"@,
        GeneralField::SavestateFrameCount => "savestate_frame_count"@,
        GeneralField::VariableFramerate => "variable_framerate"@,
    }
}

/// The schema order, which encode follows.
pub open spec fn general_fields() -> Seq<GeneralField> {
    seq![
        GeneralField::Authors,
        GeneralField::AutoRestart,
        GeneralField::FrameCount,
        GeneralField::FramerateDen,
        GeneralField::FramerateNum,
        GeneralField::GameName,
        GeneralField::InitialMonotonicTimeNsec,
        GeneralField::InitialMonotonicTimeSec,
        GeneralField::InitialTimeNsec,
        GeneralField::InitialTimeSec,
        GeneralField::LengthNsec,
        GeneralField::LengthSec,
        GeneralField::LibtasMajorVersion,
        GeneralField::LibtasMinorVersion,
        GeneralField::LibtasPatchVersion,
        GeneralField::Md5,
        GeneralField::MouseSupport,
        GeneralField::NbControllers,
        GeneralField::RerecordCount,
        GeneralField::SavestateFrameCount,
        GeneralField::VariableFramerate,
    ]
}

/// The canonical value text of each field.
pub open spec fn general_value_text(c: GeneralConfigV, f: GeneralField) -> Seq<char> {
    match f {
        GeneralField::Authors => c.authors,
        GeneralField::AutoRestart => bool_text(c.auto_restart),
        GeneralField::FrameCount => dec_text(c.frame_count as nat),
        GeneralField::FramerateDen => dec_text(c.framerate_den as nat),
        GeneralField::FramerateNum => dec_text(c.framerate_num as nat),
        GeneralField::GameName => c.game_name,
        GeneralField::InitialMonotonicTimeNsec => dec_text(c.initial_monotonic_time_nsec as nat),
        GeneralField::InitialMonotonicTimeSec => dec_text(c.initial_monotonic_time_sec as nat),
        GeneralField::InitialTimeNsec => dec_text(c.initial_time_nsec as nat),
        GeneralField::InitialTimeSec => dec_text(c.initial_time_sec as nat),
        GeneralField::LengthNsec => dec_text(c.length_nsec as nat),
        GeneralField::LengthSec => dec_text(c.length_sec as nat),
        GeneralField::LibtasMajorVersion => dec_text(c.libtas_major_version as nat),
        GeneralField::LibtasMinorVersion => dec_text(c.libtas_minor_version as nat),
        GeneralField::LibtasPatchVersion => dec_text(c.libtas_patch_version as nat),
        GeneralField::Md5 => c.md5,
        GeneralField::MouseSupport => bool_text(c.mouse_support),
        GeneralField::NbControllers => dec_text(c.nb_controllers as nat),
        GeneralField::RerecordCount => dec_text(c.rerecord_count as nat),
        GeneralField::SavestateFrameCount => dec_text(c.savestate_frame_count as nat),
        GeneralField::VariableFramerate => bool_text(c.variable_framerate),
    }
}

/// Reading one value and overwriting its field; `None` when the value
/// does not read as the field's type.
pub open spec fn general_apply(c: GeneralConfigV, f: GeneralField, value: Seq<char>) -> Option<GeneralConfigV> {
    match f {
        GeneralField::Authors => Some(GeneralConfigV { authors: value, ..c }),
        GeneralField::AutoRestart => match parse_bool(value) {
            Some(x) => Some(GeneralConfigV { auto_restart: x, ..c }),
            None => None,
        },
        GeneralField::FrameCount => match parse_u64(value) {
            Some(x) => Some(GeneralConfigV { frame_count: x, ..c }),
            None => None,
        },
        GeneralField::FramerateDen => match parse_u64(value) {
            Some(x) => Some(GeneralConfigV { framerate_den: x, ..c }),
            None => None,
        },
        GeneralField::FramerateNum => match parse_u64(value) {
            Some(x) => Some(GeneralConfigV { framerate_num: x, ..c }),
            None => None,
        },
        GeneralField::GameName => Some(GeneralConfigV { game_name: value, ..c }),
        GeneralField::InitialMonotonicTimeNsec => match parse_u64(value) {
            Some(x) => Some(GeneralConfigV { initial_monotonic_time_nsec: x, ..c }),
            None => None,
        },
        GeneralField::InitialMonotonicTimeSec => match parse_u64(value) {
            Some(x) => Some(GeneralConfigV { initial_monotonic_time_sec: x, ..c }),
            None => None,
        },
        GeneralField::InitialTimeNsec => match parse_u64(value) {
            Some(x) => Some(GeneralConfigV { initial_time_nsec: x, ..c }),
            None => None,
        },
        GeneralField::InitialTimeSec => match parse_u64(value) {
            Some(x) => Some(GeneralConfigV { initial_time_sec: x, ..c }),
            None => None,
        },
        GeneralField::LengthNsec => match parse_u64(value) {
            Some(x) => Some(GeneralConfigV { length_nsec: x, ..c }),
            None => None,
        },
        GeneralField::LengthSec => match parse_u64(value) {
            Some(x) => Some(GeneralConfigV { length_sec: x, ..c }),
            None => None,
        },
        GeneralField::LibtasMajorVersion => match parse_u32(value) {
            Some(x) => Some(GeneralConfigV { libtas_major_version: x, ..c }),
            None => None,
        },
        GeneralField::LibtasMinorVersion => match parse_u32(value) {
            Some(x) => Some(GeneralConfigV { libtas_minor_version: x, ..c }),
            None => None,
        },
        GeneralField::LibtasPatchVersion => match parse_u32(value) {
            Some(x) => Some(GeneralConfigV { libtas_patch_version: x, ..c }),
            None => None,
        },
        GeneralField::Md5 => Some(GeneralConfigV { md5: value, ..c }),
        GeneralField::MouseSupport => match parse_bool(value) {
            Some(x) => Some(GeneralConfigV { mouse_support: x, ..c }),
            None => None,
        },
        GeneralField::NbControllers => match parse_u32(value) {
            Some(x) => Some(GeneralConfigV { nb_controllers: x, ..c }),
            None => None,
        },
        GeneralField::RerecordCount => match parse_u64(value) {
            Some(x) => Some(GeneralConfigV { rerecord_count: x, ..c }),
            None => None,
        },
        GeneralField::SavestateFrameCount => match parse_u64(value) {
            Some(x) => Some(GeneralConfigV { savestate_frame_count: x, ..c }),
            None => None,
        },
        GeneralField::VariableFramerate => match parse_bool(value) {
            Some(x) => Some(GeneralConfigV { variable_framerate: x, ..c }),
            None => None,
        },
    }
}

/// Overwriting one field of `a` with `c`'s value of it.
pub open spec fn general_set(a: GeneralConfigV, c: GeneralConfigV, f: GeneralField) -> GeneralConfigV {
    match f {
        GeneralField::Authors => GeneralConfigV { authors: c.authors, ..a },
        GeneralField::AutoRestart => GeneralConfigV { auto_restart: c.auto_restart, ..a },
        GeneralField::FrameCount => GeneralConfigV { frame_count: c.frame_count, ..a },
        GeneralField::FramerateDen => GeneralConfigV { framerate_den: c.framerate_den, ..a },
        GeneralField::FramerateNum => GeneralConfigV { framerate_num: c.framerate_num, ..a },
        GeneralField::GameName => GeneralConfigV { game_name: c.game_name, ..a },
        GeneralField::InitialMonotonicTimeNsec => GeneralConfigV { initial_monotonic_time_nsec: c.initial_monotonic_time_nsec, ..a },
        GeneralField::InitialMonotonicTimeSec => GeneralConfigV { initial_monotonic_time_sec: c.initial_monotonic_time_sec, ..a },
        GeneralField::InitialTimeNsec => GeneralConfigV { initial_time_nsec: c.initial_time_nsec, ..a },
        GeneralField::InitialTimeSec => GeneralConfigV { initial_time_sec: c.initial_time_sec, ..a },
        GeneralField::LengthNsec => GeneralConfigV { length_nsec: c.length_nsec, ..a },
        GeneralField::LengthSec => GeneralConfigV { length_sec: c.length_sec, ..a },
        GeneralField::LibtasMajorVersion => GeneralConfigV { libtas_major_version: c.libtas_major_version, ..a },
        GeneralField::LibtasMinorVersion => GeneralConfigV { libtas_minor_version: c.libtas_minor_version, ..a },
        GeneralField::LibtasPatchVersion => GeneralConfigV { libtas_patch_version: c.libtas_patch_version, ..a },
        GeneralField::Md5 => GeneralConfigV { md5: c.md5, ..a },
        GeneralField::MouseSupport => GeneralConfigV { mouse_support: c.mouse_support, ..a },
        GeneralField::NbControllers => GeneralConfigV { nb_controllers: c.nb_controllers, ..a },
        GeneralField::RerecordCount => GeneralConfigV { rerecord_count: c.rerecord_count, ..a },
        GeneralField::SavestateFrameCount => GeneralConfigV { savestate_frame_count: c.savestate_frame_count, ..a },
        GeneralField::VariableFramerate => GeneralConfigV { variable_framerate: c.variable_framerate, ..a },
    }
}

/// Key recognition; unknown keys give `None` and their lines are skipped.
pub open spec fn general_lookup(key: Seq<char>) -> Option<GeneralField> {
    if key == "authors"@ {
        Some(GeneralField::Authors)
    } else if key == "auto_restart"@ {
        Some(GeneralField::AutoRestart)
    } else if key == "frame_count"@ {
        Some(GeneralField::FrameCount)
    } else if key == "framerate_den"@ {
        Some(GeneralField::FramerateDen)
    } else if key == "framerate_num"@ {
        Some(GeneralField::FramerateNum)
    } else if key == "game_name"@ {
        Some(GeneralField::GameName)
    } else if key == "initial_monotonic_time_nsec"@ {
        Some(GeneralField::InitialMonotonicTimeNsec)
    } else if key == "initial_monotonic_time_sec"@ {
        Some(GeneralField::InitialMonotonicTimeSec)
    } else if key == "initial_time_nsec"@ {
        Some(GeneralField::InitialTimeNsec)
    } else if key == "initial_time_sec"@ {
        Some(GeneralField::InitialTimeSec)
    } else if key == "length_nsec"@ {
        Some(GeneralField::LengthNsec)
    } else if key == "length_sec"@ {
        Some(GeneralField::LengthSec)
    } else if key == "libtas_major_version"@ {
        Some(GeneralField::LibtasMajorVersion)
    } else if key == "libtas_minor_version"@ {
        Some(GeneralField::LibtasMinorVersion)
    } else if key == "libtas_patch_version"@ {
        Some(GeneralField::LibtasPatchVersion)
    } else if key == "md5"@ {
        Some(GeneralField::Md5)
    } else if key == "mouse_support"@ {
        Some(GeneralField::MouseSupport)
    } else if key == "nb_controllers"@ {
        Some(GeneralField::NbControllers)
    } else if key == "rerecord_count"@ {
        Some(GeneralField::RerecordCount)
    } else if key == "savestate_frame_count"@ {
        Some(GeneralField::SavestateFrameCount)
    } else if key == "variable_framerate"@ {
        Some(GeneralField::VariableFramerate)
    } else {
        None
    }
}

/// Reading one body line: split at the first `=`, recognize the key, read
/// the value; a line without `=` is a hard error, an unknown key a skip.
pub open spec fn general_line_step(c: GeneralConfigV, line: Seq<char>) -> Result<GeneralConfigV, ConfigErrV> {
    match find_char(line, '=') {
        None => Err(ConfigErrV::MalformedLine(line)),
        Some(j) => {
            let key = line.subrange(0, j);
            let value = line.subrange(j + 1, line.len() as int);
            match general_lookup(key) {
                None => Ok(c),
                Some(f) => match general_apply(c, f, value) {
                    Some(c2) => Ok(c2),
                    None => Err(ConfigErrV::FieldParseError(key)),
                },
            }
        },
    }
}

pub open spec fn general_lines_fold(c: GeneralConfigV, lines: Seq<Seq<char>>) -> Result<GeneralConfigV, ConfigErrV>
    decreases lines.len(),
{
    if lines.len() == 0 {
        Ok(c)
    } else {
        match general_line_step(c, lines[0]) {
            Ok(c2) => general_lines_fold(c2, lines.drop_first()),
            Err(e) => Err(e),
        }
    }
}

/// Reading a whole group text: the marker line, then one `key=value` per
/// line over the default value.
pub open spec fn general_dec(s: Seq<char>) -> Result<GeneralConfigV, ConfigErrV> {
    let lines = text_lines(s);
    if lines.len() == 0 || lines[0] != "[General]"@ {
        Err(ConfigErrV::GroupMarkerMismatch("[General]"@))
    } else {
        general_lines_fold(default_general(), lines.drop_first())
    }
}

/// One canonical `key=value` line.
pub open spec fn general_line(c: GeneralConfigV, f: GeneralField) -> Seq<char> {
    general_key(f) + seq!['='] + general_value_text(c, f)
}

/// The canonical lines: the marker, then each field in schema order.
pub open spec fn general_lines(c: GeneralConfigV) -> Seq<Seq<char>> {
    seq!["[General]"@] + general_fields().map_values(|f: GeneralField| general_line(c, f))
}

/// The canonical group text, every line newline-terminated.
pub open spec fn general_text(c: GeneralConfigV) -> Seq<char> {
    cat_lines(general_lines(c))
}

/// Well-formed for canonical encoding: the free-text fields hold no newline
/// and do not end in a carriage return, as in every decoded value.
pub open spec fn general_wf(c: GeneralConfigV) -> bool {
    line_ready(c.authors) && line_ready(c.game_name) && line_ready(c.md5)
}

impl GeneralConfig {
    /// Decodes a `[General]` group text.
    pub fn decode(s: &str) -> (r: Result<GeneralConfig, InvalidConfigError>)
        ensures
            models(r, general_dec(s@)),
    {
        let v = str_to_chars(s);
        Self::decode_chars(v.as_slice())
    }

    pub(crate) fn decode_chars(v: &[char]) -> (r: Result<GeneralConfig, InvalidConfigError>)
        ensures
            models(r, general_dec(v@)),
    {
        let lines = text_lines_chars(v);
        let ghost ls = text_lines(v@);
        let m = lines.len();
        if m == 0 {
            return Err(InvalidConfigError::GroupMarkerMismatch(String::from_str("[General]")));
        }
        if !chars_eq_str(lines[0].as_slice(), "[General]") {
            proof {
                assert(lines@[0]@ == ls[0]);
            }
            return Err(InvalidConfigError::GroupMarkerMismatch(String::from_str("[General]")));
        }
        proof {
            assert(lines@[0]@ == ls[0]);
            assert(ls[0] == "[General]"@);
        }
        let mut cur = GeneralConfig::default();
        let ghost body = ls.drop_first();
        let mut i: usize = 1;
        proof {
            assert(body.subrange(0, body.len() as int) =~= body);
        }
        while i < m
            invariant
                m == ls.len(),
                ls == text_lines(v@),
                lines.deep_view() =~~= ls,
                body == ls.drop_first(),
                1 <= i <= m,
                ls[0] == "[General]"@,
                general_dec(v@) == general_lines_fold(cur@, body.subrange(i - 1, body.len() as int)),
            decreases m - i,
        {
            let ghost suffix = body.subrange(i - 1, body.len() as int);
            proof {
                assert(suffix.len() > 0);
                assert(suffix[0] == body[i - 1]);
                assert(body[i - 1] == ls[i as int]);
                assert(lines@[i as int]@ == ls[i as int]);
                assert(suffix.drop_first() =~= body.subrange(i as int, body.len() as int));
            }
            match Self::apply_line(&mut cur, lines[i].as_slice()) {
                Ok(()) => {},
                Err(e) => {
                    return Err(e);
                },
            }
            i = i + 1;
        }
        proof {
            assert(body.subrange(m - 1, body.len() as int) =~= Seq::<Seq<char>>::empty());
        }
        Ok(cur)
    }

    /// Applies one body line to the value being built.
    fn apply_line(c: &mut GeneralConfig, line: &[char]) -> (r: Result<(), InvalidConfigError>)
        ensures
            match r {
                Ok(_) => general_line_step(old(c)@, line@) == Ok::<GeneralConfigV, ConfigErrV>(final(c)@),
                Err(e) => general_line_step(old(c)@, line@) == Err::<GeneralConfigV, ConfigErrV>(e@)
                    && *final(c) == *old(c),
            },
    {
        let n = line.len();
        let j = match find_char_at(line, '=') {
            None => {
                return Err(InvalidConfigError::MalformedLine(chars_to_string(line)));
            },
            Some(j) => j,
        };
        proof {
            lemma_find_char(line@, '=');
        }
        let key = vstd::slice::slice_subrange(line, 0, j);
        let value = vstd::slice::slice_subrange(line, j + 1, n);
        assert(key@ =~= line@.subrange(0, j as int));
        assert(value@ =~= line@.subrange(j + 1 as int, line@.len() as int));
        if chars_eq_str(key, "authors") {
            c.authors = chars_to_string(value);
            Ok(())
        } else if chars_eq_str(key, "auto_restart") {
            match parse_bool_chars(value) {
                Some(x) => {
                    c.auto_restart = x;
                    Ok(())
                },
                None => Err(InvalidConfigError::FieldParseError(chars_to_string(key))),
            }
        } else if chars_eq_str(key, "frame_count") {
            match parse_u64_chars(value) {
                Some(x) => {
                    c.frame_count = x;
                    Ok(())
                },
                None => Err(InvalidConfigError::FieldParseError(chars_to_string(key))),
            }
        } else if chars_eq_str(key, "framerate_den") {
            match parse_u64_chars(value) {
                Some(x) => {
                    c.framerate_den = x;
                    Ok(())
                },
                None => Err(InvalidConfigError::FieldParseError(chars_to_string(key))),
            }
        } else if chars_eq_str(key, "framerate_num") {
            match parse_u64_chars(value) {
                Some(x) => {
                    c.framerate_num = x;
                    Ok(())
                },
                None => Err(InvalidConfigError::FieldParseError(chars_to_string(key))),
            }
        } else if chars_eq_str(key, "game_name") {
            c.game_name = chars_to_string(value);
            Ok(())
        } else if chars_eq_str(key, "initial_monotonic_time_nsec") {
            match parse_u64_chars(value) {
                Some(x) => {
                    c.initial_monotonic_time_nsec = x;
                    Ok(())
                },
                None => Err(InvalidConfigError::FieldParseError(chars_to_string(key))),
            }
        } else if chars_eq_str(key, "initial_monotonic_time_sec") {
            match parse_u64_chars(value) {
                Some(x) => {
                    c.initial_monotonic_time_sec = x;
                    Ok(())
                },
                None => Err(InvalidConfigError::FieldParseError(chars_to_string(key))),
            }
        } else if chars_eq_str(key, "initial_time_nsec") {
            match parse_u64_chars(value) {
                Some(x) => {
                    c.initial_time_nsec = x;
                    Ok(())
                },
                None => Err(InvalidConfigError::FieldParseError(chars_to_string(key))),
            }
        } else if chars_eq_str(key, "initial_time_sec") {
            match parse_u64_chars(value) {
                Some(x) => {
                    c.initial_time_sec = x;
                    Ok(())
                },
                None => Err(InvalidConfigError::FieldParseError(chars_to_string(key))),
            }
        } else if chars_eq_str(key, "length_nsec") {
            match parse_u64_chars(value) {
                Some(x) => {
                    c.length_nsec = x;
                    Ok(())
                },
                None => Err(InvalidConfigError::FieldParseError(chars_to_string(key))),
            }
        } else if chars_eq_str(key, "length_sec") {
            match parse_u64_chars(value) {
                Some(x) => {
                    c.length_sec = x;
                    Ok(())
                },
                None => Err(InvalidConfigError::FieldParseError(chars_to_string(key))),
            }
        } else if chars_eq_str(key, "libtas_major_version") {
            match parse_u32_chars(value) {
                Some(x) => {
                    c.libtas_major_version = x;
                    Ok(())
                },
                None => Err(InvalidConfigError::FieldParseError(chars_to_string(key))),
            }
        } else if chars_eq_str(key, "libtas_minor_version") {
            match parse_u32_chars(value) {
                Some(x) => {
                    c.libtas_minor_version = x;
                    Ok(())
                },
                None => Err(InvalidConfigError::FieldParseError(chars_to_string(key))),
            }
        } else if chars_eq_str(key, "libtas_patch_version") {
            match parse_u32_chars(value) {
                Some(x) => {
                    c.libtas_patch_version = x;
                    Ok(())
                },
                None => Err(InvalidConfigError::FieldParseError(chars_to_string(key))),
            }
        } else if chars_eq_str(key, "md5") {
            c.md5 = chars_to_string(value);
            Ok(())
        } else if chars_eq_str(key, "mouse_support") {
            match parse_bool_chars(value) {
                Some(x) => {
                    c.mouse_support = x;
                    Ok(())
                },
                None => Err(InvalidConfigError::FieldParseError(chars_to_string(key))),
            }
        } else if chars_eq_str(key, "nb_controllers") {
            match parse_u32_chars(value) {
                Some(x) => {
                    c.nb_controllers = x;
                    Ok(())
                },
                None => Err(InvalidConfigError::FieldParseError(chars_to_string(key))),
            }
        } else if chars_eq_str(key, "rerecord_count") {
            match parse_u64_chars(value) {
                Some(x) => {
                    c.rerecord_count = x;
                    Ok(())
                },
                None => Err(InvalidConfigError::FieldParseError(chars_to_string(key))),
            }
        } else if chars_eq_str(key, "savestate_frame_count") {
            match parse_u64_chars(value) {
                Some(x) => {
                    c.savestate_frame_count = x;
                    Ok(())
                },
                None => Err(InvalidConfigError::FieldParseError(chars_to_string(key))),
            }
        } else if chars_eq_str(key, "variable_framerate") {
            match parse_bool_chars(value) {
                Some(x) => {
                    c.variable_framerate = x;
                    Ok(())
                },
                None => Err(InvalidConfigError::FieldParseError(chars_to_string(key))),
            }
        } else {
            Ok(())
        }
    }

    /// Encodes the group canonically: the marker line, then every schema
    /// field in order as a `key=value` line, each newline-terminated.
    pub fn encode(&self) -> (r: String)
        ensures
            r@ == general_text(self@),
    {
        let mut out: Vec<char> = Vec::new();
        self.push_text(&mut out);
        assert(out@ =~= general_text(self@));
        chars_to_string(out.as_slice())
    }

    /// Appends the canonical group text.
    pub(crate) fn push_text(&self, out: &mut Vec<char>)
        ensures
            final(out)@ == old(out)@ + general_text(self@),
    {
        let ghost base = out@;
        push_str_chars(out, "[General]");
        out.push('\n');
        proof {
            lemma_cat_lines_snoc(Seq::<Seq<char>>::empty(), "[General]"@);
            assert(cat_lines(Seq::<Seq<char>>::empty()) == Seq::<char>::empty());
            assert(Seq::<Seq<char>>::empty().push("[General]"@) =~= seq!["[General]"@]);
            assert(out@ =~= base + cat_lines(seq!["[General]"@]));
        }
        let mut i: usize = 0;
        let n: usize = 21;
        proof {
            assert(general_fields().subrange(0, 0) =~= Seq::<GeneralField>::empty());
            assert(Seq::<GeneralField>::empty().map_values(|f: GeneralField| general_line(self@, f)) =~= Seq::<Seq<char>>::empty());
            assert(seq!["[General]"@] + Seq::<Seq<char>>::empty() =~= seq!["[General]"@]);
        }
        while i < n
            invariant
                n == general_fields().len(),
                i <= n,
                out@ == base + cat_lines(seq!["[General]"@] + general_fields().subrange(0, i as int).map_values(|f: GeneralField| general_line(self@, f))),
            decreases n - i,
        {
            let ghost done = seq!["[General]"@] + general_fields().subrange(0, i as int).map_values(|f: GeneralField| general_line(self@, f));
            self.push_line(i, out);
            proof {
                lemma_cat_lines_snoc(done, general_line(self@, general_fields()[i as int]));
                assert(seq!["[General]"@] + general_fields().subrange(0, i + 1 as int).map_values(|f: GeneralField| general_line(self@, f)) =~= done.push(general_line(self@, general_fields()[i as int])));
            }
            i = i + 1;
        }
        proof {
            assert(general_fields().subrange(0, n as int) =~= general_fields());
        }
    }

    /// Appends the canonical newline-terminated line of schema entry `i`.
    fn push_line(&self, i: usize, out: &mut Vec<char>)
        requires
            i < general_fields().len(),
        ensures
            final(out)@ == old(out)@ + general_line(self@, general_fields()[i as int]) + seq!['\n'],
    {
        let ghost base = out@;
        if i == 0 {
            push_str_chars(out, "authors");
            out.push('=');
            push_str_chars(out, self.authors.as_str());
            out.push('\n');
            proof {
                assert(general_fields()[i as int] == GeneralField::Authors);
                assert(out@ =~= base + general_line(self@, GeneralField::Authors) + seq!['\n']);
            }
        } else if i == 1 {
            push_str_chars(out, "auto_restart");
            out.push('=');
            crate::num::push_bool(out, self.auto_restart);
            out.push('\n');
            proof {
                assert(general_fields()[i as int] == GeneralField::AutoRestart);
                assert(out@ =~= base + general_line(self@, GeneralField::AutoRestart) + seq!['\n']);
            }
        } else if i == 2 {
            push_str_chars(out, "frame_count");
            out.push('=');
            crate::num::push_dec_u64(out, self.frame_count);
            out.push('\n');
            proof {
                assert(general_fields()[i as int] == GeneralField::FrameCount);
                assert(out@ =~= base + general_line(self@, GeneralField::FrameCount) + seq!['\n']);
            }
        } else if i == 3 {
            push_str_chars(out, "framerate_den");
            out.push('=');
            crate::num::push_dec_u64(out, self.framerate_den);
            out.push('\n');
            proof {
                assert(general_fields()[i as int] == GeneralField::FramerateDen);
                assert(out@ =~= base + general_line(self@, GeneralField::FramerateDen) + seq!['\n']);
            }
        } else if i == 4 {
            push_str_chars(out, "framerate_num");
            out.push('=');
            crate::num::push_dec_u64(out, self.framerate_num);
            out.push('\n');
            proof {
                assert(general_fields()[i as int] == GeneralField::FramerateNum);
                assert(out@ =~= base + general_line(self@, GeneralField::FramerateNum) + seq!['\n']);
            }
        } else if i == 5 {
            push_str_chars(out, "game_name");
            out.push('=');
            push_str_chars(out, self.game_name.as_str());
            out.push('\n');
            proof {
                assert(general_fields()[i as int] == GeneralField::GameName);
                assert(out@ =~= base + general_line(self@, GeneralField::GameName) + seq!['\n']);
            }
        } else if i == 6 {
            push_str_chars(out, "initial_monotonic_time_nsec");
            out.push('=');
            crate::num::push_dec_u64(out, self.initial_monotonic_time_nsec);
            out.push('\n');
            proof {
                assert(general_fields()[i as int] == GeneralField::InitialMonotonicTimeNsec);
                assert(out@ =~= base + general_line(self@, GeneralField::InitialMonotonicTimeNsec) + seq!['\n']);
            }
        } else if i == 7 {
            push_str_chars(out, "initial_monotonic_time_sec");
            out.push('=');
            crate::num::push_dec_u64(out, self.initial_monotonic_time_sec);
            out.push('\n');
            proof {
                assert(general_fields()[i as int] == GeneralField::InitialMonotonicTimeSec);
                assert(out@ =~= base + general_line(self@, GeneralField::InitialMonotonicTimeSec) + seq!['\n']);
            }
        } else if i == 8 {
            push_str_chars(out, "initial_time_nsec");
            out.push('=');
            crate::num::push_dec_u64(out, self.initial_time_nsec);
            out.push('\n');
            proof {
                assert(general_fields()[i as int] == GeneralField::InitialTimeNsec);
                assert(out@ =~= base + general_line(self@, GeneralField::InitialTimeNsec) + seq!['\n']);
            }
        } else if i == 9 {
            push_str_chars(out, "initial_time_sec");
            out.push('=');
            crate::num::push_dec_u64(out, self.initial_time_sec);
            out.push('\n');
            proof {
                assert(general_fields()[i as int] == GeneralField::InitialTimeSec);
                assert(out@ =~= base + general_line(self@, GeneralField::InitialTimeSec) + seq!['\n']);
            }
        } else if i == 10 {
            push_str_chars(out, "length_nsec");
            out.push('=');
            crate::num::push_dec_u64(out, self.length_nsec);
            out.push('\n');
            proof {
                assert(general_fields()[i as int] == GeneralField::LengthNsec);
                assert(out@ =~= base + general_line(self@, GeneralField::LengthNsec) + seq!['\n']);
            }
        } else if i == 11 {
            push_str_chars(out, "length_sec");
            out.push('=');
            crate::num::push_dec_u64(out, self.length_sec);
            out.push('\n');
            proof {
                assert(general_fields()[i as int] == GeneralField::LengthSec);
                assert(out@ =~= base + general_line(self@, GeneralField::LengthSec) + seq!['\n']);
            }
        } else if i == 12 {
            push_str_chars(out, "libtas_major_version");
            out.push('=');
            crate::num::push_dec_u64(out, self.libtas_major_version as u64);
            out.push('\n');
            proof {
                assert(general_fields()[i as int] == GeneralField::LibtasMajorVersion);
                assert(out@ =~= base + general_line(self@, GeneralField::LibtasMajorVersion) + seq!['\n']);
            }
        } else if i == 13 {
            push_str_chars(out, "libtas_minor_version");
            out.push('=');
            crate::num::push_dec_u64(out, self.libtas_minor_version as u64);
            out.push('\n');
            proof {
                assert(general_fields()[i as int] == GeneralField::LibtasMinorVersion);
                assert(out@ =~= base + general_line(self@, GeneralField::LibtasMinorVersion) + seq!['\n']);
            }
        } else if i == 14 {
            push_str_chars(out, "libtas_patch_version");
            out.push('=');
            crate::num::push_dec_u64(out, self.libtas_patch_version as u64);
            out.push('\n');
            proof {
                assert(general_fields()[i as int] == GeneralField::LibtasPatchVersion);
                assert(out@ =~= base + general_line(self@, GeneralField::LibtasPatchVersion) + seq!['\n']);
            }
        } else if i == 15 {
            push_str_chars(out, "md5");
            out.push('=');
            push_str_chars(out, self.md5.as_str());
            out.push('\n');
            proof {
                assert(general_fields()[i as int] == GeneralField::Md5);
                assert(out@ =~= base + general_line(self@, GeneralField::Md5) + seq!['\n']);
            }
        } else if i == 16 {
            push_str_chars(out, "mouse_support");
            out.push('=');
            crate::num::push_bool(out, self.mouse_support);
            out.push('\n');
            proof {
                assert(general_fields()[i as int] == GeneralField::MouseSupport);
                assert(out@ =~= base + general_line(self@, GeneralField::MouseSupport) + seq!['\n']);
            }
        } else if i == 17 {
            push_str_chars(out, "nb_controllers");
            out.push('=');
            crate::num::push_dec_u64(out, self.nb_controllers as u64);
            out.push('\n');
            proof {
                assert(general_fields()[i as int] == GeneralField::NbControllers);
                assert(out@ =~= base + general_line(self@, GeneralField::NbControllers) + seq!['\n']);
            }
        } else if i == 18 {
            push_str_chars(out, "rerecord_count");
            out.push('=');
            crate::num::push_dec_u64(out, self.rerecord_count);
            out.push('\n');
            proof {
                assert(general_fields()[i as int] == GeneralField::RerecordCount);
                assert(out@ =~= base + general_line(self@, GeneralField::RerecordCount) + seq!['\n']);
            }
        } else if i == 19 {
            push_str_chars(out, "savestate_frame_count");
            out.push('=');
            crate::num::push_dec_u64(out, self.savestate_frame_count);
            out.push('\n');
            proof {
                assert(general_fields()[i as int] == GeneralField::SavestateFrameCount);
                assert(out@ =~= base + general_line(self@, GeneralField::SavestateFrameCount) + seq!['\n']);
            }
        } else if i == 20 {
            push_str_chars(out, "variable_framerate");
            out.push('=');
            crate::num::push_bool(out, self.variable_framerate);
            out.push('\n');
            proof {
                assert(general_fields()[i as int] == GeneralField::VariableFramerate);
                assert(out@ =~= base + general_line(self@, GeneralField::VariableFramerate) + seq!['\n']);
            }
        } else {
            proof {
                assert(false);
            }
        }
    }
}

/// Every schema key names its own field and no other.
pub proof fn lemma_general_lookup(f: GeneralField)
    ensures
        general_lookup(general_key(f)) == Some(f),
        general_key(f).len() > 0,
        no_char(general_key(f), '='),
        no_char(general_key(f), '\n'),
{
    reveal_strlit("authors");
    reveal_strlit("auto_restart");
    reveal_strlit("frame_count");
    reveal_strlit("framerate_den");
    reveal_strlit("framerate_num");
    reveal_strlit("game_name");
    reveal_strlit("initial_monotonic_time_nsec");
    reveal_strlit("initial_monotonic_time_sec");
    reveal_strlit("initial_time_nsec");
    reveal_strlit("initial_time_sec");
    reveal_strlit("length_nsec");
    reveal_strlit("length_sec");
    reveal_strlit("libtas_major_version");
    reveal_strlit("libtas_minor_version");
    reveal_strlit("libtas_patch_version");
    reveal_strlit("md5");
    reveal_strlit("mouse_support");
    reveal_strlit("nb_controllers");
    reveal_strlit("rerecord_count");
    reveal_strlit("savestate_frame_count");
    reveal_strlit("variable_framerate");
    assert("authors"@.len() == 7);
    assert("auto_restart"@.len() == 12);
    assert("frame_count"@.len() == 11);
    assert("framerate_den"@.len() == 13);
    assert("framerate_num"@.len() == 13);
    assert("game_name"@.len() == 9);
    assert("initial_monotonic_time_nsec"@.len() == 27);
    assert("initial_monotonic_time_sec"@.len() == 26);
    assert("initial_time_nsec"@.len() == 17);
    assert("initial_time_sec"@.len() == 16);
    assert("length_nsec"@.len() == 11);
    assert("length_sec"@.len() == 10);
    assert("libtas_major_version"@.len() == 20);
    assert("libtas_minor_version"@.len() == 20);
    assert("libtas_patch_version"@.len() == 20);
    assert("md5"@.len() == 3);
    assert("mouse_support"@.len() == 13);
    assert("nb_controllers"@.len() == 14);
    assert("rerecord_count"@.len() == 14);
    assert("savestate_frame_count"@.len() == 21);
    assert("variable_framerate"@.len() == 18);
    assert("frame_count"@[0] == 'f');
    assert("framerate_den"@[0] == 'f');
    assert("framerate_den"@[10] == 'd');
    assert("framerate_num"@[0] == 'f');
    assert("framerate_num"@[10] == 'n');
    assert("length_nsec"@[0] == 'l');
    assert("libtas_major_version"@[7] == 'm');
    assert("libtas_major_version"@[8] == 'a');
    assert("libtas_minor_version"@[7] == 'm');
    assert("libtas_minor_version"@[8] == 'i');
    assert("libtas_patch_version"@[7] == 'p');
    assert("mouse_support"@[0] == 'm');
    assert("nb_controllers"@[0] == 'n');
    assert("rerecord_count"@[0] == 'r');
    match f {
        GeneralField::Authors => {
            assert(general_lookup("authors"@) == Some(GeneralField::Authors));
        },
        GeneralField::AutoRestart => {
            assert(general_lookup("auto_restart"@) == Some(GeneralField::AutoRestart));
        },
        GeneralField::FrameCount => {
            assert(general_lookup("frame_count"@) == Some(GeneralField::FrameCount));
        },
        GeneralField::FramerateDen => {
            assert(general_lookup("framerate_den"@) == Some(GeneralField::FramerateDen));
        },
        GeneralField::FramerateNum => {
            assert(general_lookup("framerate_num"@) == Some(GeneralField::FramerateNum));
        },
        GeneralField::GameName => {
            assert(general_lookup("game_name"@) == Some(GeneralField::GameName));
        },
        GeneralField::InitialMonotonicTimeNsec => {
            assert(general_lookup("initial_monotonic_time_nsec"@) == Some(GeneralField::InitialMonotonicTimeNsec));
        },
        GeneralField::InitialMonotonicTimeSec => {
            assert(general_lookup("initial_monotonic_time_sec"@) == Some(GeneralField::InitialMonotonicTimeSec));
        },
        GeneralField::InitialTimeNsec => {
            assert(general_lookup("initial_time_nsec"@) == Some(GeneralField::InitialTimeNsec));
        },
        GeneralField::InitialTimeSec => {
            assert(general_lookup("initial_time_sec"@) == Some(GeneralField::InitialTimeSec));
        },
        GeneralField::LengthNsec => {
            assert(general_lookup("length_nsec"@) == Some(GeneralField::LengthNsec));
        },
        GeneralField::LengthSec => {
            assert(general_lookup("length_sec"@) == Some(GeneralField::LengthSec));
        },
        GeneralField::LibtasMajorVersion => {
            assert(general_lookup("libtas_major_version"@) == Some(GeneralField::LibtasMajorVersion));
        },
        GeneralField::LibtasMinorVersion => {
            assert(general_lookup("libtas_minor_version"@) == Some(GeneralField::LibtasMinorVersion));
        },
        GeneralField::LibtasPatchVersion => {
            assert(general_lookup("libtas_patch_version"@) == Some(GeneralField::LibtasPatchVersion));
        },
        GeneralField::Md5 => {
            assert(general_lookup("md5"@) == Some(GeneralField::Md5));
        },
        GeneralField::MouseSupport => {
            assert(general_lookup("mouse_support"@) == Some(GeneralField::MouseSupport));
        },
        GeneralField::NbControllers => {
            assert(general_lookup("nb_controllers"@) == Some(GeneralField::NbControllers));
        },
        GeneralField::RerecordCount => {
            assert(general_lookup("rerecord_count"@) == Some(GeneralField::RerecordCount));
        },
        GeneralField::SavestateFrameCount => {
            assert(general_lookup("savestate_frame_count"@) == Some(GeneralField::SavestateFrameCount));
        },
        GeneralField::VariableFramerate => {
            assert(general_lookup("variable_framerate"@) == Some(GeneralField::VariableFramerate));
        },
    }
}

/// Every canonical line is non-empty, newline-free and does not end in a
/// carriage return, so the line reader passes it through unchanged.
proof fn lemma_general_line_clean(c: GeneralConfigV, f: GeneralField)
    requires
        general_wf(c),
    ensures
        general_line(c, f).len() > 0,
        line_ready(general_line(c, f)),
{
    lemma_general_lookup(f);
    let value = general_value_text(c, f);
    assert(line_ready(value)) by {
        match f {
            GeneralField::Authors => {},
            GeneralField::AutoRestart => {
                reveal_strlit("true");
                reveal_strlit("false");
                assert("true"@.len() == 4 && "false"@.len() == 5);
            },
            GeneralField::FrameCount => {
                lemma_dec_text(c.frame_count as nat);
                assert forall|i: int| 0 <= i < value.len() implies value[i] != '\n' by {
                    lemma_dec_digit_not_sep(value[i]);
                }
                lemma_dec_digit_not_sep(value.last());
            },
            GeneralField::FramerateDen => {
                lemma_dec_text(c.framerate_den as nat);
                assert forall|i: int| 0 <= i < value.len() implies value[i] != '\n' by {
                    lemma_dec_digit_not_sep(value[i]);
                }
                lemma_dec_digit_not_sep(value.last());
            },
            GeneralField::FramerateNum => {
                lemma_dec_text(c.framerate_num as nat);
                assert forall|i: int| 0 <= i < value.len() implies value[i] != '\n' by {
                    lemma_dec_digit_not_sep(value[i]);
                }
                lemma_dec_digit_not_sep(value.last());
            },
            GeneralField::GameName => {},
            GeneralField::InitialMonotonicTimeNsec => {
                lemma_dec_text(c.initial_monotonic_time_nsec as nat);
                assert forall|i: int| 0 <= i < value.len() implies value[i] != '\n' by {
                    lemma_dec_digit_not_sep(value[i]);
                }
                lemma_dec_digit_not_sep(value.last());
            },
            GeneralField::InitialMonotonicTimeSec => {
                lemma_dec_text(c.initial_monotonic_time_sec as nat);
                assert forall|i: int| 0 <= i < value.len() implies value[i] != '\n' by {
                    lemma_dec_digit_not_sep(value[i]);
                }
                lemma_dec_digit_not_sep(value.last());
            },
            GeneralField::InitialTimeNsec => {
                lemma_dec_text(c.initial_time_nsec as nat);
                assert forall|i: int| 0 <= i < value.len() implies value[i] != '\n' by {
                    lemma_dec_digit_not_sep(value[i]);
                }
                lemma_dec_digit_not_sep(value.last());
            },
            GeneralField::InitialTimeSec => {
                lemma_dec_text(c.initial_time_sec as nat);
                assert forall|i: int| 0 <= i < value.len() implies value[i] != '\n' by {
                    lemma_dec_digit_not_sep(value[i]);
                }
                lemma_dec_digit_not_sep(value.last());
            },
            GeneralField::LengthNsec => {
                lemma_dec_text(c.length_nsec as nat);
                assert forall|i: int| 0 <= i < value.len() implies value[i] != '\n' by {
                    lemma_dec_digit_not_sep(value[i]);
                }
                lemma_dec_digit_not_sep(value.last());
            },
            GeneralField::LengthSec => {
                lemma_dec_text(c.length_sec as nat);
                assert forall|i: int| 0 <= i < value.len() implies value[i] != '\n' by {
                    lemma_dec_digit_not_sep(value[i]);
                }
                lemma_dec_digit_not_sep(value.last());
            },
            GeneralField::LibtasMajorVersion => {
                lemma_dec_text(c.libtas_major_version as nat);
                assert forall|i: int| 0 <= i < value.len() implies value[i] != '\n' by {
                    lemma_dec_digit_not_sep(value[i]);
                }
                lemma_dec_digit_not_sep(value.last());
            },
            GeneralField::LibtasMinorVersion => {
                lemma_dec_text(c.libtas_minor_version as nat);
                assert forall|i: int| 0 <= i < value.len() implies value[i] != '\n' by {
                    lemma_dec_digit_not_sep(value[i]);
                }
                lemma_dec_digit_not_sep(value.last());
            },
            GeneralField::LibtasPatchVersion => {
                lemma_dec_text(c.libtas_patch_version as nat);
                assert forall|i: int| 0 <= i < value.len() implies value[i] != '\n' by {
                    lemma_dec_digit_not_sep(value[i]);
                }
                lemma_dec_digit_not_sep(value.last());
            },
            GeneralField::Md5 => {},
            GeneralField::MouseSupport => {
                reveal_strlit("true");
                reveal_strlit("false");
                assert("true"@.len() == 4 && "false"@.len() == 5);
            },
            GeneralField::NbControllers => {
                lemma_dec_text(c.nb_controllers as nat);
                assert forall|i: int| 0 <= i < value.len() implies value[i] != '\n' by {
                    lemma_dec_digit_not_sep(value[i]);
                }
                lemma_dec_digit_not_sep(value.last());
            },
            GeneralField::RerecordCount => {
                lemma_dec_text(c.rerecord_count as nat);
                assert forall|i: int| 0 <= i < value.len() implies value[i] != '\n' by {
                    lemma_dec_digit_not_sep(value[i]);
                }
                lemma_dec_digit_not_sep(value.last());
            },
            GeneralField::SavestateFrameCount => {
                lemma_dec_text(c.savestate_frame_count as nat);
                assert forall|i: int| 0 <= i < value.len() implies value[i] != '\n' by {
                    lemma_dec_digit_not_sep(value[i]);
                }
                lemma_dec_digit_not_sep(value.last());
            },
            GeneralField::VariableFramerate => {
                reveal_strlit("true");
                reveal_strlit("false");
                assert("true"@.len() == 4 && "false"@.len() == 5);
            },
        }
    }
    assert(no_char(seq!['='], '\n')) by {
        assert('=' as u32 == 61 && '\n' as u32 == 10);
    }
    lemma_no_char_concat(general_key(f), seq!['='], '\n');
    lemma_no_char_concat(general_key(f) + seq!['='], value, '\n');
    let line = general_line(c, f);
    assert(line.last() != '\r') by {
        if value.len() > 0 {
            assert(line.last() == value.last());
        } else {
            assert(line =~= general_key(f) + seq!['=']);
            assert(line.last() == '=');
            assert('=' as u32 == 61 && '\r' as u32 == 13);
        }
    }
}

/// Reading back one canonical line overwrites exactly its field.
proof fn lemma_general_step_enc(a: GeneralConfigV, c: GeneralConfigV, f: GeneralField)
    requires
        general_wf(c),
    ensures
        general_line_step(a, general_line(c, f)) == Ok::<GeneralConfigV, ConfigErrV>(general_set(a, c, f)),
{
    lemma_general_lookup(f);
    let key = general_key(f);
    let value = general_value_text(c, f);
    let line = general_line(c, f);
    let klen = key.len() as int;
    assert(line[klen] == '=');
    assert(forall|j: int| 0 <= j < klen ==> line[j] == key[j]);
    lemma_find_char_unique(line, '=', klen);
    assert(line.subrange(0, klen) =~= key);
    assert(line.subrange(klen + 1, line.len() as int) =~= value);
    assert(general_apply(a, f, value) == Some(general_set(a, c, f))) by {
        match f {
            GeneralField::Authors => {},
            GeneralField::AutoRestart => {
                reveal_strlit("true");
                reveal_strlit("false");
                assert("true"@.len() == 4 && "false"@.len() == 5);
            },
            GeneralField::FrameCount => {
                lemma_parse_dec_text(c.frame_count as nat, u64::MAX as int);
            },
            GeneralField::FramerateDen => {
                lemma_parse_dec_text(c.framerate_den as nat, u64::MAX as int);
            },
            GeneralField::FramerateNum => {
                lemma_parse_dec_text(c.framerate_num as nat, u64::MAX as int);
            },
            GeneralField::GameName => {},
            GeneralField::InitialMonotonicTimeNsec => {
                lemma_parse_dec_text(c.initial_monotonic_time_nsec as nat, u64::MAX as int);
            },
            GeneralField::InitialMonotonicTimeSec => {
                lemma_parse_dec_text(c.initial_monotonic_time_sec as nat, u64::MAX as int);
            },
            GeneralField::InitialTimeNsec => {
                lemma_parse_dec_text(c.initial_time_nsec as nat, u64::MAX as int);
            },
            GeneralField::InitialTimeSec => {
                lemma_parse_dec_text(c.initial_time_sec as nat, u64::MAX as int);
            },
            GeneralField::LengthNsec => {
                lemma_parse_dec_text(c.length_nsec as nat, u64::MAX as int);
            },
            GeneralField::LengthSec => {
                lemma_parse_dec_text(c.length_sec as nat, u64::MAX as int);
            },
            GeneralField::LibtasMajorVersion => {
                lemma_parse_dec_text(c.libtas_major_version as nat, u32::MAX as int);
            },
            GeneralField::LibtasMinorVersion => {
                lemma_parse_dec_text(c.libtas_minor_version as nat, u32::MAX as int);
            },
            GeneralField::LibtasPatchVersion => {
                lemma_parse_dec_text(c.libtas_patch_version as nat, u32::MAX as int);
            },
            GeneralField::Md5 => {},
            GeneralField::MouseSupport => {
                reveal_strlit("true");
                reveal_strlit("false");
                assert("true"@.len() == 4 && "false"@.len() == 5);
            },
            GeneralField::NbControllers => {
                lemma_parse_dec_text(c.nb_controllers as nat, u32::MAX as int);
            },
            GeneralField::RerecordCount => {
                lemma_parse_dec_text(c.rerecord_count as nat, u64::MAX as int);
            },
            GeneralField::SavestateFrameCount => {
                lemma_parse_dec_text(c.savestate_frame_count as nat, u64::MAX as int);
            },
            GeneralField::VariableFramerate => {
                reveal_strlit("true");
                reveal_strlit("false");
                assert("true"@.len() == 4 && "false"@.len() == 5);
            },
        }
    }
}

/// Overwriting `a` with `c`'s values of the listed fields, in order.
pub open spec fn general_overwrite(a: GeneralConfigV, c: GeneralConfigV, fs: Seq<GeneralField>) -> GeneralConfigV
    decreases fs.len(),
{
    if fs.len() == 0 {
        a
    } else {
        general_overwrite(general_set(a, c, fs[0]), c, fs.drop_first())
    }
}

/// Reading back the canonical lines of the listed fields overwrites them.
proof fn lemma_general_fold_enc(a: GeneralConfigV, c: GeneralConfigV, fs: Seq<GeneralField>)
    requires
        general_wf(c),
    ensures
        general_lines_fold(a, fs.map_values(|f: GeneralField| general_line(c, f))) == Ok::<GeneralConfigV, ConfigErrV>(
            general_overwrite(a, c, fs),
        ),
    decreases fs.len(),
{
    let ls = fs.map_values(|f: GeneralField| general_line(c, f));
    if fs.len() > 0 {
        lemma_general_step_enc(a, c, fs[0]);
        lemma_general_fold_enc(general_set(a, c, fs[0]), c, fs.drop_first());
        assert(ls.drop_first() =~= fs.drop_first().map_values(|f: GeneralField| general_line(c, f)));
    }
}

/// Overwriting every schema field of anything with `c`'s values gives `c`.
proof fn lemma_general_overwrite_all(a: GeneralConfigV, c: GeneralConfigV)
    ensures
        general_overwrite(a, c, general_fields()) == c,
{
    reveal_with_fuel(general_overwrite, 23);
}

/// Round trip: decoding the canonical group text gives the value back,
/// for every well-formed value.
pub proof fn lemma_general_round_trip(c: GeneralConfigV)
    requires
        general_wf(c),
    ensures
        general_dec(general_text(c)) == Ok::<GeneralConfigV, ConfigErrV>(c),
{
    reveal_strlit("[General]");
    assert("[General]"@.last() == ']' && ']' as u32 == 93 && '\r' as u32 == 13);
    let lines = general_lines(c);
    assert forall|i: int| 0 <= i < lines.len() implies line_ready(#[trigger] lines[i])
        && lines[i].len() > 0 by {
        if i > 0 {
            assert(lines[i] == general_line(c, general_fields()[i - 1]));
            lemma_general_line_clean(c, general_fields()[i - 1]);
        }
    }
    lemma_text_lines_cat(lines);
    assert(lines[0] == "[General]"@);
    assert(lines.drop_first() =~= general_fields().map_values(|f: GeneralField| general_line(c, f)));
    lemma_general_fold_enc(default_general(), c, general_fields());
    lemma_general_overwrite_all(default_general(), c);
}

/// The canonical group text is newline-terminated lines, each non-empty
/// and newline-free.
pub proof fn lemma_general_lines_clean(c: GeneralConfigV)
    requires
        general_wf(c),
    ensures
        general_lines(c).len() > 0,
        forall|i: int| 0 <= i < general_lines(c).len() ==> no_char(#[trigger] general_lines(c)[i], '\n')
            && general_lines(c)[i].len() > 0,
{
    reveal_strlit("[General]");
    let lines = general_lines(c);
    assert forall|i: int| 0 <= i < lines.len() implies no_char(#[trigger] lines[i], '\n')
        && lines[i].len() > 0 by {
        if i > 0 {
            assert(lines[i] == general_line(c, general_fields()[i - 1]));
            lemma_general_line_clean(c, general_fields()[i - 1]);
        }
    }
}

/// Every value the fold builds from reader-shaped lines is well-formed: a
/// value taken from such a line holds no newline and does not end in `\r`.
proof fn lemma_general_fold_wf(a: GeneralConfigV, lines: Seq<Seq<char>>)
    requires
        general_wf(a),
        forall|i: int| 0 <= i < lines.len() ==> line_ready(#[trigger] lines[i]),
    ensures
        general_lines_fold(a, lines) matches Ok(c) ==> general_wf(c),
    decreases lines.len(),
{
    if lines.len() > 0 {
        let line = lines[0];
        match find_char(line, '=') {
            None => {},
            Some(j) => {
                lemma_find_char(line, '=');
                let value = line.subrange(j + 1, line.len() as int);
                assert(line_ready(value)) by {
                    assert(forall|k: int|
                        0 <= k < value.len() ==> value[k] == line[k + j + 1]);
                    if value.len() > 0 {
                        assert(value.last() == line.last());
                    }
                }
                match general_line_step(a, line) {
                    Ok(c2) => {
                        assert(general_wf(c2));
                        assert(forall|i: int|
                            0 <= i < lines.drop_first().len()
                                ==> #[trigger] lines.drop_first()[i] == lines[i + 1]);
                        lemma_general_fold_wf(c2, lines.drop_first());
                    },
                    Err(_) => {},
                }
            },
        }
    }
}

/// Every successfully decoded group value is well-formed: its free-text
/// fields come from single lines with the trailing carriage returns removed.
pub proof fn lemma_general_dec_wf(s: Seq<char>, c: GeneralConfigV)
    requires
        general_dec(s) == Ok::<GeneralConfigV, ConfigErrV>(c),
    ensures
        general_wf(c),
{
    let raw = raw_lines(s);
    let lines = text_lines(s);
    lemma_split_pieces_free(s, '\n');
    let ps = split_on(s, '\n');
    assert(forall|i: int| 0 <= i < raw.len() ==> raw[i] == ps[i]);
    assert forall|i: int| 0 <= i < lines.len() implies line_ready(#[trigger] lines[i]) by {
        assert(lines[i] == strip_cr(raw[i]));
        lemma_strip_cr_prefix(raw[i]);
        assert(no_char(raw[i], '\n'));
        assert forall|k: int| 0 <= k < lines[i].len() implies lines[i][k] != '\n' by {
            assert(lines[i][k] == raw[i][k]);
        }
    }
    let body = lines.drop_first();
    assert(forall|i: int| 0 <= i < body.len() ==> #[trigger] body[i] == lines[i + 1]);
    assert(forall|i: int| 0 <= i < body.len() ==> line_ready(#[trigger] body[i]));
    lemma_general_fold_wf(default_general(), body);
}

/// The `mainthread_timetrack` group: how many calls of each named time
/// source advance the deterministic timer, `-1` meaning untracked.
#[derive(Clone, Copy, Debug, PartialEq, Eq)]
pub struct TimetrackConfig {
    /// `GetTickCount`
    pub get_tick_count: i64,
    /// `GetTickCount64`
    pub get_tick_count64: i64,
    /// `QueryPerformanceCounter`
    pub query_performance_counter: i64,
    /// `clock`
    pub clock: i64,
    /// `clock_gettime` (monotonic)
    pub clock_gettime_monotonic: i64,
    /// `clock_gettime` (real time)
    pub clock_gettime_real: i64,
    /// `gettimeofday`
    pub gettimeofday: i64,
    /// `SDL_GetPerformanceCounter`
    pub sdl_getperformancecounter: i64,
    /// `SDL_GetTicks`
    pub sdl_getticks: i64,
    /// `time`
    pub time: i64,
}

/// Specification-level image of [`TimetrackConfig`].
pub struct TimetrackConfigV {
    pub get_tick_count: i64,
    pub get_tick_count64: i64,
    pub query_performance_counter: i64,
    pub clock: i64,
    pub clock_gettime_monotonic: i64,
    pub clock_gettime_real: i64,
    pub gettimeofday: i64,
    pub sdl_getperformancecounter: i64,
    pub sdl_getticks: i64,
    pub time: i64,
}

impl View for TimetrackConfig {
    type V = TimetrackConfigV;

    open spec fn view(&self) -> TimetrackConfigV {
        (TimetrackConfigV {
            get_tick_count: self.get_tick_count,
            get_tick_count64: self.get_tick_count64,
            query_performance_counter: self.query_performance_counter,
            clock: self.clock,
            clock_gettime_monotonic: self.clock_gettime_monotonic,
            clock_gettime_real: self.clock_gettime_real,
            gettimeofday: self.gettimeofday,
            sdl_getperformancecounter: self.sdl_getperformancecounter,
            sdl_getticks: self.sdl_getticks,
            time: self.time,
        })
    }
}

/// The all-default value every decode starts from.
pub open spec fn default_timetrack() -> TimetrackConfigV {
    (TimetrackConfigV {
        get_tick_count: 0i64,
        get_tick_count64: 0i64,
        query_performance_counter: 0i64,
        clock: 0i64,
        clock_gettime_monotonic: 0i64,
        clock_gettime_real: 0i64,
        gettimeofday: 0i64,
        sdl_getperformancecounter: 0i64,
        sdl_getticks: 0i64,
        time: 0i64,
    })
}

impl Default for TimetrackConfig {
    fn default() -> (r: TimetrackConfig)
        ensures
            r@ == default_timetrack(),
    {
        TimetrackConfig {
            get_tick_count: 0,
            get_tick_count64: 0,
            query_performance_counter: 0,
            clock: 0,
            clock_gettime_monotonic: 0,
            clock_gettime_real: 0,
            gettimeofday: 0,
            sdl_getperformancecounter: 0,
            sdl_getticks: 0,
            time: 0,
        }
    }
}

/// The schema of [`TimetrackConfig`]: one entry per recognized key.
#[derive(Clone, Copy)]
pub enum TimetrackField {
    GetTickCount,
    GetTickCount64,
    QueryPerformanceCounter,
    Clock,
    ClockGettimeMonotonic,
    ClockGettimeReal,
    Gettimeofday,
    SdlGetperformancecounter,
    SdlGetticks,
    Time,
}

/// The key naming each field on a `key=value` line.
pub open spec fn timetrack_key(f: TimetrackField) -> Seq<char> {
    match f {
        TimetrackField::GetTickCount => "GetTickCount"@,
        TimetrackField::GetTickCount64 => "GetTickCount64"@,
        TimetrackField::QueryPerformanceCounter => "QueryPerformanceCounter"@,
        TimetrackField::Clock => "clock"@,
        TimetrackField::ClockGettimeMonotonic => "clock_gettime_monotonic"@,
        TimetrackField::ClockGettimeReal => "clock_gettime_real"@,
        TimetrackField::Gettimeofday => "gettimeofday"@,
        TimetrackField::SdlGetperformancecounter => "sdl_getperformancecounter"@,
        TimetrackField::SdlGetticks => "sdl_getticks"@,
        TimetrackField::Time => "time"@,
    }
}

/// The schema order, which encode follows.
pub open spec fn timetrack_fields() -> Seq<TimetrackField> {
    seq![
        TimetrackField::GetTickCount,
        TimetrackField::GetTickCount64,
        TimetrackField::QueryPerformanceCounter,
        TimetrackField::Clock,
        TimetrackField::ClockGettimeMonotonic,
        TimetrackField::ClockGettimeReal,
        TimetrackField::Gettimeofday,
        TimetrackField::SdlGetperformancecounter,
        TimetrackField::SdlGetticks,
        TimetrackField::Time,
    ]
}

/// The canonical value text of each field.
pub open spec fn timetrack_value_text(c: TimetrackConfigV, f: TimetrackField) -> Seq<char> {
    match f {
        TimetrackField::GetTickCount => int_text(c.get_tick_count as int),
        TimetrackField::GetTickCount64 => int_text(c.get_tick_count64 as int),
        TimetrackField::QueryPerformanceCounter => int_text(c.query_performance_counter as int),
        TimetrackField::Clock => int_text(c.clock as int),
        TimetrackField::ClockGettimeMonotonic => int_text(c.clock_gettime_monotonic as int),
        TimetrackField::ClockGettimeReal => int_text(c.clock_gettime_real as int),
        TimetrackField::Gettimeofday => int_text(c.gettimeofday as int),
        TimetrackField::SdlGetperformancecounter => int_text(c.sdl_getperformancecounter as int),
        TimetrackField::SdlGetticks => int_text(c.sdl_getticks as int),
        TimetrackField::Time => int_text(c.time as int),
    }
}

/// Reading one value and overwriting its field; `None` when the value
/// does not read as the field's type.
pub open spec fn timetrack_apply(c: TimetrackConfigV, f: TimetrackField, value: Seq<char>) -> Option<TimetrackConfigV> {
    match f {
        TimetrackField::GetTickCount => match parse_i64(value) {
            Some(x) => Some(TimetrackConfigV { get_tick_count: x, ..c }),
            None => None,
        },
        TimetrackField::GetTickCount64 => match parse_i64(value) {
            Some(x) => Some(TimetrackConfigV { get_tick_count64: x, ..c }),
            None => None,
        },
        TimetrackField::QueryPerformanceCounter => match parse_i64(value) {
            Some(x) => Some(TimetrackConfigV { query_performance_counter: x, ..c }),
            None => None,
        },
        TimetrackField::Clock => match parse_i64(value) {
            Some(x) => Some(TimetrackConfigV { clock: x, ..c }),
            None => None,
        },
        TimetrackField::ClockGettimeMonotonic => match parse_i64(value) {
            Some(x) => Some(TimetrackConfigV { clock_gettime_monotonic: x, ..c }),
            None => None,
        },
        TimetrackField::ClockGettimeReal => match parse_i64(value) {
            Some(x) => Some(TimetrackConfigV { clock_gettime_real: x, ..c }),
            None => None,
        },
        TimetrackField::Gettimeofday => match parse_i64(value) {
            Some(x) => Some(TimetrackConfigV { gettimeofday: x, ..c }),
            None => None,
        },
        TimetrackField::SdlGetperformancecounter => match parse_i64(value) {
            Some(x) => Some(TimetrackConfigV { sdl_getperformancecounter: x, ..c }),
            None => None,
        },
        TimetrackField::SdlGetticks => match parse_i64(value) {
            Some(x) => Some(TimetrackConfigV { sdl_getticks: x, ..c }),
            None => None,
        },
        TimetrackField::Time => match parse_i64(value) {
            Some(x) => Some(TimetrackConfigV { time: x, ..c }),
            None => None,
        },
    }
}

/// Overwriting one field of `a` with `c`'s value of it.
pub open spec fn timetrack_set(a: TimetrackConfigV, c: TimetrackConfigV, f: TimetrackField) -> TimetrackConfigV {
    match f {
        TimetrackField::GetTickCount => TimetrackConfigV { get_tick_count: c.get_tick_count, ..a },
        TimetrackField::GetTickCount64 => TimetrackConfigV { get_tick_count64: c.get_tick_count64, ..a },
        TimetrackField::QueryPerformanceCounter => TimetrackConfigV { query_performance_counter: c.query_performance_counter, ..a },
        TimetrackField::Clock => TimetrackConfigV { clock: c.clock, ..a },
        TimetrackField::ClockGettimeMonotonic => TimetrackConfigV { clock_gettime_monotonic: c.clock_gettime_monotonic, ..a },
        TimetrackField::ClockGettimeReal => TimetrackConfigV { clock_gettime_real: c.clock_gettime_real, ..a },
        TimetrackField::Gettimeofday => TimetrackConfigV { gettimeofday: c.gettimeofday, ..a },
        TimetrackField::SdlGetperformancecounter => TimetrackConfigV { sdl_getperformancecounter: c.sdl_getperformancecounter, ..a },
        TimetrackField::SdlGetticks => TimetrackConfigV { sdl_getticks: c.sdl_getticks, ..a },
        TimetrackField::Time => TimetrackConfigV { time: c.time, ..a },
    }
}

/// Key recognition; unknown keys give `None` and their lines are skipped.
pub open spec fn timetrack_lookup(key: Seq<char>) -> Option<TimetrackField> {
    if key == "GetTickCount"@ {
        Some(TimetrackField::GetTickCount)
    } else if key == "GetTickCount64"@ {
        Some(TimetrackField::GetTickCount64)
    } else if key == "QueryPerformanceCounter"@ {
        Some(TimetrackField::QueryPerformanceCounter)
    } else if key == "clock"@ {
        Some(TimetrackField::Clock)
    } else if key == "clock_gettime_monotonic"@ {
        Some(TimetrackField::ClockGettimeMonotonic)
    } else if key == "clock_gettime_real"@ {
        Some(TimetrackField::ClockGettimeReal)
    } else if key == "gettimeofday"@ {
        Some(TimetrackField::Gettimeofday)
    } else if key == "sdl_getperformancecounter"@ {
        Some(TimetrackField::SdlGetperformancecounter)
    } else if key == "sdl_getticks"@ {
        Some(TimetrackField::SdlGetticks)
    } else if key == "time"@ {
        Some(TimetrackField::Time)
    } else {
        None
    }
}

/// Reading one body line: split at the first `=`, recognize the key, read
/// the value; a line without `=` is a hard error, an unknown key a skip.
pub open spec fn timetrack_line_step(c: TimetrackConfigV, line: Seq<char>) -> Result<TimetrackConfigV, ConfigErrV> {
    match find_char(line, '=') {
        None => Err(ConfigErrV::MalformedLine(line)),
        Some(j) => {
            let key = line.subrange(0, j);
            let value = line.subrange(j + 1, line.len() as int);
            match timetrack_lookup(key) {
                None => Ok(c),
                Some(f) => match timetrack_apply(c, f, value) {
                    Some(c2) => Ok(c2),
                    None => Err(ConfigErrV::FieldParseError(key)),
                },
            }
        },
    }
}

pub open spec fn timetrack_lines_fold(c: TimetrackConfigV, lines: Seq<Seq<char>>) -> Result<TimetrackConfigV, ConfigErrV>
    decreases lines.len(),
{
    if lines.len() == 0 {
        Ok(c)
    } else {
        match timetrack_line_step(c, lines[0]) {
            Ok(c2) => timetrack_lines_fold(c2, lines.drop_first()),
            Err(e) => Err(e),
        }
    }
}

/// Reading a whole group text: the marker line, then one `key=value` per
/// line over the default value.
pub open spec fn timetrack_dec(s: Seq<char>) -> Result<TimetrackConfigV, ConfigErrV> {
    let lines = text_lines(s);
    if lines.len() == 0 || lines[0] != "[mainthread_timetrack]"@ {
        Err(ConfigErrV::GroupMarkerMismatch("[mainthread_timetrack]"@))
    } else {
        timetrack_lines_fold(default_timetrack(), lines.drop_first())
    }
}

/// One canonical `key=value` line.
pub open spec fn timetrack_line(c: TimetrackConfigV, f: TimetrackField) -> Seq<char> {
    timetrack_key(f) + seq!['='] + timetrack_value_text(c, f)
}

/// The canonical lines: the marker, then each field in schema order.
pub open spec fn timetrack_lines(c: TimetrackConfigV) -> Seq<Seq<char>> {
    seq!["[mainthread_timetrack]"@] + timetrack_fields().map_values(|f: TimetrackField| timetrack_line(c, f))
}

/// The canonical group text, every line newline-terminated.
pub open spec fn timetrack_text(c: TimetrackConfigV) -> Seq<char> {
    cat_lines(timetrack_lines(c))
}

impl TimetrackConfig {
    /// Decodes a `[mainthread_timetrack]` group text.
    pub fn decode(s: &str) -> (r: Result<TimetrackConfig, InvalidConfigError>)
        ensures
            models(r, timetrack_dec(s@)),
    {
        let v = str_to_chars(s);
        Self::decode_chars(v.as_slice())
    }

    pub(crate) fn decode_chars(v: &[char]) -> (r: Result<TimetrackConfig, InvalidConfigError>)
        ensures
            models(r, timetrack_dec(v@)),
    {
        let lines = text_lines_chars(v);
        let ghost ls = text_lines(v@);
        let m = lines.len();
        if m == 0 {
            return Err(InvalidConfigError::GroupMarkerMismatch(String::from_str("[mainthread_timetrack]")));
        }
        if !chars_eq_str(lines[0].as_slice(), "[mainthread_timetrack]") {
            proof {
                assert(lines@[0]@ == ls[0]);
            }
            return Err(InvalidConfigError::GroupMarkerMismatch(String::from_str("[mainthread_timetrack]")));
        }
        proof {
            assert(lines@[0]@ == ls[0]);
            assert(ls[0] == "[mainthread_timetrack]"@);
        }
        let mut cur = TimetrackConfig::default();
        let ghost body = ls.drop_first();
        let mut i: usize = 1;
        proof {
            assert(body.subrange(0, body.len() as int) =~= body);
        }
        while i < m
            invariant
                m == ls.len(),
                ls == text_lines(v@),
                lines.deep_view() =~~= ls,
                body == ls.drop_first(),
                1 <= i <= m,
                ls[0] == "[mainthread_timetrack]"@,
                timetrack_dec(v@) == timetrack_lines_fold(cur@, body.subrange(i - 1, body.len() as int)),
            decreases m - i,
        {
            let ghost suffix = body.subrange(i - 1, body.len() as int);
            proof {
                assert(suffix.len() > 0);
                assert(suffix[0] == body[i - 1]);
                assert(body[i - 1] == ls[i as int]);
                assert(lines@[i as int]@ == ls[i as int]);
                assert(suffix.drop_first() =~= body.subrange(i as int, body.len() as int));
            }
            match Self::apply_line(&mut cur, lines[i].as_slice()) {
                Ok(()) => {},
                Err(e) => {
                    return Err(e);
                },
            }
            i = i + 1;
        }
        proof {
            assert(body.subrange(m - 1, body.len() as int) =~= Seq::<Seq<char>>::empty());
        }
        Ok(cur)
    }

    /// Applies one body line to the value being built.
    fn apply_line(c: &mut TimetrackConfig, line: &[char]) -> (r: Result<(), InvalidConfigError>)
        ensures
            match r {
                Ok(_) => timetrack_line_step(old(c)@, line@) == Ok::<TimetrackConfigV, ConfigErrV>(final(c)@),
                Err(e) => timetrack_line_step(old(c)@, line@) == Err::<TimetrackConfigV, ConfigErrV>(e@)
                    && *final(c) == *old(c),
            },
    {
        let n = line.len();
        let j = match find_char_at(line, '=') {
            None => {
                return Err(InvalidConfigError::MalformedLine(chars_to_string(line)));
            },
            Some(j) => j,
        };
        proof {
            lemma_find_char(line@, '=');
        }
        let key = vstd::slice::slice_subrange(line, 0, j);
        let value = vstd::slice::slice_subrange(line, j + 1, n);
        assert(key@ =~= line@.subrange(0, j as int));
        assert(value@ =~= line@.subrange(j + 1 as int, line@.len() as int));
        if chars_eq_str(key, "GetTickCount") {
            match parse_i64_chars(value) {
                Some(x) => {
                    c.get_tick_count = x;
                    Ok(())
                },
                None => Err(InvalidConfigError::FieldParseError(chars_to_string(key))),
            }
        } else if chars_eq_str(key, "GetTickCount64") {
            match parse_i64_chars(value) {
                Some(x) => {
                    c.get_tick_count64 = x;
                    Ok(())
                },
                None => Err(InvalidConfigError::FieldParseError(chars_to_string(key))),
            }
        } else if chars_eq_str(key, "QueryPerformanceCounter") {
            match parse_i64_chars(value) {
                Some(x) => {
                    c.query_performance_counter = x;
                    Ok(())
                },
                None => Err(InvalidConfigError::FieldParseError(chars_to_string(key))),
            }
        } else if chars_eq_str(key, "clock") {
            match parse_i64_chars(value) {
                Some(x) => {
                    c.clock = x;
                    Ok(())
                },
                None => Err(InvalidConfigError::FieldParseError(chars_to_string(key))),
            }
        } else if chars_eq_str(key, "clock_gettime_monotonic") {
            match parse_i64_chars(value) {
                Some(x) => {
                    c.clock_gettime_monotonic = x;
                    Ok(())
                },
                None => Err(InvalidConfigError::FieldParseError(chars_to_string(key))),
            }
        } else if chars_eq_str(key, "clock_gettime_real") {
            match parse_i64_chars(value) {
                Some(x) => {
                    c.clock_gettime_real = x;
                    Ok(())
                },
                None => Err(InvalidConfigError::FieldParseError(chars_to_string(key))),
            }
        } else if chars_eq_str(key, "gettimeofday") {
            match parse_i64_chars(value) {
                Some(x) => {
                    c.gettimeofday = x;
                    Ok(())
                },
                None => Err(InvalidConfigError::FieldParseError(chars_to_string(key))),
            }
        } else if chars_eq_str(key, "sdl_getperformancecounter") {
            match parse_i64_chars(value) {
                Some(x) => {
                    c.sdl_getperformancecounter = x;
                    Ok(())
                },
                None => Err(InvalidConfigError::FieldParseError(chars_to_string(key))),
            }
        } else if chars_eq_str(key, "sdl_getticks") {
            match parse_i64_chars(value) {
                Some(x) => {
                    c.sdl_getticks = x;
                    Ok(())
                },
                None => Err(InvalidConfigError::FieldParseError(chars_to_string(key))),
            }
        } else if chars_eq_str(key, "time") {
            match parse_i64_chars(value) {
                Some(x) => {
                    c.time = x;
                    Ok(())
                },
                None => Err(InvalidConfigError::FieldParseError(chars_to_string(key))),
            }
        } else {
            Ok(())
        }
    }

    /// Encodes the group canonically: the marker line, then every schema
    /// field in order as a `key=value` line, each newline-terminated.
    pub fn encode(&self) -> (r: String)
        ensures
            r@ == timetrack_text(self@),
    {
        let mut out: Vec<char> = Vec::new();
        self.push_text(&mut out);
        assert(out@ =~= timetrack_text(self@));
        chars_to_string(out.as_slice())
    }

    /// Appends the canonical group text.
    pub(crate) fn push_text(&self, out: &mut Vec<char>)
        ensures
            final(out)@ == old(out)@ + timetrack_text(self@),
    {
        let ghost base = out@;
        push_str_chars(out, "[mainthread_timetrack]");
        out.push('\n');
        proof {
            lemma_cat_lines_snoc(Seq::<Seq<char>>::empty(), "[mainthread_timetrack]"@);
            assert(cat_lines(Seq::<Seq<char>>::empty()) == Seq::<char>::empty());
            assert(Seq::<Seq<char>>::empty().push("[mainthread_timetrack]"@) =~= seq!["[mainthread_timetrack]"@]);
            assert(out@ =~= base + cat_lines(seq!["[mainthread_timetrack]"@]));
        }
        let mut i: usize = 0;
        let n: usize = 10;
        proof {
            assert(timetrack_fields().subrange(0, 0) =~= Seq::<TimetrackField>::empty());
            assert(Seq::<TimetrackField>::empty().map_values(|f: TimetrackField| timetrack_line(self@, f)) =~= Seq::<Seq<char>>::empty());
            assert(seq!["[mainthread_timetrack]"@] + Seq::<Seq<char>>::empty() =~= seq!["[mainthread_timetrack]"@]);
        }
        while i < n
            invariant
                n == timetrack_fields().len(),
                i <= n,
                out@ == base + cat_lines(seq!["[mainthread_timetrack]"@] + timetrack_fields().subrange(0, i as int).map_values(|f: TimetrackField| timetrack_line(self@, f))),
            decreases n - i,
        {
            let ghost done = seq!["[mainthread_timetrack]"@] + timetrack_fields().subrange(0, i as int).map_values(|f: TimetrackField| timetrack_line(self@, f));
            self.push_line(i, out);
            proof {
                lemma_cat_lines_snoc(done, timetrack_line(self@, timetrack_fields()[i as int]));
                assert(seq!["[mainthread_timetrack]"@] + timetrack_fields().subrange(0, i + 1 as int).map_values(|f: TimetrackField| timetrack_line(self@, f)) =~= done.push(timetrack_line(self@, timetrack_fields()[i as int])));
            }
            i = i + 1;
        }
        proof {
            assert(timetrack_fields().subrange(0, n as int) =~= timetrack_fields());
        }
    }

    /// Appends the canonical newline-terminated line of schema entry `i`.
    fn push_line(&self, i: usize, out: &mut Vec<char>)
        requires
            i < timetrack_fields().len(),
        ensures
            final(out)@ == old(out)@ + timetrack_line(self@, timetrack_fields()[i as int]) + seq!['\n'],
    {
        let ghost base = out@;
        if i == 0 {
            push_str_chars(out, "GetTickCount");
            out.push('=');
            crate::num::push_dec_i64(out, self.get_tick_count);
            out.push('\n');
            proof {
                assert(timetrack_fields()[i as int] == TimetrackField::GetTickCount);
                assert(out@ =~= base + timetrack_line(self@, TimetrackField::GetTickCount) + seq!['\n']);
            }
        } else if i == 1 {
            push_str_chars(out, "GetTickCount64");
            out.push('=');
            crate::num::push_dec_i64(out, self.get_tick_count64);
            out.push('\n');
            proof {
                assert(timetrack_fields()[i as int] == TimetrackField::GetTickCount64);
                assert(out@ =~= base + timetrack_line(self@, TimetrackField::GetTickCount64) + seq!['\n']);
            }
        } else if i == 2 {
            push_str_chars(out, "QueryPerformanceCounter");
            out.push('=');
            crate::num::push_dec_i64(out, self.query_performance_counter);
            out.push('\n');
            proof {
                assert(timetrack_fields()[i as int] == TimetrackField::QueryPerformanceCounter);
                assert(out@ =~= base + timetrack_line(self@, TimetrackField::QueryPerformanceCounter) + seq!['\n']);
            }
        } else if i == 3 {
            push_str_chars(out, "clock");
            out.push('=');
            crate::num::push_dec_i64(out, self.clock);
            out.push('\n');
            proof {
                assert(timetrack_fields()[i as int] == TimetrackField::Clock);
                assert(out@ =~= base + timetrack_line(self@, TimetrackField::Clock) + seq!['\n']);
            }
        } else if i == 4 {
            push_str_chars(out, "clock_gettime_monotonic");
            out.push('=');
            crate::num::push_dec_i64(out, self.clock_gettime_monotonic);
            out.push('\n');
            proof {
                assert(timetrack_fields()[i as int] == TimetrackField::ClockGettimeMonotonic);
                assert(out@ =~= base + timetrack_line(self@, TimetrackField::ClockGettimeMonotonic) + seq!['\n']);
            }
        } else if i == 5 {
            push_str_chars(out, "clock_gettime_real");
            out.push('=');
            crate::num::push_dec_i64(out, self.clock_gettime_real);
            out.push('\n');
            proof {
                assert(timetrack_fields()[i as int] == TimetrackField::ClockGettimeReal);
                assert(out@ =~= base + timetrack_line(self@, TimetrackField::ClockGettimeReal) + seq!['\n']);
            }
        } else if i == 6 {
            push_str_chars(out, "gettimeofday");
            out.push('=');
            crate::num::push_dec_i64(out, self.gettimeofday);
            out.push('\n');
            proof {
                assert(timetrack_fields()[i as int] == TimetrackField::Gettimeofday);
                assert(out@ =~= base + timetrack_line(self@, TimetrackField::Gettimeofday) + seq!['\n']);
            }
        } else if i == 7 {
            push_str_chars(out, "sdl_getperformancecounter");
            out.push('=');
            crate::num::push_dec_i64(out, self.sdl_getperformancecounter);
            out.push('\n');
            proof {
                assert(timetrack_fields()[i as int] == TimetrackField::SdlGetperformancecounter);
                assert(out@ =~= base + timetrack_line(self@, TimetrackField::SdlGetperformancecounter) + seq!['\n']);
            }
        } else if i == 8 {
            push_str_chars(out, "sdl_getticks");
            out.push('=');
            crate::num::push_dec_i64(out, self.sdl_getticks);
            out.push('\n');
            proof {
                assert(timetrack_fields()[i as int] == TimetrackField::SdlGetticks);
                assert(out@ =~= base + timetrack_line(self@, TimetrackField::SdlGetticks) + seq!['\n']);
            }
        } else if i == 9 {
            push_str_chars(out, "time");
            out.push('=');
            crate::num::push_dec_i64(out, self.time);
            out.push('\n');
            proof {
                assert(timetrack_fields()[i as int] == TimetrackField::Time);
                assert(out@ =~= base + timetrack_line(self@, TimetrackField::Time) + seq!['\n']);
            }
        } else {
            proof {
                assert(false);
            }
        }
    }
}

/// Every schema key names its own field and no other.
pub proof fn lemma_timetrack_lookup(f: TimetrackField)
    ensures
        timetrack_lookup(timetrack_key(f)) == Some(f),
        timetrack_key(f).len() > 0,
        no_char(timetrack_key(f), '='),
        no_char(timetrack_key(f), '\n'),
{
    reveal_strlit("GetTickCount");
    reveal_strlit("GetTickCount64");
    reveal_strlit("QueryPerformanceCounter");
    reveal_strlit("clock");
    reveal_strlit("clock_gettime_monotonic");
    reveal_strlit("clock_gettime_real");
    reveal_strlit("gettimeofday");
    reveal_strlit("sdl_getperformancecounter");
    reveal_strlit("sdl_getticks");
    reveal_strlit("time");
    assert("GetTickCount"@.len() == 12);
    assert("GetTickCount64"@.len() == 14);
    assert("QueryPerformanceCounter"@.len() == 23);
    assert("clock"@.len() == 5);
    assert("clock_gettime_monotonic"@.len() == 23);
    assert("clock_gettime_real"@.len() == 18);
    assert("gettimeofday"@.len() == 12);
    assert("sdl_getperformancecounter"@.len() == 25);
    assert("sdl_getticks"@.len() == 12);
    assert("time"@.len() == 4);
    assert("GetTickCount"@[0] == 'G');
    assert("QueryPerformanceCounter"@[0] == 'Q');
    assert("clock_gettime_monotonic"@[0] == 'c');
    assert("gettimeofday"@[0] == 'g');
    assert("sdl_getticks"@[0] == 's');
    match f {
        TimetrackField::GetTickCount => {
            assert(timetrack_lookup("GetTickCount"@) == Some(TimetrackField::GetTickCount));
        },
        TimetrackField::GetTickCount64 => {
            assert(timetrack_lookup("GetTickCount64"@) == Some(TimetrackField::GetTickCount64));
        },
        TimetrackField::QueryPerformanceCounter => {
            assert(timetrack_lookup("QueryPerformanceCounter"@) == Some(TimetrackField::QueryPerformanceCounter));
        },
        TimetrackField::Clock => {
            assert(timetrack_lookup("clock"@) == Some(TimetrackField::Clock));
        },
        TimetrackField::ClockGettimeMonotonic => {
            assert(timetrack_lookup("clock_gettime_monotonic"@) == Some(TimetrackField::ClockGettimeMonotonic));
        },
        TimetrackField::ClockGettimeReal => {
            assert(timetrack_lookup("clock_gettime_real"@) == Some(TimetrackField::ClockGettimeReal));
        },
        TimetrackField::Gettimeofday => {
            assert(timetrack_lookup("gettimeofday"@) == Some(TimetrackField::Gettimeofday));
        },
        TimetrackField::SdlGetperformancecounter => {
            assert(timetrack_lookup("sdl_getperformancecounter"@) == Some(TimetrackField::SdlGetperformancecounter));
        },
        TimetrackField::SdlGetticks => {
            assert(timetrack_lookup("sdl_getticks"@) == Some(TimetrackField::SdlGetticks));
        },
        TimetrackField::Time => {
            assert(timetrack_lookup("time"@) == Some(TimetrackField::Time));
        },
    }
}

/// Every canonical line is non-empty, newline-free and does not end in a
/// carriage return, so the line reader passes it through unchanged.
proof fn lemma_timetrack_line_clean(c: TimetrackConfigV, f: TimetrackField)
    ensures
        timetrack_line(c, f).len() > 0,
        line_ready(timetrack_line(c, f)),
{
    lemma_timetrack_lookup(f);
    let value = timetrack_value_text(c, f);
    assert(line_ready(value)) by {
        match f {
            TimetrackField::GetTickCount => {
                lemma_int_text_clean(c.get_tick_count as int);
            },
            TimetrackField::GetTickCount64 => {
                lemma_int_text_clean(c.get_tick_count64 as int);
            },
            TimetrackField::QueryPerformanceCounter => {
                lemma_int_text_clean(c.query_performance_counter as int);
            },
            TimetrackField::Clock => {
                lemma_int_text_clean(c.clock as int);
            },
            TimetrackField::ClockGettimeMonotonic => {
                lemma_int_text_clean(c.clock_gettime_monotonic as int);
            },
            TimetrackField::ClockGettimeReal => {
                lemma_int_text_clean(c.clock_gettime_real as int);
            },
            TimetrackField::Gettimeofday => {
                lemma_int_text_clean(c.gettimeofday as int);
            },
            TimetrackField::SdlGetperformancecounter => {
                lemma_int_text_clean(c.sdl_getperformancecounter as int);
            },
            TimetrackField::SdlGetticks => {
                lemma_int_text_clean(c.sdl_getticks as int);
            },
            TimetrackField::Time => {
                lemma_int_text_clean(c.time as int);
            },
        }
    }
    assert(no_char(seq!['='], '\n')) by {
        assert('=' as u32 == 61 && '\n' as u32 == 10);
    }
    lemma_no_char_concat(timetrack_key(f), seq!['='], '\n');
    lemma_no_char_concat(timetrack_key(f) + seq!['='], value, '\n');
    let line = timetrack_line(c, f);
    assert(line.last() != '\r') by {
        if value.len() > 0 {
            assert(line.last() == value.last());
        } else {
            assert(line =~= timetrack_key(f) + seq!['=']);
            assert(line.last() == '=');
            assert('=' as u32 == 61 && '\r' as u32 == 13);
        }
    }
}

/// Reading back one canonical line overwrites exactly its field.
proof fn lemma_timetrack_step_enc(a: TimetrackConfigV, c: TimetrackConfigV, f: TimetrackField)
    ensures
        timetrack_line_step(a, timetrack_line(c, f)) == Ok::<TimetrackConfigV, ConfigErrV>(timetrack_set(a, c, f)),
{
    lemma_timetrack_lookup(f);
    let key = timetrack_key(f);
    let value = timetrack_value_text(c, f);
    let line = timetrack_line(c, f);
    let klen = key.len() as int;
    assert(line[klen] == '=');
    assert(forall|j: int| 0 <= j < klen ==> line[j] == key[j]);
    lemma_find_char_unique(line, '=', klen);
    assert(line.subrange(0, klen) =~= key);
    assert(line.subrange(klen + 1, line.len() as int) =~= value);
    assert(timetrack_apply(a, f, value) == Some(timetrack_set(a, c, f))) by {
        match f {
            TimetrackField::GetTickCount => {
                lemma_parse_int_text(c.get_tick_count as int, i64::MIN as int, i64::MAX as int);
            },
            TimetrackField::GetTickCount64 => {
                lemma_parse_int_text(c.get_tick_count64 as int, i64::MIN as int, i64::MAX as int);
            },
            TimetrackField::QueryPerformanceCounter => {
                lemma_parse_int_text(c.query_performance_counter as int, i64::MIN as int, i64::MAX as int);
            },
            TimetrackField::Clock => {
                lemma_parse_int_text(c.clock as int, i64::MIN as int, i64::MAX as int);
            },
            TimetrackField::ClockGettimeMonotonic => {
                lemma_parse_int_text(c.clock_gettime_monotonic as int, i64::MIN as int, i64::MAX as int);
            },
            TimetrackField::ClockGettimeReal => {
                lemma_parse_int_text(c.clock_gettime_real as int, i64::MIN as int, i64::MAX as int);
            },
            TimetrackField::Gettimeofday => {
                lemma_parse_int_text(c.gettimeofday as int, i64::MIN as int, i64::MAX as int);
            },
            TimetrackField::SdlGetperformancecounter => {
                lemma_parse_int_text(c.sdl_getperformancecounter as int, i64::MIN as int, i64::MAX as int);
            },
            TimetrackField::SdlGetticks => {
                lemma_parse_int_text(c.sdl_getticks as int, i64::MIN as int, i64::MAX as int);
            },
            TimetrackField::Time => {
                lemma_parse_int_text(c.time as int, i64::MIN as int, i64::MAX as int);
            },
        }
    }
}

/// Overwriting `a` with `c`'s values of the listed fields, in order.
pub open spec fn timetrack_overwrite(a: TimetrackConfigV, c: TimetrackConfigV, fs: Seq<TimetrackField>) -> TimetrackConfigV
    decreases fs.len(),
{
    if fs.len() == 0 {
        a
    } else {
        timetrack_overwrite(timetrack_set(a, c, fs[0]), c, fs.drop_first())
    }
}

/// Reading back the canonical lines of the listed fields overwrites them.
proof fn lemma_timetrack_fold_enc(a: TimetrackConfigV, c: TimetrackConfigV, fs: Seq<TimetrackField>)
    ensures
        timetrack_lines_fold(a, fs.map_values(|f: TimetrackField| timetrack_line(c, f))) == Ok::<TimetrackConfigV, ConfigErrV>(
            timetrack_overwrite(a, c, fs),
        ),
    decreases fs.len(),
{
    let ls = fs.map_values(|f: TimetrackField| timetrack_line(c, f));
    if fs.len() > 0 {
        lemma_timetrack_step_enc(a, c, fs[0]);
        lemma_timetrack_fold_enc(timetrack_set(a, c, fs[0]), c, fs.drop_first());
        assert(ls.drop_first() =~= fs.drop_first().map_values(|f: TimetrackField| timetrack_line(c, f)));
    }
}

/// Overwriting every schema field of anything with `c`'s values gives `c`.
proof fn lemma_timetrack_overwrite_all(a: TimetrackConfigV, c: TimetrackConfigV)
    ensures
        timetrack_overwrite(a, c, timetrack_fields()) == c,
{
    reveal_with_fuel(timetrack_overwrite, 12);
}

/// Round trip: decoding the canonical group text gives the value back.
pub proof fn lemma_timetrack_round_trip(c: TimetrackConfigV)
    ensures
        timetrack_dec(timetrack_text(c)) == Ok::<TimetrackConfigV, ConfigErrV>(c),
{
    reveal_strlit("[mainthread_timetrack]");
    assert("[mainthread_timetrack]"@.last() == ']' && ']' as u32 == 93 && '\r' as u32 == 13);
    let lines = timetrack_lines(c);
    assert forall|i: int| 0 <= i < lines.len() implies line_ready(#[trigger] lines[i])
        && lines[i].len() > 0 by {
        if i > 0 {
            assert(lines[i] == timetrack_line(c, timetrack_fields()[i - 1]));
            lemma_timetrack_line_clean(c, timetrack_fields()[i - 1]);
        }
    }
    lemma_text_lines_cat(lines);
    assert(lines[0] == "[mainthread_timetrack]"@);
    assert(lines.drop_first() =~= timetrack_fields().map_values(|f: TimetrackField| timetrack_line(c, f)));
    lemma_timetrack_fold_enc(default_timetrack(), c, timetrack_fields());
    lemma_timetrack_overwrite_all(default_timetrack(), c);
}

/// The canonical group text is newline-terminated lines, each non-empty
/// and newline-free.
pub proof fn lemma_timetrack_lines_clean(c: TimetrackConfigV)
    ensures
        timetrack_lines(c).len() > 0,
        forall|i: int| 0 <= i < timetrack_lines(c).len() ==> no_char(#[trigger] timetrack_lines(c)[i], '\n')
            && timetrack_lines(c)[i].len() > 0,
{
    reveal_strlit("[mainthread_timetrack]");
    let lines = timetrack_lines(c);
    assert forall|i: int| 0 <= i < lines.len() implies no_char(#[trigger] lines[i], '\n')
        && lines[i].len() > 0 by {
        if i > 0 {
            assert(lines[i] == timetrack_line(c, timetrack_fields()[i - 1]));
            lemma_timetrack_line_clean(c, timetrack_fields()[i - 1]);
        }
    }
}


// ---------------------------------------------------------------------------
// The whole configuration: the two groups in fixed order
// ---------------------------------------------------------------------------
/// The session configuration: the `[General]` group, a blank line, then the
/// `[mainthread_timetrack]` group.
#[derive(Clone, Debug, PartialEq, Eq)]
pub struct Config {
    pub general: GeneralConfig,
    pub mainthread_timetrack: TimetrackConfig,
}

/// Specification-level image of [`Config`].
pub struct ConfigV {
    pub general: GeneralConfigV,
    pub mainthread_timetrack: TimetrackConfigV,
}

impl View for Config {
    type V = ConfigV;

    open spec fn view(&self) -> ConfigV {
        (ConfigV { general: self.general@, mainthread_timetrack: self.mainthread_timetrack@ })
    }
}

/// The all-default configuration every container decode starts from.
pub open spec fn default_config() -> ConfigV {
    (ConfigV { general: default_general(), mainthread_timetrack: default_timetrack() })
}

impl Default for Config {
    fn default() -> (r: Config)
        ensures
            r@ == default_config(),
    {
        Config {
            general: GeneralConfig::default(),
            mainthread_timetrack: TimetrackConfig::default(),
        }
    }
}

/// Well-formed for canonical encoding.
pub open spec fn config_wf(c: ConfigV) -> bool {
    general_wf(c.general)
}

/// Reading of a whole configuration: split at the first blank line, then each
/// half through its group decoder, metadata first.
pub open spec fn config_dec(s: Seq<char>) -> Result<ConfigV, ConfigErrV> {
    match find_nlnl(s) {
        None => Err(ConfigErrV::MissingSeparator),
        Some(j) => match general_dec(s.subrange(0, j + 1)) {
            Err(e) => Err(e),
            Ok(g) => match timetrack_dec(s.subrange(j + 2, s.len() as int)) {
                Err(e) => Err(e),
                Ok(t) => Ok(ConfigV { general: g, mainthread_timetrack: t }),
            },
        },
    }
}

/// The canonical configuration text.
pub open spec fn config_text(c: ConfigV) -> Seq<char> {
    general_text(c.general) + seq!['\n'] + timetrack_text(c.mainthread_timetrack)
}

impl Config {
    /// Decodes a whole `config.ini` text.
    pub fn decode(s: &str) -> (r: Result<Config, InvalidConfigError>)
        ensures
            models(r, config_dec(s@)),
    {
        let v = str_to_chars(s);
        Self::decode_chars(v.as_slice())
    }

    pub(crate) fn decode_chars(v: &[char]) -> (r: Result<Config, InvalidConfigError>)
        ensures
            models(r, config_dec(v@)),
    {
        let n = v.len();
        let j = match find_nlnl_at(v) {
            None => {
                return Err(InvalidConfigError::MissingSeparator);
            },
            Some(j) => j,
        };
        proof {
            crate::text::lemma_find_nlnl(v@);
        }
        let left = vstd::slice::slice_subrange(v, 0, j + 1);
        let right = vstd::slice::slice_subrange(v, j + 2, n);
        assert(left@ =~= v@.subrange(0, j + 1));
        assert(right@ =~= v@.subrange(j + 2, v@.len() as int));
        let general = match GeneralConfig::decode_chars(left) {
            Ok(g) => g,
            Err(e) => {
                return Err(e);
            },
        };
        let mainthread_timetrack = match TimetrackConfig::decode_chars(right) {
            Ok(t) => t,
            Err(e) => {
                return Err(e);
            },
        };
        Ok(Config { general, mainthread_timetrack })
    }

    /// Encodes the configuration canonically: metadata group, blank line,
    /// timer-tuning group.
    pub fn encode(&self) -> (r: String)
        ensures
            r@ == config_text(self@),
    {
        let mut out: Vec<char> = Vec::new();
        self.general.push_text(&mut out);
        out.push('\n');
        let ghost mid = out@;
        self.mainthread_timetrack.push_text(&mut out);
        proof {
            assert(out@ =~= config_text(self@));
        }
        chars_to_string(out.as_slice())
    }
}

// ---------------------------------------------------------------------------
// Configuration round trip
// ---------------------------------------------------------------------------
/// Round trip: decoding the canonical configuration text gives the value back,
/// for every well-formed value.
pub proof fn lemma_config_round_trip(c: ConfigV)
    requires
        config_wf(c),
    ensures
        config_dec(config_text(c)) == Ok::<ConfigV, ConfigErrV>(c),
{
    let g = general_text(c.general);
    let t = timetrack_text(c.mainthread_timetrack);
    let w = config_text(c);
    lemma_general_lines_clean(c.general);
    lemma_find_nlnl_cat(general_lines(c.general), t);
    assert(find_nlnl(w) == Some(g.len() - 1));
    assert(w.subrange(0, g.len() as int) =~= g);
    assert(w.subrange(g.len() as int + 1, w.len() as int) =~= t);
    lemma_general_round_trip(c.general);
    lemma_timetrack_round_trip(c.mainthread_timetrack);
}

/// Every successfully decoded configuration is well-formed.
pub proof fn lemma_config_dec_wf(s: Seq<char>, c: ConfigV)
    requires
        config_dec(s) == Ok::<ConfigV, ConfigErrV>(c),
    ensures
        config_wf(c),
{
    lemma_find_nlnl(s);
    if let Some(j) = find_nlnl(s) {
        lemma_general_dec_wf(s.subrange(0, j + 1), c.general);
    }
}


} // verus!
