//! The capture container: a gzip-compressed tar archive of exactly four named
//! text members. Decoding maps each member through its codec into a
//! [`LibTASMovie`] and rejects unknown or missing members; encoding always
//! emits the four members' canonical texts in fixed order. The gzip and tar
//! work itself is delegated to outside collaborators behind trusted wrappers;
//! everything the wrappers return or consume is plain text, and the member
//! bookkeeping around them is verified.

use crate::config::{
    config_dec, config_text, config_wf, default_config, lemma_config_dec_wf,
    lemma_config_round_trip, Config, ConfigErrV, InvalidConfigError,
};
use crate::inputs::{
    inputs_dec, inputs_text, lemma_inputs_round_trip, InputV, Inputs, InputsErrV,
    InvalidInputsError,
};
use crate::models;
use crate::text::str_eq_lit;
use vstd::prelude::*;

verus! {

/// An error while loading a capture container.
#[derive(Debug)]
pub enum LoadError {
    /// The bytes are not a readable gzip-compressed tar archive of text
    /// members.
    ArchiveCorrupt,
    /// A member with a name outside the fixed set, carried here.
    ExtraEntry(String),
    /// Required members are missing; their names, in canonical member order.
    IncompleteCapture(Vec<String>),
    /// The configuration member does not decode.
    InvalidConfig(InvalidConfigError),
    /// The inputs member does not decode.
    InvalidInputs(InvalidInputsError),
}

/// Specification-level image of [`LoadError`].
pub enum LoadErrV {
    ArchiveCorrupt,
    ExtraEntry(Seq<char>),
    IncompleteCapture(Seq<Seq<char>>),
    InvalidConfig(ConfigErrV),
    InvalidInputs(InputsErrV),
}

impl View for LoadError {
    type V = LoadErrV;

    open spec fn view(&self) -> LoadErrV {
        match self {
            LoadError::ArchiveCorrupt => LoadErrV::ArchiveCorrupt,
            LoadError::ExtraEntry(s) => LoadErrV::ExtraEntry(s@),
            LoadError::IncompleteCapture(v) => LoadErrV::IncompleteCapture(v.deep_view()),
            LoadError::InvalidConfig(e) => LoadErrV::InvalidConfig(e@),
            LoadError::InvalidInputs(e) => LoadErrV::InvalidInputs(e@),
        }
    }
}

/// An error while writing a capture container through the archive collaborator.
#[derive(Clone, Copy, Debug, PartialEq, Eq, Structural)]
pub struct ArchiveWriteError;

/// A libTAS movie: the in-memory form of one capture container.
#[derive(Clone, Debug, PartialEq, Eq)]
pub struct LibTASMovie {
    /// Configuration corresponding to the `config.ini` member.
    pub config: Config,
    /// Movie inputs corresponding to the `inputs` member.
    pub inputs: Inputs,
    /// Free-form annotations, the `annotations.txt` member verbatim.
    pub annotations: String,
    /// Editor state, the `editor.ini` member verbatim.
    pub editor: String,
}

/// Specification-level image of [`LibTASMovie`].
pub struct MovieV {
    pub config: crate::config::ConfigV,
    pub inputs: Seq<InputV>,
    pub annotations: Seq<char>,
    pub editor: Seq<char>,
}

impl View for LibTASMovie {
    type V = MovieV;

    open spec fn view(&self) -> MovieV {
        (MovieV {
            config: self.config@,
            inputs: self.inputs@,
            annotations: self.annotations@,
            editor: self.editor@,
        })
    }
}

/// The all-default movie a decode populates.
pub open spec fn default_movie() -> MovieV {
    (MovieV {
        config: default_config(),
        inputs: Seq::<InputV>::empty(),
        annotations: Seq::<char>::empty(),
        editor: Seq::<char>::empty(),
    })
}

impl Default for LibTASMovie {
    fn default() -> (r: LibTASMovie)
        ensures
            r@ == default_movie(),
    {
        let r = LibTASMovie {
            config: Config::default(),
            inputs: Inputs(Vec::new()),
            annotations: String::new(),
            editor: String::new(),
        };
        assert(r@.inputs =~= Seq::<InputV>::empty());
        r
    }
}

/// Well-formed for canonical encoding: the configuration's free-text fields
/// hold no newline and do not end in a carriage return, as in every decoded
/// movie. The other members round-trip verbatim whatever they hold.
pub open spec fn movie_wf(m: MovieV) -> bool {
    config_wf(m.config)
}

// ---------------------------------------------------------------------------
// Trusted boundary: gzip + tar through flate2 and tar
// ---------------------------------------------------------------------------
/// A capture container under construction: a tar archive builder writing
/// through a gzip encoder into memory. Opaque to the verifier; what it holds
/// is tracked through [`builder_members`].
#[verifier::external_body]
pub struct ContainerBuilder {
    inner: tar::Builder<flate2::write::GzEncoder<Vec<u8>>>,
}

/// What reading a container yields: for bytes that decompress and unpack as a
/// gzip-compressed tar archive of UTF-8 text members, the members' names and
/// contents, in archive order; for any other bytes, nothing. Reading is a
/// function of the bytes alone.
pub uninterp spec fn archive_members(bytes: Seq<u8>) -> Option<Seq<(Seq<char>, Seq<char>)>>;

/// What a container builder holds: the members appended so far, in order.
pub uninterp spec fn builder_members(b: ContainerBuilder) -> Seq<(Seq<char>, Seq<char>)>;

/// Relies on `flate2::read::GzDecoder` and `tar::Archive`: iterating the
/// entries of a gzip-compressed tar archive yields each member's path and
/// contents, in order; a decompression or framing fault, or content or a name
/// that is not UTF-8, is reported as `None`.
#[verifier::external_body]
fn read_archive(bytes: &[u8]) -> (r: Option<Vec<(String, String)>>)
    ensures
        match r {
            Some(ms) => archive_members(bytes@) == Some(ms.deep_view()),
            None => archive_members(bytes@) is None,
        },
{
    let mut archive = tar::Archive::new(flate2::read::GzDecoder::new(bytes));
    let mut members = Vec::new();
    for entry in archive.entries().ok()? {
        let mut entry = entry.ok()?;
        let name = entry.path().ok()?.to_str()?.to_string();
        let mut data = String::new();
        std::io::Read::read_to_string(&mut entry, &mut data).ok()?;
        members.push((name, data));
    }
    Some(members)
}

/// Relies on `tar::Builder::new` over `flate2::write::GzEncoder`: a fresh
/// builder holds no members.
#[verifier::external_body]
fn new_builder() -> (b: ContainerBuilder)
    ensures
        builder_members(b) == Seq::<(Seq<char>, Seq<char>)>::empty(),
{
    ContainerBuilder {
        inner: tar::Builder::new(
            flate2::write::GzEncoder::new(Vec::new(), flate2::Compression::default()),
        ),
    }
}

/// Relies on `tar::Header::set_path`/`set_size`/`set_mode`/`set_cksum` and
/// `tar::Builder::append`: appending a member stores exactly the given name
/// and data, as a regular file with fixed mode bits and a computed checksum.
/// `set_path` canonicalizes structured paths (it drops `.` components and
/// collapses repeated `/`) and refuses `..`, an empty path, or a name over its
/// 100-byte field, so the admitted names are exactly the printable-ASCII
/// single path components that it stores byte for byte and accepts; with the
/// name accepted, nothing can fail, since the builder compresses into memory
/// and `append` only propagates writer faults.
#[verifier::external_body]
fn append_member(b: &mut ContainerBuilder, name: &str, data: &str) -> (r: Result<
    (),
    ArchiveWriteError,
>)
    requires
        1 <= name@.len() <= 99,
        forall|i: int|
            0 <= i < name@.len() ==> 32 <= (#[trigger] name@[i]) as u32 <= 126 && name@[i] != '/',
        name@ != "."@,
        name@ != ".."@,
    ensures
        r is Ok,
        builder_members(*final(b)) == builder_members(*old(b)).push((name@, data@)),
{
    let mut header = tar::Header::new_gnu();
    if header.set_path(name).is_err() {
        return Err(ArchiveWriteError);
    }
    header.set_size(data.len() as u64);
    header.set_mode(0o644);
    header.set_cksum();
    match b.inner.append(&header, data.as_bytes()) {
        Ok(()) => Ok(()),
        Err(_) => Err(ArchiveWriteError),
    }
}

/// Relies on `tar::Builder::into_inner` and `flate2::write::GzEncoder::finish`:
/// the finished archive's bytes read back as exactly the appended members.
/// Finishing writes the terminating blocks and the gzip trailer into memory
/// and only propagates writer faults, so it cannot fail.
#[verifier::external_body]
fn finish_builder(b: ContainerBuilder) -> (r: Result<Vec<u8>, ArchiveWriteError>)
    ensures
        r is Ok,
        r matches Ok(bytes) ==> archive_members(bytes@) == Some(builder_members(b)),
{
    match b.inner.into_inner() {
        Ok(enc) => match enc.finish() {
            Ok(v) => Ok(v),
            Err(_) => Err(ArchiveWriteError),
        },
        Err(_) => Err(ArchiveWriteError),
    }
}

/// Each of the four member names is a plain printable-ASCII path component,
/// as appending requires.
proof fn lemma_member_names_appendable()
    ensures
        forall|i: int|
            0 <= i < "config.ini"@.len() ==> 32 <= (#[trigger] "config.ini"@[i]) as u32 <= 126
                && "config.ini"@[i] != '/',
        forall|i: int|
            0 <= i < "inputs"@.len() ==> 32 <= (#[trigger] "inputs"@[i]) as u32 <= 126
                && "inputs"@[i] != '/',
        forall|i: int|
            0 <= i < "annotations.txt"@.len() ==> 32 <= (#[trigger] "annotations.txt"@[i]) as u32
                <= 126 && "annotations.txt"@[i] != '/',
        forall|i: int|
            0 <= i < "editor.ini"@.len() ==> 32 <= (#[trigger] "editor.ini"@[i]) as u32 <= 126
                && "editor.ini"@[i] != '/',
        "config.ini"@.len() == 10,
        "inputs"@.len() == 6,
        "annotations.txt"@.len() == 15,
        "editor.ini"@.len() == 10,
        "."@.len() == 1,
        ".."@.len() == 2,
{
    reveal_strlit("config.ini");
    reveal_strlit("inputs");
    reveal_strlit("annotations.txt");
    reveal_strlit("editor.ini");
    reveal_strlit(".");
    reveal_strlit("..");
}

// ---------------------------------------------------------------------------
// Container decoding specification
// ---------------------------------------------------------------------------
/// The loader's running state: the movie under construction and which of the
/// four required members have been seen.
pub struct LoadStateV {
    pub movie: MovieV,
    pub has_config: bool,
    pub has_inputs: bool,
    pub has_annotations: bool,
    pub has_editor: bool,
}

pub open spec fn initial_load_state() -> LoadStateV {
    (LoadStateV {
        movie: default_movie(),
        has_config: false,
        has_inputs: false,
        has_annotations: false,
        has_editor: false,
    })
}

/// One member applied to the state: a recognized name marks its presence and
/// decodes or stores its content; an unknown name is fatal.
pub open spec fn load_step(st: LoadStateV, name: Seq<char>, data: Seq<char>) -> Result<
    LoadStateV,
    LoadErrV,
> {
    if name == "config.ini"@ {
        match config_dec(data) {
            Ok(c) => Ok(
                LoadStateV {
                    movie: MovieV { config: c, ..st.movie },
                    has_config: true,
                    ..st
                },
            ),
            Err(e) => Err(LoadErrV::InvalidConfig(e)),
        }
    } else if name == "inputs"@ {
        match inputs_dec(data) {
            Ok(f) => Ok(
                LoadStateV {
                    movie: MovieV { inputs: f, ..st.movie },
                    has_inputs: true,
                    ..st
                },
            ),
            Err(e) => Err(LoadErrV::InvalidInputs(e)),
        }
    } else if name == "annotations.txt"@ {
        Ok(
            LoadStateV {
                movie: MovieV { annotations: data, ..st.movie },
                has_annotations: true,
                ..st
            },
        )
    } else if name == "editor.ini"@ {
        Ok(
            LoadStateV {
                movie: MovieV { editor: data, ..st.movie },
                has_editor: true,
                ..st
            },
        )
    } else {
        Err(LoadErrV::ExtraEntry(name))
    }
}

pub open spec fn load_fold(st: LoadStateV, ms: Seq<(Seq<char>, Seq<char>)>) -> Result<
    LoadStateV,
    LoadErrV,
>
    decreases ms.len(),
{
    if ms.len() == 0 {
        Ok(st)
    } else {
        match load_step(st, ms[0].0, ms[0].1) {
            Ok(st2) => load_fold(st2, ms.drop_first()),
            Err(e) => Err(e),
        }
    }
}

/// The names of the members the state still lacks, in canonical member order.
pub open spec fn missing_members(st: LoadStateV) -> Seq<Seq<char>> {
    (if st.has_config {
        Seq::<Seq<char>>::empty()
    } else {
        seq!["config.ini"@]
    }) + (if st.has_inputs {
        Seq::<Seq<char>>::empty()
    } else {
        seq!["inputs"@]
    }) + (if st.has_annotations {
        Seq::<Seq<char>>::empty()
    } else {
        seq!["annotations.txt"@]
    }) + (if st.has_editor {
        Seq::<Seq<char>>::empty()
    } else {
        seq!["editor.ini"@]
    })
}

/// Reading of a member list: every member applied in order, then the
/// presence check.
pub open spec fn load_members(ms: Seq<(Seq<char>, Seq<char>)>) -> Result<MovieV, LoadErrV> {
    match load_fold(initial_load_state(), ms) {
        Err(e) => Err(e),
        Ok(st) => {
            if st.has_config && st.has_inputs && st.has_annotations && st.has_editor {
                Ok(st.movie)
            } else {
                Err(LoadErrV::IncompleteCapture(missing_members(st)))
            }
        },
    }
}

/// Reading of raw container bytes: unreadable bytes are `ArchiveCorrupt`,
/// readable ones go through the member loader.
pub open spec fn session_dec(bytes: Seq<u8>) -> Result<MovieV, LoadErrV> {
    match archive_members(bytes) {
        None => Err(LoadErrV::ArchiveCorrupt),
        Some(ms) => load_members(ms),
    }
}

/// The canonical encoding of a movie: the four members' canonical texts, in
/// fixed order.
pub open spec fn session_encoding(m: MovieV) -> Seq<(Seq<char>, Seq<char>)> {
    seq![
        ("config.ini"@, config_text(m.config)),
        ("inputs"@, inputs_text(m.inputs)),
        ("annotations.txt"@, m.annotations),
        ("editor.ini"@, m.editor),
    ]
}

// ---------------------------------------------------------------------------
// Container executable code
// ---------------------------------------------------------------------------
impl LibTASMovie {
    /// Replaces the configuration with the decoded `config.ini` text.
    pub fn load_config(&mut self, string: &str) -> (r: Result<(), InvalidConfigError>)
        ensures
            match r {
                Ok(_) => config_dec(string@) == Ok::<crate::config::ConfigV, ConfigErrV>(
                    final(self)@.config,
                ) && final(self)@ == (MovieV { config: final(self)@.config, ..old(self)@ }),
                Err(e) => config_dec(string@) == Err::<crate::config::ConfigV, ConfigErrV>(e@)
                    && *final(self) == *old(self),
            },
    {
        match Config::decode(string) {
            Ok(config) => {
                self.config = config;
                Ok(())
            },
            Err(err) => Err(err),
        }
    }

    /// Replaces the inputs with the decoded `inputs` text.
    pub fn load_inputs(&mut self, string: &str) -> (r: Result<(), InvalidInputsError>)
        ensures
            match r {
                Ok(_) => inputs_dec(string@) == Ok::<Seq<InputV>, InputsErrV>(
                    final(self)@.inputs,
                ) && final(self)@ == (MovieV { inputs: final(self)@.inputs, ..old(self)@ }),
                Err(e) => inputs_dec(string@) == Err::<Seq<InputV>, InputsErrV>(e@)
                    && *final(self) == *old(self),
            },
    {
        match Inputs::decode(string) {
            Ok(inputs) => {
                self.inputs = inputs;
                Ok(())
            },
            Err(err) => Err(err),
        }
    }

    /// Replaces the annotations, kept verbatim.
    pub fn load_annotations(&mut self, string: &str)
        ensures
            final(self)@ == (MovieV { annotations: string@, ..old(self)@ }),
    {
        self.annotations = string.to_owned();
    }

    /// Replaces the editor state, kept verbatim.
    pub fn load_editor(&mut self, string: &str)
        ensures
            final(self)@ == (MovieV { editor: string@, ..old(self)@ }),
    {
        self.editor = string.to_owned();
    }

    /// Encodes the movie as container bytes: always successfully, and always
    /// exactly the four members, canonical text each, in fixed order.
    pub fn compress(&self) -> (r: Result<Vec<u8>, ArchiveWriteError>)
        ensures
            r is Ok,
            r matches Ok(bytes) ==> archive_members(bytes@) == Some(session_encoding(self@)),
    {
        proof {
            lemma_member_names_appendable();
        }
        let config_text_s = self.config.encode();
        let inputs_text_s = self.inputs.encode();
        let mut b = new_builder();
        if let Err(e) = append_member(&mut b, "config.ini", config_text_s.as_str()) {
            return Err(e);
        }
        if let Err(e) = append_member(&mut b, "inputs", inputs_text_s.as_str()) {
            return Err(e);
        }
        if let Err(e) = append_member(&mut b, "annotations.txt", self.annotations.as_str()) {
            return Err(e);
        }
        if let Err(e) = append_member(&mut b, "editor.ini", self.editor.as_str()) {
            return Err(e);
        }
        proof {
            assert(builder_members(b) =~= session_encoding(self@));
        }
        finish_builder(b)
    }
}

/// Decodes one capture container from its raw bytes.
pub fn decode_session(bytes: &[u8]) -> (r: Result<LibTASMovie, LoadError>)
    ensures
        models(r, session_dec(bytes@)),
{
    match read_archive(bytes) {
        Some(ms) => load_from_members(ms),
        None => Err(LoadError::ArchiveCorrupt),
    }
}

/// Loads a movie from an already extracted member list: the verified member
/// dispatch behind [`decode_session`], usable on plain values directly.
pub fn load_from_members(members: Vec<(String, String)>) -> (r: Result<LibTASMovie, LoadError>)
    ensures
        models(r, load_members(members.deep_view())),
{
    let ghost ms = members.deep_view();
    let n = members.len();
    let mut movie = LibTASMovie::default();
    let mut has_config = false;
    let mut has_inputs = false;
    let mut has_annotations = false;
    let mut has_editor = false;
    let mut i: usize = 0;
    proof {
        assert(ms.subrange(0, n as int) =~= ms);
    }
    while i < n
        invariant
            n == ms.len(),
            members.deep_view() == ms,
            n == members@.len(),
            i <= n,
            load_fold(initial_load_state(), ms) == load_fold(
                LoadStateV {
                    movie: movie@,
                    has_config: has_config,
                    has_inputs: has_inputs,
                    has_annotations: has_annotations,
                    has_editor: has_editor,
                },
                ms.subrange(i as int, n as int),
            ),
        decreases n - i,
    {
        let ghost suffix = ms.subrange(i as int, n as int);
        let ghost st = LoadStateV {
            movie: movie@,
            has_config: has_config,
            has_inputs: has_inputs,
            has_annotations: has_annotations,
            has_editor: has_editor,
        };
        proof {
            assert(suffix.len() > 0 && suffix[0] == ms[i as int]);
            assert(suffix.drop_first() =~= ms.subrange(i + 1 as int, n as int));
            assert(members@[i as int].deep_view() == ms[i as int]);
            assert(members@[i as int].0@ == ms[i as int].0);
            assert(members@[i as int].1@ == ms[i as int].1);
        }
        let name = &members[i].0;
        let data = &members[i].1;
        if str_eq_lit(name.as_str(), "config.ini") {
            match movie.load_config(data.as_str()) {
                Ok(_) => {},
                Err(e) => {
                    return Err(LoadError::InvalidConfig(e));
                },
            }
            has_config = true;
        } else if str_eq_lit(name.as_str(), "inputs") {
            match movie.load_inputs(data.as_str()) {
                Ok(_) => {},
                Err(e) => {
                    return Err(LoadError::InvalidInputs(e));
                },
            }
            has_inputs = true;
        } else if str_eq_lit(name.as_str(), "annotations.txt") {
            movie.load_annotations(data.as_str());
            has_annotations = true;
        } else if str_eq_lit(name.as_str(), "editor.ini") {
            movie.load_editor(data.as_str());
            has_editor = true;
        } else {
            return Err(LoadError::ExtraEntry(name.clone()));
        }
        i = i + 1;
    }
    proof {
        assert(ms.subrange(n as int, n as int) =~= Seq::<(Seq<char>, Seq<char>)>::empty());
    }
    if has_config && has_inputs && has_annotations && has_editor {
        Ok(movie)
    } else {
        let mut missing: Vec<String> = Vec::new();
        if !has_config {
            missing.push(String::from_str("config.ini"));
        }
        if !has_inputs {
            missing.push(String::from_str("inputs"));
        }
        if !has_annotations {
            missing.push(String::from_str("annotations.txt"));
        }
        if !has_editor {
            missing.push(String::from_str("editor.ini"));
        }
        let ghost st = LoadStateV {
            movie: movie@,
            has_config: has_config,
            has_inputs: has_inputs,
            has_annotations: has_annotations,
            has_editor: has_editor,
        };
        proof {
            assert(missing.deep_view() =~~= missing_members(st));
        }
        Err(LoadError::IncompleteCapture(missing))
    }
}

// ---------------------------------------------------------------------------
// Session laws
// ---------------------------------------------------------------------------
/// Round trip: loading the canonical encoding of any well-formed movie gives
/// the movie back, member for member and field for field.
pub proof fn lemma_session_round_trip(m: MovieV)
    requires
        movie_wf(m),
    ensures
        load_members(session_encoding(m)) == Ok::<MovieV, LoadErrV>(m),
{
    reveal_with_fuel(load_fold, 6);
    reveal_strlit("config.ini");
    reveal_strlit("inputs");
    reveal_strlit("annotations.txt");
    reveal_strlit("editor.ini");
    assert("config.ini"@.len() == 10);
    assert("inputs"@.len() == 6);
    assert("annotations.txt"@.len() == 15);
    assert("editor.ini"@.len() == 10);
    assert("config.ini"@[0] == 'c' && "editor.ini"@[0] == 'e');
    lemma_config_round_trip(m.config);
    lemma_inputs_round_trip(m.inputs);
    let ms = session_encoding(m);
    assert(ms.drop_first() =~= seq![
        ("inputs"@, inputs_text(m.inputs)),
        ("annotations.txt"@, m.annotations),
        ("editor.ini"@, m.editor),
    ]);
    assert(ms.drop_first().drop_first() =~= seq![
        ("annotations.txt"@, m.annotations),
        ("editor.ini"@, m.editor),
    ]);
    assert(ms.drop_first().drop_first().drop_first() =~= seq![("editor.ini"@, m.editor)]);
    assert(ms.drop_first().drop_first().drop_first().drop_first() =~= Seq::<
        (Seq<char>, Seq<char>),
    >::empty());
    match load_fold(initial_load_state(), ms) {
        Ok(st) => {
            assert(st.movie == m);
        },
        Err(_) => {},
    }
}

/// Every value the member fold builds is well-formed: a configuration only
/// enters it through a successful decode.
proof fn lemma_load_fold_wf(st: LoadStateV, ms: Seq<(Seq<char>, Seq<char>)>)
    requires
        movie_wf(st.movie),
    ensures
        load_fold(st, ms) matches Ok(st2) ==> movie_wf(st2.movie),
    decreases ms.len(),
{
    if ms.len() > 0 {
        match load_step(st, ms[0].0, ms[0].1) {
            Ok(st2) => {
                assert(movie_wf(st2.movie)) by {
                    if ms[0].0 == "config.ini"@ {
                        if let Ok(c) = config_dec(ms[0].1) {
                            lemma_config_dec_wf(ms[0].1, c);
                        }
                    }
                }
                lemma_load_fold_wf(st2, ms.drop_first());
            },
            Err(_) => {},
        }
    }
}

/// Every successfully loaded movie is well-formed.
pub proof fn lemma_load_wf(ms: Seq<(Seq<char>, Seq<char>)>, m: MovieV)
    requires
        load_members(ms) == Ok::<MovieV, LoadErrV>(m),
    ensures
        movie_wf(m),
{
    assert(movie_wf(initial_load_state().movie)) by {
        reveal_strlit("");
    }
    lemma_load_fold_wf(initial_load_state(), ms);
}

/// Decode-encode identity: any movie a successful load produced is given back
/// unchanged by loading its own encoding.
pub proof fn lemma_decode_encode_identity(ms: Seq<(Seq<char>, Seq<char>)>, m: MovieV)
    requires
        load_members(ms) == Ok::<MovieV, LoadErrV>(m),
    ensures
        load_members(session_encoding(m)) == Ok::<MovieV, LoadErrV>(m),
{
    lemma_load_wf(ms, m);
    lemma_session_round_trip(m);
}

/// Canonicalization idempotence: encoding, loading and encoding again gives
/// the first encoding, for every well-formed movie.
pub proof fn lemma_encode_canonical(m: MovieV)
    requires
        movie_wf(m),
    ensures
        load_members(session_encoding(m)) is Ok,
        load_members(session_encoding(m)) matches Ok(m2) ==> session_encoding(m2)
            == session_encoding(m),
{
    lemma_session_round_trip(m);
}

/// The byte-level round trip: any container bytes that carry the canonical
/// encoding of a well-formed movie decode to exactly that movie.
pub proof fn lemma_session_bytes_round_trip(bytes: Seq<u8>, m: MovieV)
    requires
        movie_wf(m),
        archive_members(bytes) == Some(session_encoding(m)),
    ensures
        session_dec(bytes) == Ok::<MovieV, LoadErrV>(m),
{
    lemma_session_round_trip(m);
}

} // verus!
