//! The per-frame input grammar: a keyboard key-set sub-field, a mouse state
//! sub-field, frame records bounded by `|`, and the newline-separated frame
//! sequence. Every decoder is specified exactly, and every encoder produces
//! the canonical text, with round-trip lemmas relating the two.

use crate::models;
use crate::num::{
    dec_text, hex_text, int_text, is_hex_digit, lemma_hex_text, lemma_int_text_clean,
    lemma_parse_hex_text, lemma_parse_int_text, parse_hex_u32, parse_hex_u32_chars, parse_i32,
    parse_i32_chars, push_dec_i64, push_hex_u32,
};
use crate::text::{
    chars_eq_str, chars_to_string, lemma_no_char_concat, lemma_split_cat_lines, lemma_split_no_sep,
    lemma_split_sep, no_char, split_chars, split_on, str_to_chars,
};
use vstd::prelude::*;

verus! {

/// An error while parsing inputs, carrying the text that caused it.
#[derive(Clone, Debug, PartialEq, Eq)]
pub enum InvalidInputsError {
    /// A sub-field did not open with its marker character, or a frame line was
    /// not bounded by `|`.
    MissingMarker(String),
    /// A keyboard key token is not a hexadecimal `u32`.
    InvalidKeyCode(String),
    /// A mouse sub-field holds fewer than four `:`-separated fields.
    WrongFieldCount(String),
    /// A mouse coordinate token is not a decimal `i32`.
    InvalidCoordinate(String),
    /// A mouse reference-mode token is neither `A` nor `R`.
    InvalidMode(String),
    /// A mouse button field is not exactly five characters.
    WrongButtonFieldLength(String),
    /// A frame sub-field opens with an unknown marker character.
    UnrecognizedSubfield(String),
}

/// Specification-level image of [`InvalidInputsError`].
pub enum InputsErrV {
    MissingMarker(Seq<char>),
    InvalidKeyCode(Seq<char>),
    WrongFieldCount(Seq<char>),
    InvalidCoordinate(Seq<char>),
    InvalidMode(Seq<char>),
    WrongButtonFieldLength(Seq<char>),
    UnrecognizedSubfield(Seq<char>),
}

impl View for InvalidInputsError {
    type V = InputsErrV;

    open spec fn view(&self) -> InputsErrV {
        match self {
            InvalidInputsError::MissingMarker(s) => InputsErrV::MissingMarker(s@),
            InvalidInputsError::InvalidKeyCode(s) => InputsErrV::InvalidKeyCode(s@),
            InvalidInputsError::WrongFieldCount(s) => InputsErrV::WrongFieldCount(s@),
            InvalidInputsError::InvalidCoordinate(s) => InputsErrV::InvalidCoordinate(s@),
            InvalidInputsError::InvalidMode(s) => InputsErrV::InvalidMode(s@),
            InvalidInputsError::WrongButtonFieldLength(s) => InputsErrV::WrongButtonFieldLength(
                s@,
            ),
            InvalidInputsError::UnrecognizedSubfield(s) => InputsErrV::UnrecognizedSubfield(s@),
        }
    }
}

/// A keyboard input in a frame: the Xlib KeySym values of the held keys, in
/// the order the text gives them.
///
/// Syntax: `K`, then zero or more hexadecimal keys separated by `:`.
#[derive(Clone, Debug, Default, PartialEq, Eq)]
pub struct KeyboardInput(pub Vec<u32>);

impl View for KeyboardInput {
    type V = Seq<u32>;

    open spec fn view(&self) -> Seq<u32> {
        self.0@
    }
}

/// The reference mode of a mouse input.
#[derive(Clone, Copy, Debug, Default, PartialEq, Eq, Structural)]
pub enum ReferenceMode {
    /// Absolute coordinates.
    #[default]
    Absolute,
    /// Relative coordinates.
    Relative,
}

/// A mouse input in a frame: pointer position, reference mode, and the five
/// button states.
///
/// Syntax: `M`, then `xpos:ypos:X:bbbbb:0` where `X` is `A` or `R` and each
/// `b` is `.` for a released button and any other character for a pressed one.
#[derive(Clone, Copy, Debug, Default, PartialEq, Eq, Structural)]
pub struct MouseInput {
    /// X-coordinate of the pointer (can be negative).
    pub xpos: i32,
    /// Y-coordinate of the pointer (can be negative).
    pub ypos: i32,
    /// Reference mode.
    pub reference_mode: ReferenceMode,
    /// Left mouse click (aka button 1).
    pub left_click: bool,
    /// Middle mouse click (aka button 2).
    pub middle_click: bool,
    /// Right mouse click (aka button 3).
    pub right_click: bool,
    /// Mouse button 4 click.
    pub button4: bool,
    /// Mouse button 5 click.
    pub button5: bool,
}

impl View for ReferenceMode {
    type V = ReferenceMode;

    open spec fn view(&self) -> ReferenceMode {
        *self
    }
}

impl View for MouseInput {
    type V = MouseInput;

    open spec fn view(&self) -> MouseInput {
        *self
    }
}

// ---------------------------------------------------------------------------
// Keyboard specification
// ---------------------------------------------------------------------------
/// Canonical text of the key list: lower-case hex keys joined with `:`.
pub open spec fn keyboard_body(keys: Seq<u32>) -> Seq<char>
    decreases keys.len(),
{
    if keys.len() == 0 {
        Seq::<char>::empty()
    } else if keys.len() == 1 {
        hex_text(keys[0] as nat)
    } else {
        hex_text(keys[0] as nat) + seq![':'] + keyboard_body(keys.drop_first())
    }
}

/// Canonical text of a keyboard sub-field.
pub open spec fn keyboard_text(keys: Seq<u32>) -> Seq<char> {
    seq!['K'] + keyboard_body(keys)
}

/// Reading of a `:`-separated key token list.
pub open spec fn keys_from_pieces(ps: Seq<Seq<char>>) -> Result<Seq<u32>, InputsErrV>
    decreases ps.len(),
{
    if ps.len() == 0 {
        Ok(Seq::<u32>::empty())
    } else {
        match parse_hex_u32(ps[0]) {
            None => Err(InputsErrV::InvalidKeyCode(ps[0])),
            Some(k) => match keys_from_pieces(ps.drop_first()) {
                Ok(rest) => Ok(seq![k] + rest),
                Err(e) => Err(e),
            },
        }
    }
}

/// Reading of a keyboard sub-field. The marker alone is the empty key set; a
/// missing marker and an unreadable key are the two failures.
pub open spec fn keyboard_dec(s: Seq<char>) -> Result<Seq<u32>, InputsErrV> {
    if s.len() == 0 || s[0] != 'K' {
        Err(InputsErrV::MissingMarker(s))
    } else if s.len() == 1 {
        Ok(Seq::<u32>::empty())
    } else {
        keys_from_pieces(split_on(s.drop_first(), ':'))
    }
}

// ---------------------------------------------------------------------------
// Mouse specification
// ---------------------------------------------------------------------------
pub open spec fn mode_char(m: ReferenceMode) -> char {
    match m {
        ReferenceMode::Absolute => 'A',
        ReferenceMode::Relative => 'R',
    }
}

/// Reading of a reference-mode token.
pub open spec fn mode_dec(s: Seq<char>) -> Option<ReferenceMode> {
    if s == "A"@ {
        Some(ReferenceMode::Absolute)
    } else if s == "R"@ {
        Some(ReferenceMode::Relative)
    } else {
        None
    }
}

pub open spec fn button_char(pressed: bool, digit: char) -> char {
    if pressed {
        digit
    } else {
        '.'
    }
}

/// Canonical button field: the button's slot digit when pressed, `.` when not.
pub open spec fn buttons_text(m: MouseInput) -> Seq<char> {
    seq![
        button_char(m.left_click, '1'),
        button_char(m.middle_click, '2'),
        button_char(m.right_click, '3'),
        button_char(m.button4, '4'),
        button_char(m.button5, '5'),
    ]
}

/// Canonical text of a mouse sub-field, always closed by the `:0` stub.
pub open spec fn mouse_text(m: MouseInput) -> Seq<char> {
    seq!['M'] + int_text(m.xpos as int) + seq![':'] + int_text(m.ypos as int) + seq![':'] + seq![
        mode_char(m.reference_mode),
    ] + seq![':'] + buttons_text(m) + seq![':', '0']
}

/// Reading of a mouse sub-field: marker, then at least four `:`-separated
/// fields (signed x, signed y, mode letter, five button characters); any
/// further fields are tolerated and ignored.
pub open spec fn mouse_dec(s: Seq<char>) -> Result<MouseInput, InputsErrV> {
    if s.len() == 0 || s[0] != 'M' {
        Err(InputsErrV::MissingMarker(s))
    } else {
        let ps = split_on(s.drop_first(), ':');
        if ps.len() < 4 {
            Err(InputsErrV::WrongFieldCount(s))
        } else {
            match parse_i32(ps[0]) {
                None => Err(InputsErrV::InvalidCoordinate(ps[0])),
                Some(x) => match parse_i32(ps[1]) {
                    None => Err(InputsErrV::InvalidCoordinate(ps[1])),
                    Some(y) => match mode_dec(ps[2]) {
                        None => Err(InputsErrV::InvalidMode(ps[2])),
                        Some(mode) => {
                            if ps[3].len() != 5 {
                                Err(InputsErrV::WrongButtonFieldLength(ps[3]))
                            } else {
                                Ok(
                                    MouseInput {
                                        xpos: x,
                                        ypos: y,
                                        reference_mode: mode,
                                        left_click: ps[3][0] != '.',
                                        middle_click: ps[3][1] != '.',
                                        right_click: ps[3][2] != '.',
                                        button4: ps[3][3] != '.',
                                        button5: ps[3][4] != '.',
                                    },
                                )
                            }
                        },
                    },
                },
            }
        }
    }
}

// ---------------------------------------------------------------------------
// Keyboard executable code
// ---------------------------------------------------------------------------
impl KeyboardInput {
    /// Decodes a keyboard sub-field such as `K7a:ff53`.
    pub fn decode(s: &str) -> (r: Result<KeyboardInput, InvalidInputsError>)
        ensures
            models(r, keyboard_dec(s@)),
    {
        let v = str_to_chars(s);
        Self::decode_chars(v.as_slice())
    }

    fn decode_chars(v: &[char]) -> (r: Result<KeyboardInput, InvalidInputsError>)
        ensures
            models(r, keyboard_dec(v@)),
    {
        let n = v.len();
        if n == 0 || v[0] != 'K' {
            return Err(InvalidInputsError::MissingMarker(chars_to_string(v)));
        }
        if n == 1 {
            return Ok(KeyboardInput(Vec::new()));
        }
        let rest = vstd::slice::slice_subrange(v, 1, n);
        assert(rest@ =~= v@.drop_first());
        let pieces = split_chars(rest, ':');
        let ghost ps = split_on(v@.drop_first(), ':');
        let m = pieces.len();
        let mut keys: Vec<u32> = Vec::new();
        let mut i: usize = 0;
        proof {
            assert(ps.subrange(0, m as int) =~= ps);
        }
        while i < m
            invariant
                v@.len() > 1,
                v@[0] == 'K',
                ps == split_on(v@.drop_first(), ':'),
                m == ps.len(),
                pieces.deep_view() =~~= ps,
                i <= m,
                keys_from_pieces(ps) == (match keys_from_pieces(ps.subrange(i as int, m as int)) {
                    Ok(rest_keys) => Ok::<Seq<u32>, InputsErrV>(keys@ + rest_keys),
                    Err(e) => Err::<Seq<u32>, InputsErrV>(e),
                }),
            decreases m - i,
        {
            let ghost suffix = ps.subrange(i as int, m as int);
            proof {
                assert(suffix.len() > 0 && suffix[0] == ps[i as int]);
                assert(suffix.drop_first() =~= ps.subrange(i + 1 as int, m as int));
                assert(pieces@[i as int]@ == ps[i as int]);
            }
            match parse_hex_u32_chars(pieces[i].as_slice()) {
                Some(k) => {
                    let ghost old_keys = keys@;
                    keys.push(k);
                    proof {
                        if let Ok(rk) = keys_from_pieces(ps.subrange(i + 1 as int, m as int)) {
                            assert(old_keys + (seq![k] + rk) =~= keys@ + rk);
                        }
                    }
                },
                None => {
                    return Err(
                        InvalidInputsError::InvalidKeyCode(chars_to_string(pieces[i].as_slice())),
                    );
                },
            }
            i = i + 1;
        }
        proof {
            assert(ps.subrange(m as int, m as int) =~= Seq::<Seq<char>>::empty());
            assert(keys@ + Seq::<u32>::empty() =~= keys@);
        }
        Ok(KeyboardInput(keys))
    }

    /// Encodes the key set canonically: `K`, then lower-case hex keys joined
    /// with `:` in the stored order.
    pub fn encode(&self) -> (r: String)
        ensures
            r@ == keyboard_text(self@),
    {
        let mut out: Vec<char> = Vec::new();
        self.push_text(&mut out);
        assert(out@ =~= keyboard_text(self@));
        chars_to_string(out.as_slice())
    }

    /// Appends the canonical keyboard text.
    fn push_text(&self, out: &mut Vec<char>)
        ensures
            final(out)@ == old(out)@ + keyboard_text(self@),
    {
        let ghost base = out@;
        out.push('K');
        let n = self.0.len();
        let mut i: usize = 0;
        while i < n
            invariant
                n == self.0@.len(),
                i <= n,
                out@ =~~= base + seq!['K'] + keyboard_body(self.0@.subrange(0, i as int)),
            decreases n - i,
        {
            if i != 0 {
                out.push(':');
            }
            push_hex_u32(out, self.0[i]);
            proof {
                lemma_keyboard_body_snoc(self.0@.subrange(0, i + 1 as int));
                assert(self.0@.subrange(0, i + 1 as int).drop_last() =~= self.0@.subrange(
                    0,
                    i as int,
                ));
            }
            i = i + 1;
        }
        proof {
            assert(self.0@.subrange(0, n as int) =~= self.0@);
        }
    }
}

/// `keyboard_body` grown from the right: appending one key appends `:` (when
/// the list was non-empty) and the key's hex text.
proof fn lemma_keyboard_body_snoc(keys: Seq<u32>)
    requires
        keys.len() >= 1,
    ensures
        keyboard_body(keys) == if keys.len() == 1 {
            hex_text(keys[0] as nat)
        } else {
            keyboard_body(keys.drop_last()) + seq![':'] + hex_text(keys.last() as nat)
        },
    decreases keys.len(),
{
    if keys.len() > 1 {
        lemma_keyboard_body_snoc(keys.drop_first());
        assert(keys.drop_first().drop_last() =~= keys.drop_last().drop_first());
        assert(keys.drop_first().last() == keys.last());
        if keys.len() == 2 {
            assert(keys.drop_last() =~= seq![keys[0]]);
            assert(keyboard_body(keys.drop_last()) == hex_text(keys[0] as nat));
        } else {
            assert(keyboard_body(keys) == hex_text(keys[0] as nat) + seq![':'] + keyboard_body(
                keys.drop_first(),
            ));
            assert(keyboard_body(keys.drop_last()) == hex_text(keys[0] as nat) + seq![':']
                + keyboard_body(keys.drop_last().drop_first()));
            assert((hex_text(keys[0] as nat) + seq![':'] + (keyboard_body(
                keys.drop_first().drop_last(),
            ) + seq![':'] + hex_text(keys.last() as nat))) =~= ((hex_text(keys[0] as nat) + seq![
                ':',
            ] + keyboard_body(keys.drop_last().drop_first())) + seq![':'] + hex_text(
                keys.last() as nat,
            )));
        }
    }
}

// ---------------------------------------------------------------------------
// Keyboard round trip
// ---------------------------------------------------------------------------
/// Every character of the key list text is a hex digit or `:`.
proof fn lemma_keyboard_body_chars(keys: Seq<u32>)
    ensures
        forall|i: int|
            0 <= i < keyboard_body(keys).len() ==> is_hex_digit(#[trigger] keyboard_body(keys)[i])
                || keyboard_body(keys)[i] == ':',
    decreases keys.len(),
{
    if keys.len() == 1 {
        lemma_hex_text(keys[0] as nat);
    } else if keys.len() > 1 {
        lemma_hex_text(keys[0] as nat);
        lemma_keyboard_body_chars(keys.drop_first());
        let h = hex_text(keys[0] as nat);
        let t = keyboard_body(keys.drop_first());
        let w = h + seq![':'] + t;
        assert forall|i: int| 0 <= i < w.len() implies is_hex_digit(#[trigger] w[i]) || w[i]
            == ':' by {
            if i < h.len() {
                assert(w[i] == h[i]);
            } else if i == h.len() {
                assert(w[i] == ':');
            } else {
                assert(w[i] == t[i - h.len() - 1]);
            }
        }
    }
}

/// The keyboard text never holds `|` or a newline, and opens with `K`.
pub proof fn lemma_keyboard_text_clean(keys: Seq<u32>)
    ensures
        keyboard_text(keys).len() >= 1,
        keyboard_text(keys)[0] == 'K',
        no_char(keyboard_text(keys), '|'),
        no_char(keyboard_text(keys), '\n'),
{
    lemma_keyboard_body_chars(keys);
    let w = keyboard_text(keys);
    assert forall|i: int| 0 <= i < w.len() implies w[i] != '|' && w[i] != '\n' by {
        if i == 0 {
            assert(w[i] == 'K');
            assert('K' as u32 == 75 && '|' as u32 == 124 && '\n' as u32 == 10);
        } else {
            assert(w[i] == keyboard_body(keys)[i - 1]);
            assert(':' as u32 == 58 && '|' as u32 == 124 && '\n' as u32 == 10);
        }
    }
}

/// Splitting the canonical key list on `:` recovers one piece per key.
proof fn lemma_keyboard_body_split(keys: Seq<u32>)
    requires
        keys.len() >= 1,
    ensures
        split_on(keyboard_body(keys), ':') =~~= keys.map_values(|k: u32| hex_text(k as nat)),
    decreases keys.len(),
{
    let h = hex_text(keys[0] as nat);
    assert(no_char(h, ':')) by {
        lemma_hex_text(keys[0] as nat);
        assert(':' as u32 == 58);
    }
    if keys.len() == 1 {
        lemma_split_no_sep(h, ':');
        assert(keys.map_values(|k: u32| hex_text(k as nat)) =~= seq![h]);
    } else {
        lemma_keyboard_body_split(keys.drop_first());
        lemma_split_sep(h, keyboard_body(keys.drop_first()), ':');
        assert(keys.map_values(|k: u32| hex_text(k as nat)) =~= seq![h]
            + keys.drop_first().map_values(|k: u32| hex_text(k as nat)));
    }
}

/// Reading back the canonical pieces gives the keys.
proof fn lemma_keys_from_hex_pieces(keys: Seq<u32>)
    ensures
        keys_from_pieces(keys.map_values(|k: u32| hex_text(k as nat))) == Ok::<_, InputsErrV>(
            keys,
        ),
    decreases keys.len(),
{
    let ps = keys.map_values(|k: u32| hex_text(k as nat));
    if keys.len() == 0 {
        assert(ps.len() == 0);
        assert(keys =~= Seq::<u32>::empty());
    } else {
        lemma_parse_hex_text(keys[0]);
        lemma_keys_from_hex_pieces(keys.drop_first());
        assert(ps.drop_first() =~= keys.drop_first().map_values(|k: u32| hex_text(k as nat)));
        assert(seq![keys[0]] + keys.drop_first() =~= keys);
    }
}

/// Round trip: decoding the canonical keyboard text gives the keys back, for
/// every key list.
pub proof fn lemma_keyboard_round_trip(keys: Seq<u32>)
    ensures
        keyboard_dec(keyboard_text(keys)) == Ok::<_, InputsErrV>(keys),
{
    let w = keyboard_text(keys);
    assert(w[0] == 'K');
    if keys.len() == 0 {
        assert(w.len() == 1);
        assert(keys =~= Seq::<u32>::empty());
    } else {
        lemma_hex_text(keys[0] as nat);
        assert(keyboard_body(keys).len() >= 1) by {
            if keys.len() > 1 {
                assert(keyboard_body(keys) == hex_text(keys[0] as nat) + seq![':']
                    + keyboard_body(keys.drop_first()));
            }
        }
        assert(w.len() > 1);
        assert(w.drop_first() =~= keyboard_body(keys));
        lemma_keyboard_body_split(keys);
        lemma_keys_from_hex_pieces(keys);
    }
}

// ---------------------------------------------------------------------------
// Reference mode executable code
// ---------------------------------------------------------------------------
impl ReferenceMode {
    /// Decodes a reference-mode token: `A` or `R`.
    pub fn decode(s: &str) -> (r: Result<ReferenceMode, ()>)
        ensures
            match r {
                Ok(m) => mode_dec(s@) == Some(m),
                Err(_) => mode_dec(s@) is None,
            },
    {
        let v = str_to_chars(s);
        if chars_eq_str(v.as_slice(), "A") {
            Ok(ReferenceMode::Absolute)
        } else if chars_eq_str(v.as_slice(), "R") {
            Ok(ReferenceMode::Relative)
        } else {
            Err(())
        }
    }

    /// Encodes the mode as its letter.
    pub fn encode(&self) -> (r: String)
        ensures
            r@ == seq![mode_char(*self)],
    {
        proof {
            reveal_strlit("A");
            reveal_strlit("R");
        }
        match self {
            ReferenceMode::Absolute => {
                let r = String::from_str("A");
                assert(r@ =~= seq![mode_char(ReferenceMode::Absolute)]);
                r
            },
            ReferenceMode::Relative => {
                let r = String::from_str("R");
                assert(r@ =~= seq![mode_char(ReferenceMode::Relative)]);
                r
            },
        }
    }
}

// ---------------------------------------------------------------------------
// Mouse executable code
// ---------------------------------------------------------------------------
impl MouseInput {
    /// Decodes a mouse sub-field such as `M166:270:A:1....:0`.
    pub fn decode(s: &str) -> (r: Result<MouseInput, InvalidInputsError>)
        ensures
            models(r, mouse_dec(s@)),
    {
        let v = str_to_chars(s);
        Self::decode_chars(v.as_slice())
    }

    fn decode_chars(v: &[char]) -> (r: Result<MouseInput, InvalidInputsError>)
        ensures
            models(r, mouse_dec(v@)),
    {
        let n = v.len();
        if n == 0 || v[0] != 'M' {
            return Err(InvalidInputsError::MissingMarker(chars_to_string(v)));
        }
        let rest = vstd::slice::slice_subrange(v, 1, n);
        assert(rest@ =~= v@.drop_first());
        let pieces = split_chars(rest, ':');
        let ghost ps = split_on(v@.drop_first(), ':');
        if pieces.len() < 4 {
            return Err(InvalidInputsError::WrongFieldCount(chars_to_string(v)));
        }
        assert(pieces@[0]@ == ps[0] && pieces@[1]@ == ps[1] && pieces@[2]@ == ps[2]
            && pieces@[3]@ == ps[3]);
        let xpos = match parse_i32_chars(pieces[0].as_slice()) {
            Some(x) => x,
            None => {
                return Err(
                    InvalidInputsError::InvalidCoordinate(chars_to_string(pieces[0].as_slice())),
                );
            },
        };
        let ypos = match parse_i32_chars(pieces[1].as_slice()) {
            Some(y) => y,
            None => {
                return Err(
                    InvalidInputsError::InvalidCoordinate(chars_to_string(pieces[1].as_slice())),
                );
            },
        };
        let reference_mode = if chars_eq_str(pieces[2].as_slice(), "A") {
            ReferenceMode::Absolute
        } else if chars_eq_str(pieces[2].as_slice(), "R") {
            ReferenceMode::Relative
        } else {
            return Err(InvalidInputsError::InvalidMode(chars_to_string(pieces[2].as_slice())));
        };
        let btn = pieces[3].as_slice();
        if btn.len() != 5 {
            return Err(
                InvalidInputsError::WrongButtonFieldLength(chars_to_string(pieces[3].as_slice())),
            );
        }
        Ok(
            MouseInput {
                xpos,
                ypos,
                reference_mode,
                left_click: btn[0] != '.',
                middle_click: btn[1] != '.',
                right_click: btn[2] != '.',
                button4: btn[3] != '.',
                button5: btn[4] != '.',
            },
        )
    }

    /// Encodes the mouse state canonically: canonical digits for pressed
    /// buttons, `.` otherwise, and the trailing `:0` stub.
    pub fn encode(&self) -> (r: String)
        ensures
            r@ == mouse_text(*self),
    {
        let mut out: Vec<char> = Vec::new();
        self.push_text(&mut out);
        assert(out@ =~= mouse_text(*self));
        chars_to_string(out.as_slice())
    }

    /// Appends the canonical mouse text.
    fn push_text(&self, out: &mut Vec<char>)
        ensures
            final(out)@ == old(out)@ + mouse_text(*self),
    {
        let mut part = self.text_chars();
        out.append(&mut part);
    }

    /// The canonical mouse text as characters.
    fn text_chars(&self) -> (out: Vec<char>)
        ensures
            out@ == mouse_text(*self),
    {
        let ghost xt = int_text(self.xpos as int);
        let ghost yt = int_text(self.ypos as int);
        let mut out: Vec<char> = Vec::new();
        out.push('M');
        push_dec_i64(&mut out, self.xpos as i64);
        proof {
            assert(out@ =~= seq!['M'] + xt);
        }
        out.push(':');
        push_dec_i64(&mut out, self.ypos as i64);
        proof {
            assert(out@ =~= seq!['M'] + xt + seq![':'] + yt);
        }
        out.push(':');
        match self.reference_mode {
            ReferenceMode::Absolute => out.push('A'),
            ReferenceMode::Relative => out.push('R'),
        }
        out.push(':');
        proof {
            assert(out@ =~= seq!['M'] + xt + seq![':'] + yt + seq![':'] + seq![
                mode_char(self.reference_mode),
            ] + seq![':']);
        }
        self.push_buttons(&mut out);
        out.push(':');
        out.push('0');
        proof {
            assert(out@ =~= mouse_text(*self));
        }
        out
    }

    /// Appends the canonical five-character button field.
    fn push_buttons(&self, out: &mut Vec<char>)
        ensures
            final(out)@ == old(out)@ + buttons_text(*self),
    {
        out.push(if self.left_click {
            '1'
        } else {
            '.'
        });
        out.push(if self.middle_click {
            '2'
        } else {
            '.'
        });
        out.push(if self.right_click {
            '3'
        } else {
            '.'
        });
        out.push(if self.button4 {
            '4'
        } else {
            '.'
        });
        out.push(if self.button5 {
            '5'
        } else {
            '.'
        });
        assert(out@ =~= old(out)@ + buttons_text(*self));
    }
}

// ---------------------------------------------------------------------------
// Mouse round trip
// ---------------------------------------------------------------------------
/// The button field's five characters are canonical digits or dots.
proof fn lemma_buttons_clean(m: MouseInput)
    ensures
        buttons_text(m).len() == 5,
        no_char(buttons_text(m), ':'),
        no_char(buttons_text(m), '|'),
        no_char(buttons_text(m), '\n'),
{
    let b = buttons_text(m);
    assert forall|i: int| 0 <= i < b.len() implies b[i] != ':' && b[i] != '|' && b[i] != '\n' by {
        assert('.' as u32 == 46 && '1' as u32 == 49 && '2' as u32 == 50 && '3' as u32 == 51
            && '4' as u32 == 52 && '5' as u32 == 53 && ':' as u32 == 58 && '|' as u32 == 124
            && '\n' as u32 == 10);
    }
}

/// The mouse text never holds `|` or a newline, and opens with `M`.
pub proof fn lemma_mouse_text_clean(m: MouseInput)
    ensures
        mouse_text(m).len() >= 1,
        mouse_text(m)[0] == 'M',
        no_char(mouse_text(m), '|'),
        no_char(mouse_text(m), '\n'),
{
    lemma_int_text_clean(m.xpos as int);
    lemma_int_text_clean(m.ypos as int);
    lemma_buttons_clean(m);
    let xt = int_text(m.xpos as int);
    let yt = int_text(m.ypos as int);
    let md = seq![mode_char(m.reference_mode)];
    let bt = buttons_text(m);
    assert('M' as u32 == 77 && 'A' as u32 == 65 && 'R' as u32 == 82 && ':' as u32 == 58
        && '0' as u32 == 48 && '|' as u32 == 124 && '\n' as u32 == 10);
    assert(no_char(seq!['M'], '|') && no_char(seq!['M'], '\n'));
    assert(no_char(seq![':'], '|') && no_char(seq![':'], '\n'));
    assert(no_char(md, '|') && no_char(md, '\n'));
    assert(no_char(seq![':', '0'], '|') && no_char(seq![':', '0'], '\n'));
    lemma_no_char_concat(seq!['M'], xt, '|');
    lemma_no_char_concat(seq!['M'] + xt, seq![':'], '|');
    lemma_no_char_concat(seq!['M'] + xt + seq![':'], yt, '|');
    lemma_no_char_concat(seq!['M'] + xt + seq![':'] + yt, seq![':'], '|');
    lemma_no_char_concat(seq!['M'] + xt + seq![':'] + yt + seq![':'], md, '|');
    lemma_no_char_concat(seq!['M'] + xt + seq![':'] + yt + seq![':'] + md, seq![':'], '|');
    lemma_no_char_concat(seq!['M'] + xt + seq![':'] + yt + seq![':'] + md + seq![':'], bt, '|');
    lemma_no_char_concat(
        seq!['M'] + xt + seq![':'] + yt + seq![':'] + md + seq![':'] + bt,
        seq![':', '0'],
        '|',
    );
    lemma_no_char_concat(seq!['M'], xt, '\n');
    lemma_no_char_concat(seq!['M'] + xt, seq![':'], '\n');
    lemma_no_char_concat(seq!['M'] + xt + seq![':'], yt, '\n');
    lemma_no_char_concat(seq!['M'] + xt + seq![':'] + yt, seq![':'], '\n');
    lemma_no_char_concat(seq!['M'] + xt + seq![':'] + yt + seq![':'], md, '\n');
    lemma_no_char_concat(seq!['M'] + xt + seq![':'] + yt + seq![':'] + md, seq![':'], '\n');
    lemma_no_char_concat(seq!['M'] + xt + seq![':'] + yt + seq![':'] + md + seq![':'], bt, '\n');
    lemma_no_char_concat(
        seq!['M'] + xt + seq![':'] + yt + seq![':'] + md + seq![':'] + bt,
        seq![':', '0'],
        '\n',
    );
}

/// Round trip: decoding the canonical mouse text gives the state back, for
/// every mouse state.
pub proof fn lemma_mouse_round_trip(m: MouseInput)
    ensures
        mouse_dec(mouse_text(m)) == Ok::<MouseInput, InputsErrV>(m),
{
    let w = mouse_text(m);
    let xt = int_text(m.xpos as int);
    let yt = int_text(m.ypos as int);
    let md = seq![mode_char(m.reference_mode)];
    let bt = buttons_text(m);
    lemma_int_text_clean(m.xpos as int);
    lemma_int_text_clean(m.ypos as int);
    lemma_buttons_clean(m);
    assert(w[0] == 'M');
    let r4 = seq!['0'];
    let r3 = bt + seq![':'] + r4;
    let r2 = md + seq![':'] + r3;
    let r1 = yt + seq![':'] + r2;
    let rest = xt + seq![':'] + r1;
    assert(w.drop_first() =~= rest);
    assert(no_char(r4, ':')) by {
        assert('0' as u32 == 48 && ':' as u32 == 58);
    }
    assert(no_char(md, ':')) by {
        assert('A' as u32 == 65 && 'R' as u32 == 82 && ':' as u32 == 58);
    }
    lemma_split_no_sep(r4, ':');
    lemma_split_sep(bt, r4, ':');
    assert(bt + seq![':'] + r4 =~= r3);
    lemma_split_sep(md, r3, ':');
    assert(md + seq![':'] + r3 =~= r2);
    lemma_split_sep(yt, r2, ':');
    assert(yt + seq![':'] + r2 =~= r1);
    lemma_split_sep(xt, r1, ':');
    assert(xt + seq![':'] + r1 =~= rest);
    let ps = split_on(rest, ':');
    assert(ps =~~= seq![xt] + (seq![yt] + (seq![md] + (seq![bt] + seq![r4]))));
    assert(ps.len() == 5);
    assert(ps[0] == xt && ps[1] == yt && ps[2] == md && ps[3] == bt);
    lemma_parse_int_text(m.xpos as int, i32::MIN as int, i32::MAX as int);
    lemma_parse_int_text(m.ypos as int, i32::MIN as int, i32::MAX as int);
    assert(crate::num::parse_i32(xt) == Some(m.xpos));
    assert(crate::num::parse_i32(yt) == Some(m.ypos));
    reveal_strlit("A");
    reveal_strlit("R");
    match m.reference_mode {
        ReferenceMode::Absolute => {
            assert(md =~= "A"@);
            assert(mode_dec(md) == Some(ReferenceMode::Absolute));
        },
        ReferenceMode::Relative => {
            assert(md =~= "R"@);
            assert(md != "A"@) by {
                assert('A' as u32 == 65 && 'R' as u32 == 82);
                assert(md[0] == 'R' && "A"@[0] == 'A');
            }
            assert(mode_dec(md) == Some(ReferenceMode::Relative));
        },
    }
    assert(bt.len() == 5);
    assert('.' as u32 == 46 && '1' as u32 == 49 && '2' as u32 == 50 && '3' as u32 == 51
        && '4' as u32 == 52 && '5' as u32 == 53);
    assert((bt[0] != '.') == m.left_click);
    assert((bt[1] != '.') == m.middle_click);
    assert((bt[2] != '.') == m.right_click);
    assert((bt[3] != '.') == m.button4);
    assert((bt[4] != '.') == m.button5);
}

// ---------------------------------------------------------------------------
// Frame records
// ---------------------------------------------------------------------------
/// The inputs of one frame. Controller, flag and variable-framerate sub-fields
/// are recognized syntactically but carry no decoded data.
#[derive(Clone, Debug, Default, PartialEq, Eq)]
pub struct Input {
    /// Keyboard input, when the frame has a keyboard sub-field.
    pub keyboard: Option<KeyboardInput>,
    /// Mouse input, when the frame has a mouse sub-field.
    pub mouse: Option<MouseInput>,
}

/// Specification-level image of [`Input`].
pub struct InputV {
    pub keyboard: Option<Seq<u32>>,
    pub mouse: Option<MouseInput>,
}

impl View for Input {
    type V = InputV;

    open spec fn view(&self) -> InputV {
        InputV {
            keyboard: match self.keyboard {
                Some(k) => Some(k@),
                None => None,
            },
            mouse: self.mouse,
        }
    }
}

/// The record with no inputs at all.
pub open spec fn absent_input() -> InputV {
    InputV { keyboard: None, mouse: None }
}

/// Canonical text of a frame record: `|`, a keyboard sub-field closed by `|`
/// when present, then a mouse sub-field closed by `|` when present. The
/// all-absent record is the bare `|`.
pub open spec fn input_text(i: InputV) -> Seq<char> {
    seq!['|'] + (match i.keyboard {
        Some(ks) => keyboard_text(ks) + seq!['|'],
        None => Seq::<char>::empty(),
    }) + (match i.mouse {
        Some(m) => mouse_text(m) + seq!['|'],
        None => Seq::<char>::empty(),
    })
}

/// Reading of the `|`-separated sub-fields of a frame's interior: the first
/// character of each selects its sub-decoder; `C`, `F` and `T` sub-fields are
/// recognized and skipped; anything else is unrecognized.
pub open spec fn sections_fold(acc: InputV, ss: Seq<Seq<char>>) -> Result<InputV, InputsErrV>
    decreases ss.len(),
{
    if ss.len() == 0 {
        Ok(acc)
    } else {
        let sec = ss[0];
        if sec.len() == 0 {
            Err(InputsErrV::UnrecognizedSubfield(sec))
        } else if sec[0] == 'K' {
            match keyboard_dec(sec) {
                Ok(ks) => sections_fold(
                    InputV { keyboard: Some(ks), mouse: acc.mouse },
                    ss.drop_first(),
                ),
                Err(e) => Err(e),
            }
        } else if sec[0] == 'M' {
            match mouse_dec(sec) {
                Ok(m) => sections_fold(
                    InputV { keyboard: acc.keyboard, mouse: Some(m) },
                    ss.drop_first(),
                ),
                Err(e) => Err(e),
            }
        } else if sec[0] == 'C' || sec[0] == 'F' || sec[0] == 'T' {
            sections_fold(acc, ss.drop_first())
        } else {
            Err(InputsErrV::UnrecognizedSubfield(sec))
        }
    }
}

/// Reading of one frame line: bounded by `|` on both sides, the bare `|`
/// being the all-absent record.
pub open spec fn input_dec(s: Seq<char>) -> Result<InputV, InputsErrV> {
    if s == seq!['|'] {
        Ok(absent_input())
    } else if s.len() < 2 || s[0] != '|' || s.last() != '|' {
        Err(InputsErrV::MissingMarker(s))
    } else {
        sections_fold(absent_input(), split_on(s.subrange(1, s.len() - 1), '|'))
    }
}

impl Input {
    /// Decodes one frame line such as `|K7a|M166:270:A:1....:0|`.
    pub fn decode(s: &str) -> (r: Result<Input, InvalidInputsError>)
        ensures
            models(r, input_dec(s@)),
    {
        let v = str_to_chars(s);
        Self::decode_chars(v.as_slice())
    }

    fn decode_chars(v: &[char]) -> (r: Result<Input, InvalidInputsError>)
        ensures
            models(r, input_dec(v@)),
    {
        let n = v.len();
        if n == 1 && v[0] == '|' {
            assert(v@ =~= seq!['|']);
            return Ok(Input { keyboard: None, mouse: None });
        }
        if n < 2 || v[0] != '|' || v[n - 1] != '|' {
            proof {
                if v@ =~= seq!['|'] {
                    assert(v@.len() == 1 && v@[0] == '|');
                }
            }
            return Err(InvalidInputsError::MissingMarker(chars_to_string(v)));
        }
        proof {
            if v@ =~= seq!['|'] {
                assert(v@.len() == 1);
            }
            assert(v@.last() == '|');
        }
        let interior = vstd::slice::slice_subrange(v, 1, n - 1);
        assert(interior@ =~= v@.subrange(1, v@.len() - 1));
        let sections = split_chars(interior, '|');
        let ghost ss = split_on(v@.subrange(1, v@.len() - 1), '|');
        let m = sections.len();
        let mut cur = Input { keyboard: None, mouse: None };
        let mut i: usize = 0;
        proof {
            assert(ss.subrange(0, m as int) =~= ss);
            assert(cur@ == absent_input());
        }
        while i < m
            invariant
                m == ss.len(),
                sections.deep_view() =~~= ss,
                i <= m,
                input_dec(v@) == sections_fold(cur@, ss.subrange(i as int, m as int)),
            decreases m - i,
        {
            let ghost suffix = ss.subrange(i as int, m as int);
            proof {
                assert(suffix.len() > 0 && suffix[0] == ss[i as int]);
                assert(suffix.drop_first() =~= ss.subrange(i + 1 as int, m as int));
                assert(sections@[i as int]@ == ss[i as int]);
            }
            let sec = sections[i].as_slice();
            if sec.len() == 0 {
                return Err(InvalidInputsError::UnrecognizedSubfield(chars_to_string(sec)));
            }
            let lead = sec[0];
            if lead == 'K' {
                match KeyboardInput::decode_chars(sec) {
                    Ok(k) => {
                        cur.keyboard = Some(k);
                    },
                    Err(e) => {
                        return Err(e);
                    },
                }
            } else if lead == 'M' {
                match MouseInput::decode_chars(sec) {
                    Ok(mi) => {
                        cur.mouse = Some(mi);
                    },
                    Err(e) => {
                        return Err(e);
                    },
                }
            } else if lead == 'C' || lead == 'F' || lead == 'T' {
            } else {
                return Err(InvalidInputsError::UnrecognizedSubfield(chars_to_string(sec)));
            }
            i = i + 1;
        }
        proof {
            assert(ss.subrange(m as int, m as int) =~= Seq::<Seq<char>>::empty());
        }
        Ok(cur)
    }

    /// Encodes the frame canonically: keyboard before mouse, regardless of the
    /// order the decoded text gave them.
    pub fn encode(&self) -> (r: String)
        ensures
            r@ == input_text(self@),
    {
        let mut out: Vec<char> = Vec::new();
        self.push_text(&mut out);
        assert(out@ =~= input_text(self@));
        chars_to_string(out.as_slice())
    }

    /// Appends the canonical frame text.
    fn push_text(&self, out: &mut Vec<char>)
        ensures
            final(out)@ == old(out)@ + input_text(self@),
    {
        let ghost base = out@;
        out.push('|');
        if let Some(k) = &self.keyboard {
            k.push_text(out);
            out.push('|');
        }
        proof {
            assert(out@ =~= base + seq!['|'] + (match self@.keyboard {
                Some(ks) => keyboard_text(ks) + seq!['|'],
                None => Seq::<char>::empty(),
            }));
        }
        if let Some(m) = &self.mouse {
            m.push_text(out);
            out.push('|');
        }
        proof {
            assert(out@ =~= base + input_text(self@));
        }
    }
}

// ---------------------------------------------------------------------------
// Frame record round trip
// ---------------------------------------------------------------------------
/// The frame text opens with `|` and never holds a newline.
pub proof fn lemma_input_text_clean(i: InputV)
    ensures
        input_text(i).len() >= 1,
        input_text(i)[0] == '|',
        no_char(input_text(i), '\n'),
{
    let kp = match i.keyboard {
        Some(ks) => keyboard_text(ks) + seq!['|'],
        None => Seq::<char>::empty(),
    };
    let mp = match i.mouse {
        Some(m) => mouse_text(m) + seq!['|'],
        None => Seq::<char>::empty(),
    };
    assert('|' as u32 == 124 && '\n' as u32 == 10);
    assert(no_char(seq!['|'], '\n'));
    match i.keyboard {
        Some(ks) => {
            lemma_keyboard_text_clean(ks);
            lemma_no_char_concat(keyboard_text(ks), seq!['|'], '\n');
        },
        None => {},
    }
    match i.mouse {
        Some(m) => {
            lemma_mouse_text_clean(m);
            lemma_no_char_concat(mouse_text(m), seq!['|'], '\n');
        },
        None => {},
    }
    lemma_no_char_concat(seq!['|'], kp, '\n');
    lemma_no_char_concat(seq!['|'] + kp, mp, '\n');
}

/// Round trip: decoding the canonical frame text gives the record back, for
/// every record.
pub proof fn lemma_input_round_trip(i: InputV)
    ensures
        input_dec(input_text(i)) == Ok::<InputV, InputsErrV>(i),
{
    reveal_with_fuel(sections_fold, 4);
    let w = input_text(i);
    match i.keyboard {
        Some(ks) => {
            lemma_keyboard_text_clean(ks);
            let kt = keyboard_text(ks);
            match i.mouse {
                Some(m) => {
                    lemma_mouse_text_clean(m);
                    let mt = mouse_text(m);
                    assert(w =~= seq!['|'] + kt + seq!['|'] + mt + seq!['|']);
                    assert(w.len() >= 5);
                    assert(w[0] == '|' && w.last() == '|');
                    let interior = w.subrange(1, w.len() - 1);
                    assert(interior =~= kt + seq!['|'] + mt);
                    lemma_split_no_sep(mt, '|');
                    lemma_split_sep(kt, mt, '|');
                    let ss = split_on(interior, '|');
                    assert(ss =~~= seq![kt] + seq![mt]);
                    assert(ss.len() == 2 && ss[0] == kt && ss[1] == mt);
                    assert(kt[0] == 'K' && mt[0] == 'M');
                    assert('K' as u32 == 75 && 'M' as u32 == 77);
                    lemma_keyboard_round_trip(ks);
                    lemma_mouse_round_trip(m);
                    assert(ss.drop_first() =~= seq![mt]);
                    assert(seq![mt].drop_first() =~= Seq::<Seq<char>>::empty());
                    assert(sections_fold(absent_input(), ss) == Ok::<InputV, InputsErrV>(
                        InputV { keyboard: Some(ks), mouse: Some(m) },
                    ));
                },
                None => {
                    assert(w =~= seq!['|'] + kt + seq!['|']);
                    assert(w.len() >= 3);
                    assert(w[0] == '|' && w.last() == '|');
                    let interior = w.subrange(1, w.len() - 1);
                    assert(interior =~= kt);
                    lemma_split_no_sep(kt, '|');
                    let ss = split_on(interior, '|');
                    assert(ss =~~= seq![kt]);
                    assert(kt[0] == 'K');
                    assert('K' as u32 == 75);
                    lemma_keyboard_round_trip(ks);
                    assert(seq![kt].drop_first() =~= Seq::<Seq<char>>::empty());
                    assert(sections_fold(absent_input(), ss) == Ok::<InputV, InputsErrV>(
                        InputV { keyboard: Some(ks), mouse: None },
                    ));
                },
            }
        },
        None => {
            match i.mouse {
                Some(m) => {
                    lemma_mouse_text_clean(m);
                    let mt = mouse_text(m);
                    assert(w =~= seq!['|'] + mt + seq!['|']);
                    assert(w.len() >= 3);
                    assert(w[0] == '|' && w.last() == '|');
                    let interior = w.subrange(1, w.len() - 1);
                    assert(interior =~= mt);
                    lemma_split_no_sep(mt, '|');
                    let ss = split_on(interior, '|');
                    assert(ss =~~= seq![mt]);
                    assert(mt[0] == 'M');
                    assert('M' as u32 == 77 && 'K' as u32 == 75);
                    lemma_mouse_round_trip(m);
                    assert(seq![mt].drop_first() =~= Seq::<Seq<char>>::empty());
                    assert(sections_fold(absent_input(), ss) == Ok::<InputV, InputsErrV>(
                        InputV { keyboard: None, mouse: Some(m) },
                    ));
                },
                None => {
                    assert(w =~= seq!['|']);
                },
            }
        },
    }
}

// ---------------------------------------------------------------------------
// Frame sequences
// ---------------------------------------------------------------------------
/// A sequence of inputs, one per frame; order is frame order.
#[derive(Clone, Debug, Default, PartialEq, Eq)]
pub struct Inputs(pub Vec<Input>);

impl View for Inputs {
    type V = Seq<InputV>;

    open spec fn view(&self) -> Seq<InputV> {
        self.0@.map_values(|x: Input| x@)
    }
}

/// Canonical text of a frame sequence: one newline-terminated line per frame.
pub open spec fn inputs_text(frames: Seq<InputV>) -> Seq<char> {
    crate::text::cat_lines(frames.map_values(|f: InputV| input_text(f)))
}

/// Reading of the physical lines of an input blob: a line is a frame record
/// iff it opens with `|`; every other line is skipped.
pub open spec fn lines_fold(ls: Seq<Seq<char>>) -> Result<Seq<InputV>, InputsErrV>
    decreases ls.len(),
{
    if ls.len() == 0 {
        Ok(Seq::<InputV>::empty())
    } else {
        let l = ls[0];
        if l.len() == 0 || l[0] != '|' {
            lines_fold(ls.drop_first())
        } else {
            match input_dec(l) {
                Ok(f) => match lines_fold(ls.drop_first()) {
                    Ok(rest) => Ok(seq![f] + rest),
                    Err(e) => Err(e),
                },
                Err(e) => Err(e),
            }
        }
    }
}

/// Reading of a whole input blob.
pub open spec fn inputs_dec(s: Seq<char>) -> Result<Seq<InputV>, InputsErrV> {
    lines_fold(split_on(s, '\n'))
}

impl Inputs {
    /// Decodes a multi-line input blob; lines not opening with `|` are
    /// skipped, and the first bad frame line aborts the decode.
    pub fn decode(s: &str) -> (r: Result<Inputs, InvalidInputsError>)
        ensures
            models(r, inputs_dec(s@)),
    {
        let v = str_to_chars(s);
        let lines = split_chars(v.as_slice(), '\n');
        let ghost ls = split_on(s@, '\n');
        let m = lines.len();
        let mut frames: Vec<Input> = Vec::new();
        let mut i: usize = 0;
        proof {
            assert(ls.subrange(0, m as int) =~= ls);
            assert(frames@.map_values(|x: Input| x@) =~= Seq::<InputV>::empty());
        }
        while i < m
            invariant
                m == ls.len(),
                lines.deep_view() =~~= ls,
                i <= m,
                inputs_dec(s@) == (match lines_fold(ls.subrange(i as int, m as int)) {
                    Ok(rest) => Ok::<Seq<InputV>, InputsErrV>(
                        frames@.map_values(|x: Input| x@) + rest,
                    ),
                    Err(e) => Err::<Seq<InputV>, InputsErrV>(e),
                }),
            decreases m - i,
        {
            let ghost suffix = ls.subrange(i as int, m as int);
            proof {
                assert(suffix.len() > 0 && suffix[0] == ls[i as int]);
                assert(suffix.drop_first() =~= ls.subrange(i + 1 as int, m as int));
                assert(lines@[i as int]@ == ls[i as int]);
            }
            let line = lines[i].as_slice();
            if line.len() > 0 && line[0] == '|' {
                match Input::decode_chars(line) {
                    Ok(f) => {
                        let ghost old_frames = frames@.map_values(|x: Input| x@);
                        let ghost fv = f@;
                        frames.push(f);
                        proof {
                            assert(frames@.map_values(|x: Input| x@) =~= old_frames.push(fv));
                            if let Ok(rest) = lines_fold(ls.subrange(i + 1 as int, m as int)) {
                                assert(old_frames + (seq![fv] + rest) =~= old_frames.push(fv)
                                    + rest);
                            }
                        }
                    },
                    Err(e) => {
                        return Err(e);
                    },
                }
            }
            i = i + 1;
        }
        proof {
            assert(ls.subrange(m as int, m as int) =~= Seq::<Seq<char>>::empty());
            assert(frames@.map_values(|x: Input| x@) + Seq::<InputV>::empty() =~= frames@.map_values(
                |x: Input| x@,
            ));
        }
        Ok(Inputs(frames))
    }

    /// Encodes the sequence canonically: one newline-terminated line per
    /// frame, in order, and nothing else.
    pub fn encode(&self) -> (r: String)
        ensures
            r@ == inputs_text(self@),
    {
        let mut out: Vec<char> = Vec::new();
        let n = self.0.len();
        let mut i: usize = 0;
        proof {
            assert(self.0@.subrange(0, 0).map_values(|x: Input| x@).map_values(
                |f: InputV| input_text(f),
            ) =~= Seq::<Seq<char>>::empty());
        }
        while i < n
            invariant
                n == self.0@.len(),
                i <= n,
                out@ == crate::text::cat_lines(
                    self.0@.subrange(0, i as int).map_values(|x: Input| x@).map_values(
                        |f: InputV| input_text(f),
                    ),
                ),
            decreases n - i,
        {
            let ghost done = self.0@.subrange(0, i as int).map_values(|x: Input| x@).map_values(
                |f: InputV| input_text(f),
            );
            let ghost fv = self.0@[i as int]@;
            self.0[i].push_text(&mut out);
            out.push('\n');
            proof {
                crate::text::lemma_cat_lines_snoc(done, input_text(fv));
                assert(self.0@.subrange(0, i + 1 as int).map_values(|x: Input| x@).map_values(
                    |f: InputV| input_text(f),
                ) =~= done.push(input_text(fv)));
                assert(out@ =~= crate::text::cat_lines(done) + input_text(fv) + seq!['\n']);
            }
            i = i + 1;
        }
        proof {
            assert(self.0@.subrange(0, n as int) =~= self.0@);
        }
        chars_to_string(out.as_slice())
    }

    /// The input of frame `idx`; frame index is position.
    pub fn index(&self, idx: usize) -> (r: &Input)
        requires
            idx < self@.len(),
        ensures
            r@ == self@[idx as int],
    {
        &self.0[idx]
    }

    /// The number of frames.
    pub fn len(&self) -> (r: usize)
        ensures
            r == self@.len(),
    {
        self.0.len()
    }
}

// ---------------------------------------------------------------------------
// Frame sequence round trip
// ---------------------------------------------------------------------------
proof fn lemma_lines_fold_enc(frames: Seq<InputV>)
    ensures
        lines_fold(frames.map_values(|f: InputV| input_text(f)) + seq![Seq::<char>::empty()])
            == Ok::<Seq<InputV>, InputsErrV>(frames),
    decreases frames.len(),
{
    reveal_with_fuel(lines_fold, 3);
    let ls = frames.map_values(|f: InputV| input_text(f)) + seq![Seq::<char>::empty()];
    if frames.len() == 0 {
        assert(ls.len() == 1 && ls[0] =~= Seq::<char>::empty());
        assert(ls.drop_first() =~= Seq::<Seq<char>>::empty());
        assert(frames =~= Seq::<InputV>::empty());
    } else {
        lemma_input_text_clean(frames[0]);
        assert(ls[0] == input_text(frames[0]));
        lemma_input_round_trip(frames[0]);
        lemma_lines_fold_enc(frames.drop_first());
        assert(ls.drop_first() =~= frames.drop_first().map_values(|f: InputV| input_text(f))
            + seq![Seq::<char>::empty()]);
        assert(seq![frames[0]] + frames.drop_first() =~= frames);
    }
}

/// Round trip: decoding the canonical text of any frame sequence gives the
/// sequence back.
pub proof fn lemma_inputs_round_trip(frames: Seq<InputV>)
    ensures
        inputs_dec(inputs_text(frames)) == Ok::<Seq<InputV>, InputsErrV>(frames),
{
    let lines = frames.map_values(|f: InputV| input_text(f));
    assert forall|j: int| 0 <= j < lines.len() implies no_char(#[trigger] lines[j], '\n') by {
        lemma_input_text_clean(frames[j]);
    }
    lemma_split_cat_lines(lines);
    assert(lines + seq![Seq::<char>::empty()] =~~= lines.push(Seq::<char>::empty()));
    lemma_lines_fold_enc(frames);
}

} // verus!
