//! Numeric text: decimal and hexadecimal readings and canonical writings of
//! the integer types the formats carry, with round-trip lemmas.

use crate::text::no_char;
use vstd::prelude::*;

verus! {

pub open spec fn is_dec_digit(c: char) -> bool {
    48 <= c as u32 <= 57
}

pub open spec fn dec_digit_val(c: char) -> int {
    c as u32 - 48
}

pub open spec fn is_hex_digit(c: char) -> bool {
    is_dec_digit(c) || 97 <= c as u32 <= 102 || 65 <= c as u32 <= 70
}

pub open spec fn hex_digit_val(c: char) -> int {
    if is_dec_digit(c) {
        dec_digit_val(c)
    } else if 97 <= c as u32 <= 102 {
        c as u32 - 87
    } else {
        c as u32 - 55
    }
}

pub open spec fn all_dec(s: Seq<char>) -> bool {
    forall|i: int| 0 <= i < s.len() ==> is_dec_digit(#[trigger] s[i])
}

pub open spec fn all_hex(s: Seq<char>) -> bool {
    forall|i: int| 0 <= i < s.len() ==> is_hex_digit(#[trigger] s[i])
}

/// Value of a decimal digit string, most significant digit first.
pub open spec fn dec_val(s: Seq<char>) -> int
    decreases s.len(),
{
    if s.len() == 0 {
        0
    } else {
        dec_val(s.drop_last()) * 10 + dec_digit_val(s.last())
    }
}

/// Value of a hexadecimal digit string, most significant digit first.
pub open spec fn hex_val(s: Seq<char>) -> int
    decreases s.len(),
{
    if s.len() == 0 {
        0
    } else {
        hex_val(s.drop_last()) * 16 + hex_digit_val(s.last())
    }
}

pub open spec fn dec_char(d: int) -> char {
    if d == 0 {
        '0'
    } else if d == 1 {
        '1'
    } else if d == 2 {
        '2'
    } else if d == 3 {
        '3'
    } else if d == 4 {
        '4'
    } else if d == 5 {
        '5'
    } else if d == 6 {
        '6'
    } else if d == 7 {
        '7'
    } else if d == 8 {
        '8'
    } else {
        '9'
    }
}

pub open spec fn hex_char(d: int) -> char {
    if d < 10 {
        dec_char(d)
    } else if d == 10 {
        'a'
    } else if d == 11 {
        'b'
    } else if d == 12 {
        'c'
    } else if d == 13 {
        'd'
    } else if d == 14 {
        'e'
    } else {
        'f'
    }
}

/// Canonical decimal text of a natural number: no sign, no leading zeros.
pub open spec fn dec_text(n: nat) -> Seq<char>
    decreases n,
{
    if n < 10 {
        seq![dec_char(n as int)]
    } else {
        dec_text(n / 10) + seq![dec_char((n % 10) as int)]
    }
}

/// Canonical lower-case hexadecimal text of a natural number.
pub open spec fn hex_text(n: nat) -> Seq<char>
    decreases n,
{
    if n < 16 {
        seq![hex_char(n as int)]
    } else {
        hex_text(n / 16) + seq![hex_char((n % 16) as int)]
    }
}

/// Canonical decimal text of a signed value: a `-` sign exactly when negative.
pub open spec fn int_text(n: int) -> Seq<char> {
    if n < 0 {
        seq!['-'] + dec_text((-n) as nat)
    } else {
        dec_text(n as nat)
    }
}

/// Reading of an unsigned decimal number, as `u64::from_str` admits it: an
/// optional leading `+`, then one or more digits, the value within `bound`.
pub open spec fn parse_dec(s: Seq<char>, bound: int) -> Option<int> {
    let ds = if s.len() > 0 && s[0] == '+' {
        s.drop_first()
    } else {
        s
    };
    if ds.len() > 0 && all_dec(ds) && dec_val(ds) <= bound {
        Some(dec_val(ds))
    } else {
        None
    }
}

pub open spec fn parse_u64(s: Seq<char>) -> Option<u64> {
    match parse_dec(s, u64::MAX as int) {
        Some(v) => Some(v as u64),
        None => None,
    }
}

pub open spec fn parse_u32(s: Seq<char>) -> Option<u32> {
    match parse_dec(s, u32::MAX as int) {
        Some(v) => Some(v as u32),
        None => None,
    }
}

/// Reading of a signed decimal number, as `i64::from_str` admits it: an
/// optional `+` or `-` sign, then one or more digits, the value in range.
pub open spec fn parse_int(s: Seq<char>, lo: int, hi: int) -> Option<int> {
    if s.len() > 0 && s[0] == '-' {
        let ds = s.drop_first();
        if ds.len() > 0 && all_dec(ds) && lo <= -dec_val(ds) {
            Some(-dec_val(ds))
        } else {
            None
        }
    } else {
        let ds = if s.len() > 0 && s[0] == '+' {
            s.drop_first()
        } else {
            s
        };
        if ds.len() > 0 && all_dec(ds) && dec_val(ds) <= hi {
            Some(dec_val(ds) as int)
        } else {
            None
        }
    }
}

pub open spec fn parse_i64(s: Seq<char>) -> Option<i64> {
    match parse_int(s, i64::MIN as int, i64::MAX as int) {
        Some(v) => Some(v as i64),
        None => None,
    }
}

pub open spec fn parse_i32(s: Seq<char>) -> Option<i32> {
    match parse_int(s, i32::MIN as int, i32::MAX as int) {
        Some(v) => Some(v as i32),
        None => None,
    }
}

/// Reading of a hexadecimal `u32`, as `u32::from_str_radix(s, 16)` admits it:
/// an optional leading `+`, then one or more hex digits of either case.
pub open spec fn parse_hex_u32(s: Seq<char>) -> Option<u32> {
    let ds = if s.len() > 0 && s[0] == '+' {
        s.drop_first()
    } else {
        s
    };
    if ds.len() > 0 && all_hex(ds) && hex_val(ds) <= u32::MAX as int {
        Some(hex_val(ds) as u32)
    } else {
        None
    }
}

/// Reading of a boolean, as `bool::from_str` admits it.
pub open spec fn parse_bool(s: Seq<char>) -> Option<bool> {
    if s == "true"@ {
        Some(true)
    } else if s == "false"@ {
        Some(false)
    } else {
        None
    }
}

pub open spec fn bool_text(b: bool) -> Seq<char> {
    if b {
        "true"@
    } else {
        "false"@
    }
}

// ---------------------------------------------------------------------------
// Lemmas
// ---------------------------------------------------------------------------
/// The canonical decimal text is made of digits and reads back to its value.
pub proof fn lemma_dec_text(n: nat)
    ensures
        dec_text(n).len() >= 1,
        all_dec(dec_text(n)),
        dec_val(dec_text(n)) == n,
    decreases n,
{
    if n < 10 {
        assert(dec_val(dec_text(n)) == dec_val(Seq::<char>::empty()) * 10 + dec_digit_val(
            dec_char(n as int),
        )) by {
            assert(dec_text(n).drop_last() =~= Seq::<char>::empty());
        }
    } else {
        lemma_dec_text(n / 10);
        let t = dec_text(n / 10) + seq![dec_char((n % 10) as int)];
        assert(t.drop_last() =~= dec_text(n / 10));
        assert(dec_val(t) == dec_val(dec_text(n / 10)) * 10 + dec_digit_val(
            dec_char((n % 10) as int),
        ));
        assert(all_dec(t)) by {
            assert(forall|i: int|
                0 <= i < t.len() - 1 ==> #[trigger] t[i] == dec_text(n / 10)[i]);
        }
    }
}

/// The canonical hexadecimal text is made of lower-case hex digits and reads
/// back to its value.
pub proof fn lemma_hex_text(n: nat)
    ensures
        hex_text(n).len() >= 1,
        all_hex(hex_text(n)),
        hex_val(hex_text(n)) == n,
        forall|i: int| 0 <= i < hex_text(n).len() ==> (#[trigger] hex_text(n)[i]) as u32 != 43
            && hex_text(n)[i] as u32 != 58,
    decreases n,
{
    if n < 16 {
        assert(hex_val(hex_text(n)) == hex_val(Seq::<char>::empty()) * 16 + hex_digit_val(
            hex_char(n as int),
        )) by {
            assert(hex_text(n).drop_last() =~= Seq::<char>::empty());
        }
    } else {
        lemma_hex_text(n / 16);
        let t = hex_text(n / 16) + seq![hex_char((n % 16) as int)];
        assert(t.drop_last() =~= hex_text(n / 16));
        assert(hex_val(t) == hex_val(hex_text(n / 16)) * 16 + hex_digit_val(
            hex_char((n % 16) as int),
        ));
        assert(forall|i: int|
            0 <= i < t.len() - 1 ==> #[trigger] t[i] == hex_text(n / 16)[i]);
    }
}

/// Reading the canonical decimal text of `n <= bound` gives `n` back.
pub proof fn lemma_parse_dec_text(n: nat, bound: int)
    requires
        n <= bound,
    ensures
        parse_dec(dec_text(n), bound) == Some(n as int),
{
    lemma_dec_text(n);
    assert(dec_text(n)[0] != '+') by {
        assert(is_dec_digit(dec_text(n)[0]));
        assert('+' as u32 == 43);
    }
}

/// Reading the canonical signed text of `n` in `[lo, hi]` gives `n` back.
pub proof fn lemma_parse_int_text(n: int, lo: int, hi: int)
    requires
        lo <= n <= hi,
    ensures
        parse_int(int_text(n), lo, hi) == Some(n),
{
    if n < 0 {
        lemma_dec_text((-n) as nat);
        let s = seq!['-'] + dec_text((-n) as nat);
        assert(s[0] == '-');
        assert(s.drop_first() =~= dec_text((-n) as nat));
    } else {
        lemma_dec_text(n as nat);
        assert(dec_text(n as nat)[0] != '-' && dec_text(n as nat)[0] != '+') by {
            assert(is_dec_digit(dec_text(n as nat)[0]));
            assert('+' as u32 == 43 && '-' as u32 == 45);
        }
    }
}

/// Reading the canonical hexadecimal text of a `u32` gives it back.
pub proof fn lemma_parse_hex_text(n: u32)
    ensures
        parse_hex_u32(hex_text(n as nat)) == Some(n),
{
    lemma_hex_text(n as nat);
}

/// Digits never collide with the formats' separator characters.
pub proof fn lemma_dec_digit_not_sep(c: char)
    requires
        is_dec_digit(c),
    ensures
        c != ':' && c != '|' && c != '\n' && c != '\r' && c != '=' && c != '-' && c != '+'
            && c != '.',
{
    assert(':' as u32 == 58 && '|' as u32 == 124 && '\n' as u32 == 10 && '\r' as u32 == 13
        && '=' as u32 == 61 && '-' as u32 == 45 && '+' as u32 == 43 && '.' as u32 == 46);
}

/// The signed decimal text holds only digits and a possible leading `-`.
pub proof fn lemma_int_text_clean(n: int)
    ensures
        int_text(n).len() >= 1,
        no_char(int_text(n), ':'),
        no_char(int_text(n), '|'),
        no_char(int_text(n), '\n'),
        int_text(n)[0] != '.',
        int_text(n).last() != '\r',
{
    let w = int_text(n);
    if n < 0 {
        lemma_dec_text((-n) as nat);
        assert forall|i: int| 0 <= i < w.len() implies w[i] != ':' && w[i] != '|' && w[i]
            != '\n' by {
            if i == 0 {
                assert(w[i] == '-');
                assert('-' as u32 == 45 && ':' as u32 == 58 && '|' as u32 == 124 && '\n' as u32
                    == 10);
            } else {
                assert(w[i] == dec_text((-n) as nat)[i - 1]);
                assert(is_dec_digit(w[i]));
                lemma_dec_digit_not_sep(w[i]);
            }
        }
        assert('-' as u32 == 45 && '.' as u32 == 46);
        assert(w.last() == dec_text((-n) as nat).last());
        lemma_dec_digit_not_sep(w.last());
    } else {
        lemma_dec_text(n as nat);
        assert forall|i: int| 0 <= i < w.len() implies w[i] != ':' && w[i] != '|' && w[i]
            != '\n' by {
            assert(is_dec_digit(w[i]));
            lemma_dec_digit_not_sep(w[i]);
        }
        assert(is_dec_digit(w[0]));
        lemma_dec_digit_not_sep(w[0]);
        lemma_dec_digit_not_sep(w.last());
    }
}

/// A digit string's value is never negative.
pub proof fn lemma_dec_val_nonneg(s: Seq<char>)
    requires
        all_dec(s),
    ensures
        dec_val(s) >= 0,
    decreases s.len(),
{
    if s.len() > 0 {
        assert(all_dec(s.drop_last())) by {
            assert(forall|i: int|
                0 <= i < s.drop_last().len() ==> s.drop_last()[i] == s[i]);
        }
        lemma_dec_val_nonneg(s.drop_last());
    }
}

/// A hex digit string's value is never negative.
pub proof fn lemma_hex_val_nonneg(s: Seq<char>)
    requires
        all_hex(s),
    ensures
        hex_val(s) >= 0,
    decreases s.len(),
{
    if s.len() > 0 {
        assert(all_hex(s.drop_last())) by {
            assert(forall|i: int|
                0 <= i < s.drop_last().len() ==> s.drop_last()[i] == s[i]);
        }
        lemma_hex_val_nonneg(s.drop_last());
    }
}

/// An accepted unsigned reading lies between zero and the bound.
pub proof fn lemma_parse_dec_props(s: Seq<char>, bound: int)
    ensures
        match parse_dec(s, bound) {
            Some(v) => 0 <= v <= bound,
            None => true,
        },
{
    let ds = if s.len() > 0 && s[0] == '+' {
        s.drop_first()
    } else {
        s
    };
    if ds.len() > 0 && all_dec(ds) {
        lemma_dec_val_nonneg(ds);
    }
}

/// An accepted signed reading lies between the two bounds.
pub proof fn lemma_parse_int_props(s: Seq<char>, lo: int, hi: int)
    requires
        lo <= 0 <= hi,
    ensures
        match parse_int(s, lo, hi) {
            Some(v) => lo <= v <= hi,
            None => true,
        },
{
    if s.len() > 0 && s[0] == '-' {
        let ds = s.drop_first();
        if ds.len() > 0 && all_dec(ds) {
            lemma_dec_val_nonneg(ds);
        }
    } else {
        let ds = if s.len() > 0 && s[0] == '+' {
            s.drop_first()
        } else {
            s
        };
        if ds.len() > 0 && all_dec(ds) {
            lemma_dec_val_nonneg(ds);
        }
    }
}

// ---------------------------------------------------------------------------
// Executable readings
// ---------------------------------------------------------------------------
/// Reads an unbounded digit run as a `u64`; `None` when `s` is empty, holds a
/// non-digit, or the value exceeds `u64::MAX`.
fn read_dec_u64(s: &[char]) -> (r: Option<u64>)
    ensures
        r == (if s@.len() > 0 && all_dec(s@) && dec_val(s@) <= u64::MAX as int {
            Some(dec_val(s@) as u64)
        } else {
            None::<u64>
        }),
{
    let n = s.len();
    if n == 0 {
        return None;
    }
    let mut acc: u64 = 0;
    let mut i: usize = 0;
    while i < n
        invariant
            n == s@.len(),
            i <= n,
            all_dec(s@.subrange(0, i as int)),
            acc == dec_val(s@.subrange(0, i as int)),
        decreases n - i,
    {
        let c = s[i];
        let u = c as u32;
        if !(48 <= u && u <= 57) {
            assert(!is_dec_digit(s@[i as int]));
            return None;
        }
        let d: u64 = (u - 48) as u64;
        let ghost pre = s@.subrange(0, i as int);
        let ghost ext = s@.subrange(0, i + 1 as int);
        proof {
            assert(ext.drop_last() =~= pre);
            assert(dec_val(ext) == dec_val(pre) * 10 + dec_digit_val(s@[i as int]));
        }
        if acc > (u64::MAX - d) / 10 {
            proof {
                assert(dec_val(ext) > u64::MAX as int) by (nonlinear_arith)
                    requires
                        dec_val(ext) == dec_val(pre) * 10 + d,
                        0 <= d < 10,
                        dec_val(pre) >= 0,
                        dec_val(pre) > (u64::MAX - d) / 10,
                        u64::MAX == 18446744073709551615,
                ;
                if all_dec(s@) {
                    lemma_dec_val_extend_ge(s@, i + 1 as int);
                }
            }
            return None;
        }
        proof {
            assert(dec_val(pre) * 10 + d <= u64::MAX as int) by (nonlinear_arith)
                requires
                    0 <= d < 10,
                    dec_val(pre) >= 0,
                    dec_val(pre) <= (u64::MAX - d) / 10,
                    u64::MAX == 18446744073709551615,
            ;
        }
        acc = acc * 10 + d;
        i = i + 1;
    }
    proof {
        assert(s@.subrange(0, n as int) =~= s@);
    }
    Some(acc)
}

/// Extending a digit prefix never shrinks its value: if a prefix already
/// exceeds a bound, the whole run does too.
proof fn lemma_dec_val_extend_ge(s: Seq<char>, i: int)
    requires
        0 <= i <= s.len(),
        all_dec(s),
    ensures
        dec_val(s) >= dec_val(s.subrange(0, i)),
    decreases s.len() - i,
{
    if i < s.len() {
        lemma_dec_val_extend_ge(s, i + 1);
        let pre = s.subrange(0, i);
        let ext = s.subrange(0, i + 1);
        assert(ext.drop_last() =~= pre);
        assert(dec_val(ext) == dec_val(pre) * 10 + dec_digit_val(ext.last()));
        assert(all_dec(pre)) by {
            assert(forall|j: int| 0 <= j < pre.len() ==> pre[j] == s[j]);
        }
        lemma_dec_val_nonneg(pre);
        assert(is_dec_digit(ext.last()));
        assert(dec_val(pre) * 10 >= dec_val(pre)) by (nonlinear_arith)
            requires
                dec_val(pre) >= 0,
        ;
    } else {
        assert(s.subrange(0, i) =~= s);
    }
}

/// Reads a `u64` as `u64::from_str` does.
pub fn parse_u64_chars(s: &[char]) -> (r: Option<u64>)
    ensures
        r == parse_u64(s@),
{
    let n = s.len();
    if n > 0 && s[0] == '+' {
        let rest = vstd::slice::slice_subrange(s, 1, n);
        assert(rest@ =~= s@.drop_first());
        read_dec_u64(rest)
    } else {
        read_dec_u64(s)
    }
}

/// Reads a `u32` as `u32::from_str` does.
pub fn parse_u32_chars(s: &[char]) -> (r: Option<u32>)
    ensures
        r == parse_u32(s@),
{
    proof {
        lemma_parse_dec_props(s@, u64::MAX as int);
        lemma_parse_dec_props(s@, u32::MAX as int);
    }
    match parse_u64_chars(s) {
        Some(v) => {
            if v <= u32::MAX as u64 {
                Some(v as u32)
            } else {
                None
            }
        },
        None => None,
    }
}

/// Reads an `i64` as `i64::from_str` does.
pub fn parse_i64_chars(s: &[char]) -> (r: Option<i64>)
    ensures
        r == parse_i64(s@),
{
    let n = s.len();
    let neg = n > 0 && s[0] == '-';
    let ds = if n > 0 && (s[0] == '-' || s[0] == '+') {
        let rest = vstd::slice::slice_subrange(s, 1, n);
        assert(rest@ =~= s@.drop_first());
        rest
    } else {
        s
    };
    let mag = read_dec_u64(ds);
    proof {
        if ds@.len() > 0 && all_dec(ds@) {
            lemma_dec_val_nonneg(ds@);
        }
    }
    match mag {
        Some(v) => {
            if neg {
                if v <= 9223372036854775808u64 {
                    if v == 9223372036854775808u64 {
                        Some(i64::MIN)
                    } else {
                        Some(-(v as i64))
                    }
                } else {
                    None
                }
            } else {
                if v <= 9223372036854775807u64 {
                    Some(v as i64)
                } else {
                    None
                }
            }
        },
        None => None,
    }
}

/// Reads an `i32` as `i32::from_str` does.
pub fn parse_i32_chars(s: &[char]) -> (r: Option<i32>)
    ensures
        r == parse_i32(s@),
{
    proof {
        lemma_parse_int_props(s@, i64::MIN as int, i64::MAX as int);
        lemma_parse_int_props(s@, i32::MIN as int, i32::MAX as int);
    }
    match parse_i64_chars(s) {
        Some(v) => {
            if -2147483648i64 <= v && v <= 2147483647i64 {
                Some(v as i32)
            } else {
                None
            }
        },
        None => None,
    }
}

/// Reads a hexadecimal `u32` as `u32::from_str_radix(s, 16)` does.
pub fn parse_hex_u32_chars(s: &[char]) -> (r: Option<u32>)
    ensures
        r == parse_hex_u32(s@),
{
    let n = s.len();
    let ds = if n > 0 && s[0] == '+' {
        let rest = vstd::slice::slice_subrange(s, 1, n);
        assert(rest@ =~= s@.drop_first());
        rest
    } else {
        s
    };
    let m = ds.len();
    if m == 0 {
        return None;
    }
    let mut acc: u32 = 0;
    let mut i: usize = 0;
    while i < m
        invariant
            m == ds@.len(),
            ds@ == (if s@.len() > 0 && s@[0] == '+' {
                s@.drop_first()
            } else {
                s@
            }),
            i <= m,
            all_hex(ds@.subrange(0, i as int)),
            acc == hex_val(ds@.subrange(0, i as int)),
        decreases m - i,
    {
        let c = ds[i];
        let u = c as u32;
        let d: u32 = if 48 <= u && u <= 57 {
            u - 48
        } else if 97 <= u && u <= 102 {
            u - 87
        } else if 65 <= u && u <= 70 {
            u - 55
        } else {
            assert(!is_hex_digit(ds@[i as int]));
            return None;
        };
        let ghost pre = ds@.subrange(0, i as int);
        let ghost ext = ds@.subrange(0, i + 1 as int);
        proof {
            assert(ext.drop_last() =~= pre);
            assert(hex_val(ext) == hex_val(pre) * 16 + hex_digit_val(ds@[i as int]));
        }
        if acc > (u32::MAX - d) / 16 {
            proof {
                assert(hex_val(ext) > u32::MAX as int) by (nonlinear_arith)
                    requires
                        hex_val(ext) == hex_val(pre) * 16 + d,
                        0 <= d < 16,
                        hex_val(pre) >= 0,
                        hex_val(pre) > (u32::MAX - d) / 16,
                        u32::MAX == 4294967295,
                ;
                if all_hex(ds@) {
                    lemma_hex_val_extend_ge(ds@, i + 1 as int);
                }
            }
            return None;
        }
        proof {
            assert(hex_val(pre) * 16 + d <= u32::MAX as int) by (nonlinear_arith)
                requires
                    0 <= d < 16,
                    hex_val(pre) >= 0,
                    hex_val(pre) <= (u32::MAX - d) / 16,
                    u32::MAX == 4294967295,
            ;
        }
        acc = acc * 16 + d;
        i = i + 1;
    }
    proof {
        assert(ds@.subrange(0, m as int) =~= ds@);
    }
    Some(acc)
}

proof fn lemma_hex_val_extend_ge(s: Seq<char>, i: int)
    requires
        0 <= i <= s.len(),
        all_hex(s),
    ensures
        hex_val(s) >= hex_val(s.subrange(0, i)),
    decreases s.len() - i,
{
    if i < s.len() {
        lemma_hex_val_extend_ge(s, i + 1);
        let pre = s.subrange(0, i);
        let ext = s.subrange(0, i + 1);
        assert(ext.drop_last() =~= pre);
        assert(hex_val(ext) == hex_val(pre) * 16 + hex_digit_val(ext.last()));
        assert(all_hex(pre)) by {
            assert(forall|j: int| 0 <= j < pre.len() ==> pre[j] == s[j]);
        }
        lemma_hex_val_nonneg(pre);
        assert(is_hex_digit(ext.last()));
        assert(hex_val(pre) * 16 >= hex_val(pre)) by (nonlinear_arith)
            requires
                hex_val(pre) >= 0,
        ;
    } else {
        assert(s.subrange(0, i) =~= s);
    }
}

/// Reads a `bool` as `bool::from_str` does.
pub fn parse_bool_chars(s: &[char]) -> (r: Option<bool>)
    ensures
        r == parse_bool(s@),
{
    if crate::text::chars_eq_str(s, "true") {
        Some(true)
    } else if crate::text::chars_eq_str(s, "false") {
        Some(false)
    } else {
        None
    }
}

// ---------------------------------------------------------------------------
// Executable writings
// ---------------------------------------------------------------------------
fn dec_char_of(d: u64) -> (c: char)
    requires
        d < 10,
    ensures
        c == dec_char(d as int),
{
    if d == 0 {
        '0'
    } else if d == 1 {
        '1'
    } else if d == 2 {
        '2'
    } else if d == 3 {
        '3'
    } else if d == 4 {
        '4'
    } else if d == 5 {
        '5'
    } else if d == 6 {
        '6'
    } else if d == 7 {
        '7'
    } else if d == 8 {
        '8'
    } else {
        '9'
    }
}

fn hex_char_of(d: u32) -> (c: char)
    requires
        d < 16,
    ensures
        c == hex_char(d as int),
{
    if d < 10 {
        dec_char_of(d as u64)
    } else if d == 10 {
        'a'
    } else if d == 11 {
        'b'
    } else if d == 12 {
        'c'
    } else if d == 13 {
        'd'
    } else if d == 14 {
        'e'
    } else {
        'f'
    }
}

/// Appends the canonical decimal text of `n`.
pub fn push_dec_u64(out: &mut Vec<char>, n: u64)
    ensures
        final(out)@ == old(out)@ + dec_text(n as nat),
    decreases n,
{
    if n >= 10 {
        push_dec_u64(out, n / 10);
    }
    out.push(dec_char_of(n % 10));
    proof {
        if n < 10 {
            assert(out@ =~= old(out)@ + dec_text(n as nat));
        } else {
            assert(out@ =~= old(out)@ + (dec_text((n / 10) as nat) + seq![
                dec_char((n % 10) as int),
            ]));
        }
    }
}

/// Appends the canonical lower-case hexadecimal text of `n`.
pub fn push_hex_u32(out: &mut Vec<char>, n: u32)
    ensures
        final(out)@ == old(out)@ + hex_text(n as nat),
    decreases n,
{
    if n >= 16 {
        push_hex_u32(out, n / 16);
    }
    out.push(hex_char_of(n % 16));
    proof {
        if n < 16 {
            assert(out@ =~= old(out)@ + hex_text(n as nat));
        } else {
            assert(out@ =~= old(out)@ + (hex_text((n / 16) as nat) + seq![
                hex_char((n % 16) as int),
            ]));
        }
    }
}

/// Appends the canonical signed decimal text of `n`.
pub fn push_dec_i64(out: &mut Vec<char>, n: i64)
    ensures
        final(out)@ == old(out)@ + int_text(n as int),
{
    if n >= 0 {
        push_dec_u64(out, n as u64);
    } else {
        out.push('-');
        let mag: u64 = if n == i64::MIN {
            9223372036854775808u64
        } else {
            (-n) as u64
        };
        let ghost mid = out@;
        push_dec_u64(out, mag);
        proof {
            assert(out@ =~= old(out)@ + (seq!['-'] + dec_text(mag as nat)));
        }
    }
}

/// Appends the canonical text of a boolean.
pub fn push_bool(out: &mut Vec<char>, b: bool)
    ensures
        final(out)@ == old(out)@ + bool_text(b),
{
    proof {
        reveal_strlit("true");
        reveal_strlit("false");
    }
    if b {
        out.push('t');
        out.push('r');
        out.push('u');
        out.push('e');
        assert(out@ =~= old(out)@ + "true"@);
    } else {
        out.push('f');
        out.push('a');
        out.push('l');
        out.push('s');
        out.push('e');
        assert(out@ =~= old(out)@ + "false"@);
    }
}

} // verus!
