//! Character-sequence utilities shared by all of the text codecs: splitting a
//! sequence on a separator character, assembling newline-terminated lines, and
//! locating separators, each with an executable form proved against the
//! specification form.

use vstd::prelude::*;

verus! {

/// No occurrence of `c` anywhere in `s`.
pub open spec fn no_char(s: Seq<char>, c: char) -> bool {
    forall|i: int| 0 <= i < s.len() ==> s[i] != c
}

/// Splits `s` on every occurrence of `sep`, as `str::split` does: the result
/// always has at least one piece, and `n` separators give `n + 1` pieces.
pub open spec fn split_on(s: Seq<char>, sep: char) -> Seq<Seq<char>>
    decreases s.len(),
{
    if s.len() == 0 {
        seq![Seq::<char>::empty()]
    } else if s[0] == sep {
        seq![Seq::<char>::empty()] + split_on(s.drop_first(), sep)
    } else {
        let rest = split_on(s.drop_first(), sep);
        seq![seq![s[0]] + rest[0]] + rest.drop_first()
    }
}

pub proof fn lemma_split_len(s: Seq<char>, sep: char)
    ensures
        split_on(s, sep).len() >= 1,
    decreases s.len(),
{
    if s.len() > 0 {
        lemma_split_len(s.drop_first(), sep);
    }
}

/// A sequence without the separator splits into itself alone.
pub proof fn lemma_split_no_sep(s: Seq<char>, sep: char)
    requires
        no_char(s, sep),
    ensures
        split_on(s, sep) =~~= seq![s],
    decreases s.len(),
{
    if s.len() > 0 {
        assert(no_char(s.drop_first(), sep)) by {
            assert(forall|i: int|
                0 <= i < s.drop_first().len() ==> s.drop_first()[i] == s[i + 1]);
        }
        lemma_split_no_sep(s.drop_first(), sep);
        assert(seq![s[0]] + s.drop_first() =~= s);
    }
}

/// Prepending a separator-free piece extends the head piece of the split.
pub proof fn lemma_split_prefix(a: Seq<char>, b: Seq<char>, sep: char)
    requires
        no_char(a, sep),
    ensures
        split_on(a + b, sep).len() == split_on(b, sep).len(),
        split_on(a + b, sep)[0] == a + split_on(b, sep)[0],
        split_on(a + b, sep).drop_first() =~~= split_on(b, sep).drop_first(),
    decreases a.len(),
{
    lemma_split_len(b, sep);
    if a.len() == 0 {
        assert(a + b =~= b);
        assert(a + split_on(b, sep)[0] =~= split_on(b, sep)[0]);
    } else {
        let s = a + b;
        assert(s.len() > 0 && s[0] == a[0] && s[0] != sep);
        assert(s.drop_first() =~= a.drop_first() + b);
        assert(no_char(a.drop_first(), sep)) by {
            assert(forall|i: int|
                0 <= i < a.drop_first().len() ==> a.drop_first()[i] == a[i + 1]);
        }
        lemma_split_prefix(a.drop_first(), b, sep);
        let rest = split_on(s.drop_first(), sep);
        assert(seq![s[0]] + rest[0] =~= a + split_on(b, sep)[0]);
    }
}

/// Splitting `a + sep + b` with `a` separator-free peels `a` off as the first
/// piece and splits the remainder.
pub proof fn lemma_split_sep(a: Seq<char>, b: Seq<char>, sep: char)
    requires
        no_char(a, sep),
    ensures
        split_on(a + seq![sep] + b, sep) =~~= seq![a] + split_on(b, sep),
{
    let m = seq![sep] + b;
    assert(m.len() > 0 && m[0] == sep);
    assert(m.drop_first() =~= b);
    assert(split_on(m, sep) =~= seq![Seq::<char>::empty()] + split_on(b, sep));
    lemma_split_prefix(a, m, sep);
    lemma_split_len(b, sep);
    let lhs = split_on(a + seq![sep] + b, sep);
    let rhs = seq![a] + split_on(b, sep);
    assert(a + seq![sep] + b =~= a + m);
    assert(lhs[0] == a + split_on(m, sep)[0]);
    assert(split_on(m, sep)[0] =~= Seq::<char>::empty());
    assert(lhs[0] =~= a);
    assert(lhs.drop_first() =~~= split_on(m, sep).drop_first());
    assert(split_on(m, sep).drop_first() =~~= split_on(b, sep));
    assert(lhs.len() == rhs.len());
    assert forall|i: int| 0 <= i < lhs.len() implies lhs[i] =~~= rhs[i] by {
        if i > 0 {
            assert(lhs[i] == lhs.drop_first()[i - 1]);
        }
    }
}

/// Every piece of a split is separator-free.
pub proof fn lemma_split_pieces_free(s: Seq<char>, sep: char)
    ensures
        forall|i: int|
            0 <= i < split_on(s, sep).len() ==> no_char(#[trigger] split_on(s, sep)[i], sep),
    decreases s.len(),
{
    if s.len() == 0 {
    } else if s[0] == sep {
        lemma_split_pieces_free(s.drop_first(), sep);
    } else {
        lemma_split_pieces_free(s.drop_first(), sep);
        let rest = split_on(s.drop_first(), sep);
        lemma_split_len(s.drop_first(), sep);
        let head = seq![s[0]] + rest[0];
        assert(no_char(head, sep)) by {
            assert(forall|i: int| 1 <= i < head.len() ==> head[i] == rest[0][i - 1]);
        }
        assert(forall|i: int|
            1 <= i < split_on(s, sep).len() ==> split_on(s, sep)[i] == rest[i]);
    }
}

/// Concatenates lines, terminating every line (including the last) with a
/// newline, as the canonical encoders do.
pub open spec fn cat_lines(lines: Seq<Seq<char>>) -> Seq<char>
    decreases lines.len(),
{
    if lines.len() == 0 {
        Seq::<char>::empty()
    } else {
        lines[0] + seq!['\n'] + cat_lines(lines.drop_first())
    }
}

/// Splitting newline-terminated lines on newline recovers the lines, plus one
/// trailing empty piece.
pub proof fn lemma_split_cat_lines(lines: Seq<Seq<char>>)
    requires
        forall|i: int| 0 <= i < lines.len() ==> no_char(#[trigger] lines[i], '\n'),
    ensures
        split_on(cat_lines(lines), '\n') =~~= lines + seq![Seq::<char>::empty()],
    decreases lines.len(),
{
    if lines.len() == 0 {
        assert(split_on(Seq::<char>::empty(), '\n') =~= seq![Seq::<char>::empty()]);
    } else {
        lemma_split_cat_lines(lines.drop_first());
        lemma_split_sep(lines[0], cat_lines(lines.drop_first()), '\n');
    }
}

/// `cat_lines` grown from the right: appending a line appends its text and a
/// newline.
pub proof fn lemma_cat_lines_snoc(lines: Seq<Seq<char>>, l: Seq<char>)
    ensures
        cat_lines(lines.push(l)) == cat_lines(lines) + l + seq!['\n'],
    decreases lines.len(),
{
    if lines.len() == 0 {
        assert(lines.push(l)[0] == l);
        assert(lines.push(l).drop_first() =~= Seq::<Seq<char>>::empty());
        assert(cat_lines(Seq::<Seq<char>>::empty()) == Seq::<char>::empty());
        assert(cat_lines(lines) == Seq::<char>::empty());
        assert(cat_lines(lines.push(l)) == l + seq!['\n'] + cat_lines(
            Seq::<Seq<char>>::empty(),
        ));
        assert(cat_lines(lines.push(l)) =~= cat_lines(lines) + l + seq!['\n']);
    } else {
        lemma_cat_lines_snoc(lines.drop_first(), l);
        assert(lines.push(l).drop_first() =~= lines.drop_first().push(l));
        assert(lines.push(l)[0] == lines[0]);
        assert(lines[0] + seq!['\n'] + (cat_lines(lines.drop_first()) + l + seq!['\n']) =~= (
        lines[0] + seq!['\n'] + cat_lines(lines.drop_first())) + l + seq!['\n']);
    }
}

/// `s` without its trailing carriage returns.
pub open spec fn strip_cr(s: Seq<char>) -> Seq<char>
    decreases s.len(),
{
    if s.len() > 0 && s.last() == '\r' {
        strip_cr(s.drop_last())
    } else {
        s
    }
}

/// `s` holds no newline and does not end with a carriage return, so it passes
/// through the line reader unchanged.
pub open spec fn line_ready(s: Seq<char>) -> bool {
    no_char(s, '\n') && (s.len() == 0 || s.last() != '\r')
}

/// Stripping is the identity on a sequence that does not end with `\r`.
pub proof fn lemma_strip_cr_noop(s: Seq<char>)
    requires
        s.len() == 0 || s.last() != '\r',
    ensures
        strip_cr(s) == s,
{
}

/// Stripping gives a prefix of `s` that does not end with `\r`.
pub proof fn lemma_strip_cr_prefix(s: Seq<char>)
    ensures
        strip_cr(s).len() <= s.len(),
        forall|i: int| 0 <= i < strip_cr(s).len() ==> #[trigger] strip_cr(s)[i] == s[i],
        strip_cr(s).len() == 0 || strip_cr(s).last() != '\r',
    decreases s.len(),
{
    if s.len() > 0 && s.last() == '\r' {
        lemma_strip_cr_prefix(s.drop_last());
        assert(forall|i: int| 0 <= i < s.drop_last().len() ==> s.drop_last()[i] == s[i]);
    }
}

/// The raw physical lines of a text: the pieces between newlines, except that
/// a final newline does not open an extra empty line.
pub open spec fn raw_lines(s: Seq<char>) -> Seq<Seq<char>> {
    let ps = split_on(s, '\n');
    if ps.last() =~= Seq::<char>::empty() {
        ps.drop_last()
    } else {
        ps
    }
}

/// The physical lines of a text, each without its trailing carriage returns,
/// tolerating `\r\n` line endings as `str::lines` does.
pub open spec fn text_lines(s: Seq<char>) -> Seq<Seq<char>> {
    raw_lines(s).map_values(|l: Seq<char>| strip_cr(l))
}

pub proof fn lemma_text_lines_cat(lines: Seq<Seq<char>>)
    requires
        forall|i: int| 0 <= i < lines.len() ==> line_ready(#[trigger] lines[i]),
    ensures
        text_lines(cat_lines(lines)) =~~= lines,
{
    lemma_split_cat_lines(lines);
    let ps = split_on(cat_lines(lines), '\n');
    assert(ps.last() =~= Seq::<char>::empty());
    assert(ps.drop_last() =~~= lines);
    assert forall|i: int| 0 <= i < lines.len() implies #[trigger] text_lines(cat_lines(lines))[i]
        == lines[i] by {
        lemma_strip_cr_noop(lines[i]);
    }
}

/// Index of the first occurrence of `c` in `s`.
pub open spec fn find_char(s: Seq<char>, c: char) -> Option<int>
    decreases s.len(),
{
    if s.len() == 0 {
        None
    } else if s[0] == c {
        Some(0)
    } else {
        match find_char(s.drop_first(), c) {
            None => None,
            Some(i) => Some(i + 1),
        }
    }
}

pub proof fn lemma_find_char(s: Seq<char>, c: char)
    ensures
        match find_char(s, c) {
            Some(i) => 0 <= i < s.len() && s[i] == c && (forall|j: int|
                0 <= j < i ==> s[j] != c),
            None => no_char(s, c),
        },
    decreases s.len(),
{
    if s.len() > 0 && s[0] != c {
        lemma_find_char(s.drop_first(), c);
        assert(forall|j: int| 1 <= j < s.len() ==> s[j] == s.drop_first()[j - 1]);
    }
}

/// `find_char` is determined by a minimal occurrence.
pub proof fn lemma_find_char_unique(s: Seq<char>, c: char, i: int)
    requires
        0 <= i < s.len(),
        s[i] == c,
        forall|j: int| 0 <= j < i ==> s[j] != c,
    ensures
        find_char(s, c) == Some(i),
{
    lemma_find_char(s, c);
    match find_char(s, c) {
        Some(k) => {
            if k < i {
                assert(s[k] != c);
            } else if i < k {
                assert(s[i] != c);
            }
        },
        None => {
            assert(s[i] != c);
        },
    }
}

/// Index of the first occurrence of two consecutive newlines in `s`.
pub open spec fn find_nlnl(s: Seq<char>) -> Option<int>
    decreases s.len(),
{
    if s.len() < 2 {
        None
    } else if s[0] == '\n' && s[1] == '\n' {
        Some(0)
    } else {
        match find_nlnl(s.drop_first()) {
            None => None,
            Some(i) => Some(i + 1),
        }
    }
}

/// Two consecutive newlines stand at position `i` of `s`.
pub open spec fn nlnl_at(s: Seq<char>, i: int) -> bool {
    0 <= i && i + 1 < s.len() && s[i] == '\n' && s[i + 1] == '\n'
}

pub proof fn lemma_find_nlnl(s: Seq<char>)
    ensures
        match find_nlnl(s) {
            Some(i) => nlnl_at(s, i) && (forall|j: int| 0 <= j < i ==> !nlnl_at(s, j)),
            None => forall|j: int| !nlnl_at(s, j),
        },
    decreases s.len(),
{
    if s.len() < 2 {
    } else if s[0] == '\n' && s[1] == '\n' {
    } else {
        lemma_find_nlnl(s.drop_first());
        let t = s.drop_first();
        assert(forall|j: int|
            0 <= j && j + 1 < t.len() ==> #[trigger] t[j] == s[j + 1] && t[j + 1] == s[j + 2]);
        assert(forall|j: int| #[trigger] nlnl_at(s, j) && j >= 1 ==> nlnl_at(t, j - 1));
        assert(!nlnl_at(s, 0));
    }
}

/// `find_nlnl` is determined by `nlnl_at`: whoever holds a minimal double
/// newline position holds `find_nlnl`'s answer.
pub proof fn lemma_find_nlnl_unique(s: Seq<char>, i: int)
    requires
        nlnl_at(s, i),
        forall|j: int| 0 <= j < i ==> !nlnl_at(s, j),
    ensures
        find_nlnl(s) == Some(i),
{
    lemma_find_nlnl(s);
    match find_nlnl(s) {
        Some(k) => {
            if k < i {
                assert(!nlnl_at(s, k));
            } else if i < k {
                assert(!nlnl_at(s, i));
            }
        },
        None => {
            assert(!nlnl_at(s, i));
        },
    }
}

/// A leading newline-free piece shifts the first double newline.
proof fn lemma_find_nlnl_skip(a: Seq<char>, b: Seq<char>)
    requires
        no_char(a, '\n'),
    ensures
        find_nlnl(a + b) == (match find_nlnl(b) {
            Some(i) => Some(a.len() + i),
            None => None::<int>,
        }),
    decreases a.len(),
{
    if a.len() == 0 {
        assert(a + b =~= b);
    } else {
        let s = a + b;
        assert(s[0] == a[0] && a[0] != '\n');
        if s.len() >= 2 {
            assert(s.drop_first() =~= a.drop_first() + b);
            assert(no_char(a.drop_first(), '\n')) by {
                assert(forall|i: int|
                    0 <= i < a.drop_first().len() ==> a.drop_first()[i] == a[i + 1]);
            }
            lemma_find_nlnl_skip(a.drop_first(), b);
        } else {
            assert(b.len() <= 1 - a.len() + 1);
            assert(find_nlnl(b) is None);
        }
    }
}

/// In newline-terminated lines that are each non-empty and newline-free, the
/// first double newline of `cat_lines(lines) + '\n' + t` is exactly at the
/// final newline of the last line.
pub proof fn lemma_find_nlnl_cat(lines: Seq<Seq<char>>, t: Seq<char>)
    requires
        lines.len() > 0,
        forall|i: int|
            0 <= i < lines.len() ==> no_char(#[trigger] lines[i], '\n') && lines[i].len() > 0,
    ensures
        find_nlnl(cat_lines(lines) + seq!['\n'] + t) == Some(cat_lines(lines).len() - 1),
    decreases lines.len(),
{
    let g = cat_lines(lines);
    let l0 = lines[0];
    if lines.len() == 1 {
        assert(g =~= l0 + seq!['\n']);
        let s = g + seq!['\n'] + t;
        assert(s =~= l0 + (seq!['\n', '\n'] + t));
        lemma_find_nlnl_skip(l0, seq!['\n', '\n'] + t);
        assert((seq!['\n', '\n'] + t)[0] == '\n' && (seq!['\n', '\n'] + t)[1] == '\n');
        assert(find_nlnl(seq!['\n', '\n'] + t) == Some(0int));
    } else {
        lemma_find_nlnl_cat(lines.drop_first(), t);
        let gr = cat_lines(lines.drop_first());
        assert(g =~= l0 + seq!['\n'] + gr);
        let s = g + seq!['\n'] + t;
        let tail = gr + seq!['\n'] + t;
        assert(s =~= l0 + (seq!['\n'] + tail));
        lemma_find_nlnl_skip(l0, seq!['\n'] + tail);
        let u = seq!['\n'] + tail;
        assert(u[0] == '\n');
        assert(lines.drop_first().len() > 0);
        assert(gr.len() > 0) by {
            assert(gr == lines.drop_first()[0] + seq!['\n'] + cat_lines(
                lines.drop_first().drop_first(),
            ));
        }
        assert(u[1] == gr[0]);
        assert(gr[0] == lines.drop_first()[0][0]) by {
            assert(gr == lines.drop_first()[0] + seq!['\n'] + cat_lines(
                lines.drop_first().drop_first(),
            ));
            assert(lines.drop_first()[0].len() > 0);
        }
        assert(u[1] != '\n');
        assert(u.drop_first() =~= tail);
        assert(find_nlnl(u) == (match find_nlnl(tail) {
            Some(i) => Some(i + 1),
            None => None::<int>,
        }));
        assert(find_nlnl(tail) == Some(gr.len() - 1));
    }
}

/// Concatenation preserves the absence of a character.
pub proof fn lemma_no_char_concat(a: Seq<char>, b: Seq<char>, c: char)
    requires
        no_char(a, c),
        no_char(b, c),
    ensures
        no_char(a + b, c),
{
    assert forall|i: int| 0 <= i < (a + b).len() implies (a + b)[i] != c by {
        if i < a.len() {
            assert((a + b)[i] == a[i]);
        } else {
            assert((a + b)[i] == b[i - a.len()]);
        }
    }
}

// ---------------------------------------------------------------------------
// Executable helpers
// ---------------------------------------------------------------------------
/// Relies on `String`'s `FromIterator<char>` implementation: collecting
/// characters yields the string of exactly those characters, in order.
#[verifier::external_body]
pub fn chars_to_string(v: &[char]) -> (r: String)
    ensures
        r@ == v@,
{
    v.iter().collect()
}

/// Whether two strings spell the same characters.
pub fn str_eq_lit(s: &str, lit: &str) -> (r: bool)
    ensures
        r == (s@ == lit@),
{
    let v = str_to_chars(s);
    chars_eq_str(v.as_slice(), lit)
}

/// The characters of `s`, one per element.
pub fn str_to_chars(s: &str) -> (r: Vec<char>)
    ensures
        r@ == s@,
{
    let n = s.unicode_len();
    let mut v: Vec<char> = Vec::new();
    let mut i: usize = 0;
    while i < n
        invariant
            n == s@.len(),
            i <= n,
            v@ == s@.subrange(0, i as int),
        decreases n - i,
    {
        v.push(s.get_char(i));
        assert(v@ =~= s@.subrange(0, i + 1 as int));
        i = i + 1;
    }
    assert(v@ =~= s@);
    v
}

/// Whether the characters of `v` spell exactly `s`.
pub fn chars_eq_str(v: &[char], s: &str) -> (r: bool)
    ensures
        r == (v@ == s@),
{
    let n = s.unicode_len();
    if v.len() != n {
        assert(v@.len() != s@.len());
        return false;
    }
    let mut i: usize = 0;
    while i < n
        invariant
            n == s@.len() == v@.len(),
            i <= n,
            forall|j: int| 0 <= j < i ==> v@[j] == s@[j],
        decreases n - i,
    {
        if v[i] != s.get_char(i) {
            return false;
        }
        i = i + 1;
    }
    assert(v@ =~= s@);
    true
}

/// Splits `v` on every occurrence of `sep`; executable form of `split_on`.
pub fn split_chars(v: &[char], sep: char) -> (r: Vec<Vec<char>>)
    ensures
        r.deep_view() =~~= split_on(v@, sep),
{
    let mut pieces: Vec<Vec<char>> = Vec::new();
    let mut cur: Vec<char> = Vec::new();
    let n = v.len();
    let mut i: usize = 0;
    proof {
        assert(cur@ + v@.subrange(0, n as int) =~= v@);
        assert(pieces.deep_view() + split_on(v@, sep) =~~= split_on(v@, sep));
    }
    while i < n
        invariant
            n == v@.len(),
            i <= n,
            no_char(cur@, sep),
            split_on(v@, sep) =~~= pieces.deep_view() + split_on(
                cur@ + v@.subrange(i as int, n as int),
                sep,
            ),
        decreases n - i,
    {
        let ghost rest = v@.subrange(i + 1 as int, n as int);
        let ghost old_pieces = pieces.deep_view();
        let ghost old_cur = cur@;
        if v[i] == sep {
            proof {
                assert(old_cur + v@.subrange(i as int, n as int) =~= old_cur + seq![sep] + rest);
                lemma_split_sep(old_cur, rest, sep);
            }
            pieces.push(cur);
            cur = Vec::new();
            proof {
                assert(pieces.deep_view() =~~= old_pieces.push(old_cur));
                assert(old_pieces.push(old_cur) =~~= old_pieces + seq![old_cur]);
                assert(cur@ + rest =~= rest);
                assert(old_pieces + (seq![old_cur] + split_on(rest, sep)) =~~= (old_pieces
                    + seq![old_cur]) + split_on(rest, sep));
            }
        } else {
            let c = v[i];
            cur.push(c);
            proof {
                assert(cur@ + rest =~= old_cur + v@.subrange(i as int, n as int));
            }
        }
        i = i + 1;
    }
    proof {
        assert(cur@ + v@.subrange(n as int, n as int) =~= cur@);
        lemma_split_no_sep(cur@, sep);
    }
    let ghost old_pieces = pieces.deep_view();
    let ghost old_cur = cur@;
    pieces.push(cur);
    proof {
        assert(pieces.deep_view() =~~= old_pieces.push(old_cur));
        assert(old_pieces + seq![old_cur] =~~= old_pieces.push(old_cur));
    }
    pieces
}

/// Position of the first `c` in `v`; executable form of `find_char`.
pub fn find_char_at(v: &[char], c: char) -> (r: Option<usize>)
    ensures
        match r {
            Some(i) => find_char(v@, c) == Some(i as int),
            None => find_char(v@, c) is None,
        },
{
    let n = v.len();
    let mut i: usize = 0;
    while i < n
        invariant
            n == v@.len(),
            i <= n,
            forall|j: int| 0 <= j < i ==> v@[j] != c,
        decreases n - i,
    {
        if v[i] == c {
            proof {
                lemma_find_char(v@, c);
                match find_char(v@, c) {
                    Some(k) => {
                        if k < i as int {
                            assert(v@[k] != c);
                        }
                        if i < k {
                            assert(v@[i as int] != c);
                        }
                    },
                    None => {
                        assert(v@[i as int] != c);
                    },
                }
            }
            return Some(i);
        }
        i = i + 1;
    }
    proof {
        lemma_find_char(v@, c);
        if let Some(k) = find_char(v@, c) {
            assert(v@[k] != c);
        }
    }
    None
}

/// Position of the first double newline in `v`; executable form of
/// `find_nlnl`.
pub fn find_nlnl_at(v: &[char]) -> (r: Option<usize>)
    ensures
        match r {
            Some(i) => find_nlnl(v@) == Some(i as int),
            None => find_nlnl(v@) is None,
        },
{
    let n = v.len();
    if n < 2 {
        proof {
            lemma_find_nlnl(v@);
            if let Some(k) = find_nlnl(v@) {
                assert(nlnl_at(v@, k));
            }
        }
        return None;
    }
    let mut i: usize = 0;
    while i < n - 1
        invariant
            n == v@.len(),
            n >= 2,
            i <= n - 1,
            forall|j: int| 0 <= j < i ==> !nlnl_at(v@, j),
        decreases n - i,
    {
        if v[i] == '\n' && v[i + 1] == '\n' {
            proof {
                assert(nlnl_at(v@, i as int));
                lemma_find_nlnl_unique(v@, i as int);
            }
            return Some(i);
        }
        proof {
            assert(!nlnl_at(v@, i as int));
        }
        i = i + 1;
    }
    proof {
        lemma_find_nlnl(v@);
        if let Some(k) = find_nlnl(v@) {
            assert(nlnl_at(v@, k));
        }
    }
    None
}

/// A copy of `v` without its trailing carriage returns; executable form of
/// `strip_cr`.
pub fn strip_cr_copy(v: &[char]) -> (r: Vec<char>)
    ensures
        r@ == strip_cr(v@),
{
    let mut end = v.len();
    proof {
        assert(v@.subrange(0, end as int) =~= v@);
    }
    while end > 0 && v[end - 1] == '\r'
        invariant
            end <= v@.len(),
            strip_cr(v@) == strip_cr(v@.subrange(0, end as int)),
        decreases end,
    {
        proof {
            assert(v@.subrange(0, end as int).drop_last() =~= v@.subrange(0, end - 1 as int));
        }
        end = end - 1;
    }
    proof {
        lemma_strip_cr_noop(v@.subrange(0, end as int));
    }
    let mut out: Vec<char> = Vec::new();
    let mut i: usize = 0;
    while i < end
        invariant
            i <= end <= v@.len(),
            out@ == v@.subrange(0, i as int),
        decreases end - i,
    {
        out.push(v[i]);
        assert(out@ =~= v@.subrange(0, i + 1 as int));
        i = i + 1;
    }
    out
}

/// The physical lines of `v`; executable form of `text_lines`.
pub fn text_lines_chars(v: &[char]) -> (r: Vec<Vec<char>>)
    ensures
        r.deep_view() =~~= text_lines(v@),
{
    let mut ps = split_chars(v, '\n');
    proof {
        lemma_split_len(v@, '\n');
        assert(ps.deep_view().len() == ps@.len());
    }
    if ps[ps.len() - 1].len() == 0 {
        let ghost before = ps.deep_view();
        proof {
            assert(before.last() == ps@.last().deep_view());
            assert(before.last() =~= Seq::<char>::empty());
        }
        ps.pop();
        proof {
            assert(ps.deep_view() =~~= before.drop_last());
        }
    } else {
        proof {
            assert(ps.deep_view().last() == ps@.last().deep_view());
            assert(!(ps.deep_view().last() =~= Seq::<char>::empty()));
        }
    }
    proof {
        assert(ps.deep_view() =~~= raw_lines(v@));
    }
    let m = ps.len();
    let mut out: Vec<Vec<char>> = Vec::new();
    let mut k: usize = 0;
    while k < m
        invariant
            m == ps@.len(),
            ps.deep_view() =~~= raw_lines(v@),
            k <= m,
            out.deep_view() =~~= text_lines(v@).subrange(0, k as int),
        decreases m - k,
    {
        proof {
            assert(ps@[k as int]@ == raw_lines(v@)[k as int]);
            assert(text_lines(v@)[k as int] == strip_cr(raw_lines(v@)[k as int]));
        }
        let ghost old_out = out.deep_view();
        out.push(strip_cr_copy(ps[k].as_slice()));
        proof {
            assert(out.deep_view() =~~= old_out.push(strip_cr(raw_lines(v@)[k as int])));
            assert(out.deep_view() =~~= text_lines(v@).subrange(0, k + 1 as int));
        }
        k = k + 1;
    }
    proof {
        assert(text_lines(v@).subrange(0, m as int) =~= text_lines(v@));
    }
    out
}

/// Appends the characters of `s`.
pub fn push_str_chars(out: &mut Vec<char>, s: &str)
    ensures
        final(out)@ == old(out)@ + s@,
{
    let n = s.unicode_len();
    let mut i: usize = 0;
    while i < n
        invariant
            n == s@.len(),
            i <= n,
            out@ == old(out)@ + s@.subrange(0, i as int),
        decreases n - i,
    {
        out.push(s.get_char(i));
        assert(out@ =~= old(out)@ + s@.subrange(0, i + 1 as int));
        i = i + 1;
    }
    assert(out@ =~= old(out)@ + s@);
}

} // verus!
