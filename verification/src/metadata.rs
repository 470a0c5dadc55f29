//! Parsing the combined output of a Java version probe.
//!
//! The probe's stderr and stdout are scanned line by line for a quoted
//! version token (the `version "X"` pattern) and a vendor marker; when no
//! quoted token is found anywhere, a fallback pass looks for the first
//! whitespace-delimited token that has both a digit and a dot in it.

use vstd::prelude::*;

use crate::maven::find_from;
use crate::text::{chars_of, find_char_from, find_seq, occurs_at, slice_range, string_from_chars};
use crate::versions::is_ascii_digit_char;

verus! {

// ---------------------------------------------------------------------------
// Byte lines
// ---------------------------------------------------------------------------

/// The least index `i >= from` with `s[i] == c`, or `s.len()`.
pub open spec fn find_byte(s: Seq<u8>, c: u8, from: int) -> int
    recommends
        0 <= from <= s.len(),
    decreases s.len() - from
        when 0 <= from <= s.len()
{
    if from >= s.len() {
        s.len() as int
    } else if s[from] == c {
        from
    } else {
        find_byte(s, c, from + 1)
    }
}

proof fn lemma_find_byte_at(s: Seq<u8>, c: u8, from: int, i: int)
    requires
        0 <= from <= i <= s.len(),
        forall|j: int| from <= j < i ==> s[j] != c,
        i < s.len() ==> s[i] == c,
    ensures
        find_byte(s, c, from) == if i < s.len() {
            i
        } else {
            s.len() as int
        },
    decreases i - from,
{
    if from < i {
        lemma_find_byte_at(s, c, from + 1, i);
    }
}

proof fn lemma_find_byte_bounds(s: Seq<u8>, c: u8, from: int)
    requires
        0 <= from <= s.len(),
    ensures
        from <= find_byte(s, c, from) <= s.len(),
    decreases s.len() - from,
{
    if from < s.len() && s[from] != c {
        lemma_find_byte_bounds(s, c, from + 1);
    }
}

/// `s[from..]` cut at every occurrence of `c`, the separators dropped.
pub open spec fn split_bytes_from(s: Seq<u8>, c: u8, from: int) -> Seq<Seq<u8>>
    recommends
        0 <= from <= s.len(),
    decreases s.len() - from
        when 0 <= from <= s.len()
{
    let i = find_byte(s, c, from);
    if i >= s.len() {
        seq![s.subrange(from, s.len() as int)]
    } else if from <= i < s.len() {
        seq![s.subrange(from, i)] + split_bytes_from(s, c, i + 1)
    } else {
        Seq::empty()
    }
}

fn find_byte_exec(s: &Vec<u8>, c: u8, from: usize) -> (r: usize)
    requires
        from <= s@.len(),
    ensures
        r == find_byte(s@, c, from as int),
        from <= r <= s@.len(),
        r < s@.len() ==> s@[r as int] == c,
{
    let mut i: usize = from;
    while i < s.len()
        invariant
            from <= i <= s@.len(),
            forall|j: int| from <= j < i ==> s@[j] != c,
        decreases s@.len() - i,
    {
        if s[i] == c {
            proof {
                lemma_find_byte_at(s@, c, from as int, i as int);
            }
            return i;
        }
        i += 1;
    }
    proof {
        lemma_find_byte_at(s@, c, from as int, s@.len() as int);
    }
    i
}

fn slice_bytes(s: &Vec<u8>, from: usize, to: usize) -> (r: Vec<u8>)
    requires
        from <= to <= s@.len(),
    ensures
        r@ == s@.subrange(from as int, to as int),
{
    let mut v: Vec<u8> = Vec::new();
    let mut i: usize = from;
    while i < to
        invariant
            from <= i <= to <= s@.len(),
            v@ == s@.subrange(from as int, i as int),
        decreases to - i,
    {
        v.push(s[i]);
        i += 1;
        proof {
            assert(v@ =~= s@.subrange(from as int, i as int));
        }
    }
    v
}

pub open spec fn byte_views(s: Seq<Vec<u8>>) -> Seq<Seq<u8>> {
    s.map_values(|v: Vec<u8>| v@)
}

/// Splits a byte buffer into its newline-separated lines.
pub fn split_lines(b: &Vec<u8>) -> (r: Vec<Vec<u8>>)
    ensures
        byte_views(r@) == split_bytes_from(b@, 10, 0),
{
    let mut out: Vec<Vec<u8>> = Vec::new();
    let mut start: usize = 0;
    loop
        invariant
            start <= b@.len(),
            split_bytes_from(b@, 10, 0) == byte_views(out@) + split_bytes_from(
                b@,
                10,
                start as int,
            ),
        decreases b@.len() - start,
    {
        let i = find_byte_exec(b, 10, start);
        if i < b.len() {
            let piece = slice_bytes(b, start, i);
            proof {
                assert(byte_views(out@.push(piece)) =~= byte_views(out@) + seq![piece@]);
                assert(byte_views(out@) + (seq![b@.subrange(start as int, i as int)]
                    + split_bytes_from(b@, 10, i + 1)) =~= (byte_views(out@) + seq![b@.subrange(
                    start as int,
                    i as int,
                )]) + split_bytes_from(b@, 10, i + 1));
            }
            out.push(piece);
            start = i + 1;
        } else {
            let piece = slice_bytes(b, start, b.len());
            proof {
                assert(byte_views(out@.push(piece)) =~= byte_views(out@) + seq![piece@]);
                assert(split_bytes_from(b@, 10, start as int) =~= seq![b@.subrange(
                    start as int,
                    b@.len() as int,
                )]);
            }
            out.push(piece);
            proof {
                assert(byte_views(out@) =~= split_bytes_from(b@, 10, 0));
            }
            return out;
        }
    }
}

// ---------------------------------------------------------------------------
// Lossy decoding
// ---------------------------------------------------------------------------

/// What `String::from_utf8_lossy` makes of a byte sequence.
pub uninterp spec fn lossy_of(b: Seq<u8>) -> Seq<char>;

pub open spec fn all_ascii_bytes(b: Seq<u8>) -> bool {
    forall|i: int| 0 <= i < b.len() ==> #[trigger] b[i] < 0x80
}

pub open spec fn ascii_chars_of(b: Seq<u8>) -> Seq<char> {
    b.map_values(|x: u8| x as char)
}

/// Relies on `String::from_utf8_lossy` from std: the result is a function of
/// the bytes alone, and bytes that are valid UTF-8 — in particular plain
/// ASCII — decode to themselves.
#[verifier::external_body]
pub fn bytes_to_string_lossy(b: &Vec<u8>) -> (r: String)
    ensures
        r@ == lossy_of(b@),
        all_ascii_bytes(b@) ==> r@ == ascii_chars_of(b@),
{
    String::from_utf8_lossy(b.as_slice()).into_owned()
}

/// The probe's output decoded into lines: stderr's lines first, then stdout's.
pub open spec fn decoded_lines(err: Seq<u8>, out: Seq<u8>) -> Seq<Seq<char>> {
    (split_bytes_from(err, 10, 0) + split_bytes_from(out, 10, 0)).map_values(
        |l: Seq<u8>| lossy_of(l),
    )
}

// ---------------------------------------------------------------------------
// The quoted version token
// ---------------------------------------------------------------------------

/// The least index at or after `from` where `p` occurs in `s`, or `-1`.
pub open spec fn first_pat(s: Seq<char>, p: Seq<char>, from: int) -> int
    recommends
        0 <= from <= s.len(),
    decreases s.len() - from
        when 0 <= from <= s.len()
{
    if from + p.len() > s.len() {
        -1
    } else if s.subrange(from, from + p.len()) == p {
        from
    } else if from < s.len() {
        first_pat(s, p, from + 1)
    } else {
        -1
    }
}

proof fn lemma_first_pat_at(s: Seq<char>, p: Seq<char>, from: int, i: int)
    requires
        0 <= from <= i <= s.len(),
        forall|j: int| from <= j < i ==> !occurs_at(s, p, j),
        i + p.len() <= s.len() ==> occurs_at(s, p, i),
    ensures
        first_pat(s, p, from) == if i + p.len() <= s.len() {
            i
        } else {
            -1
        },
    decreases i - from,
{
    if from < i {
        if from + p.len() <= s.len() {
            assert(!occurs_at(s, p, from));
            assert(s.subrange(from, from + p.len()) != p);
            lemma_first_pat_at(s, p, from + 1, i);
        }
    }
}

/// Finds the least occurrence of `p` in `s` as `first_pat` sees it.
fn first_pat_exec(s: &Vec<char>, p: &Vec<char>) -> (r: Option<usize>)
    ensures
        match r {
            Some(i) => first_pat(s@, p@, 0) == i as int,
            None => first_pat(s@, p@, 0) == -1,
        },
{
    if p.len() == 0 {
        proof {
            assert(s@.subrange(0, 0) =~= p@);
        }
        return Some(0);
    }
    match find_seq(s, p) {
        Some(at) => {
            proof {
                lemma_first_pat_at(s@, p@, 0, at as int);
            }
            Some(at)
        },
        None => {
            proof {
                assert(forall|j: int| 0 <= j < s@.len() ==> !occurs_at(s@, p@, j));
                lemma_first_pat_at(s@, p@, 0, s@.len() as int);
            }
            None
        },
    }
}

/// The quoted version in a probe line: the characters between the quote of
/// the first `version "` and the next quote, when both are present.
pub open spec fn version_in_line(l: Seq<char>) -> Option<Seq<char>> {
    let i = first_pat(l, "version \""@, 0);
    if i < 0 {
        None
    } else {
        let e = find_from(l, '"', i + 9);
        if e < l.len() {
            Some(l.subrange(i + 9, e))
        } else {
            None
        }
    }
}

proof fn lemma_first_pat_bounds(s: Seq<char>, p: Seq<char>, from: int)
    requires
        0 <= from <= s.len(),
    ensures
        first_pat(s, p, from) == -1 || (from <= first_pat(s, p, from) && first_pat(s, p, from)
            + p.len() <= s.len()),
    decreases s.len() - from,
{
    if from + p.len() <= s.len() && s.subrange(from, from + p.len()) != p {
        assert(p.len() > 0) by {
            if p.len() == 0 {
                assert(s.subrange(from, from + p.len()) =~= p);
            }
        }
        lemma_first_pat_bounds(s, p, from + 1);
    }
}

fn version_in_line_exec(l: &Vec<char>) -> (r: Option<Vec<char>>)
    ensures
        r.deep_view() == version_in_line(l@),
{
    let pat = chars_of("version \"");
    proof {
        reveal_strlit("version \"");
    }
    match first_pat_exec(l, &pat) {
        None => None,
        Some(i) => {
            let llen = l.len();
            proof {
                assert(llen == l@.len());
                lemma_first_pat_bounds(l@, pat@, 0);
                assert(i + 9 <= l@.len());
            }
            match find_char_from(l, '"', i + 9) {
                Some(e) => {
                    proof {
                        crate::maven::lemma_find_from_char(l@, '"', i as int + 9, e as int);
                    }
                    Some(slice_range(l, i + 9, e))
                },
                None => {
                    proof {
                        crate::maven::lemma_find_from_char(
                            l@,
                            '"',
                            i as int + 9,
                            l@.len() as int,
                        );
                    }
                    None
                },
            }
        },
    }
}

// ---------------------------------------------------------------------------
// Vendor markers
// ---------------------------------------------------------------------------

/// `c` reads as the lower-case ASCII letter `m` up to case.
pub open spec fn lower_eq(c: char, m: char) -> bool {
    c == m || ('a' <= m && m <= 'z' && c as int + 32 == m as int)
}

pub open spec fn occurs_ci_at(l: Seq<char>, mk: Seq<char>, at: int) -> bool {
    0 <= at && at + mk.len() <= l.len() && forall|j: int|
        0 <= j < mk.len() ==> lower_eq(l[at + j], #[trigger] mk[j])
}

/// The marker occurs in the line, compared ASCII-case-insensitively.
pub open spec fn contains_ci(l: Seq<char>, mk: Seq<char>) -> bool {
    exists|at: int| occurs_ci_at(l, mk, at)
}

fn lower_eq_exec(c: char, m: char) -> (b: bool)
    ensures
        b == lower_eq(c, m),
{
    c == m || (m >= 'a' && m <= 'z' && (c as u32) + 32 == m as u32)
}

fn matches_ci_at(l: &Vec<char>, mk: &Vec<char>, at: usize) -> (b: bool)
    requires
        at + mk@.len() <= l@.len(),
    ensures
        b == occurs_ci_at(l@, mk@, at as int),
{
    let llen = l.len();
    proof {
        assert(llen == l@.len());
    }
    let mut i: usize = 0;
    while i < mk.len()
        invariant
            i <= mk@.len(),
            at + mk@.len() <= l@.len(),
            l@.len() <= usize::MAX,
            forall|j: int| 0 <= j < i ==> lower_eq(l@[at + j], #[trigger] mk@[j]),
        decreases mk@.len() - i,
    {
        if !lower_eq_exec(l[at + i], mk[i]) {
            return false;
        }
        i += 1;
    }
    true
}

fn contains_ci_exec(l: &Vec<char>, mk: &Vec<char>) -> (b: bool)
    ensures
        b == contains_ci(l@, mk@),
{
    if mk.len() > l.len() {
        return false;
    }
    let llen = l.len();
    proof {
        assert(llen == l@.len());
    }
    if mk.len() == 0 {
        assert(occurs_ci_at(l@, mk@, 0));
        return true;
    }
    let last = l.len() - mk.len();
    let mut at: usize = 0;
    while at <= last
        invariant
            at <= last + 1,
            last == l@.len() - mk@.len(),
            l@.len() <= usize::MAX,
            1 <= mk@.len() <= l@.len(),
            forall|j: int| 0 <= j < at ==> !occurs_ci_at(l@, mk@, j),
        decreases last + 1 - at,
    {
        if matches_ci_at(l, mk, at) {
            return true;
        }
        at += 1;
    }
    assert(forall|j: int| occurs_ci_at(l@, mk@, j) ==> 0 <= j <= last);
    false
}

/// The vendor a probe line names, by its first matching marker.
pub open spec fn vendor_in_line(l: Seq<char>) -> Option<Seq<char>> {
    if contains_ci(l, "openjdk"@) {
        Some("OpenJDK"@)
    } else if contains_ci(l, "temurin"@) {
        Some("Temurin"@)
    } else if contains_ci(l, "corretto"@) {
        Some("Amazon Corretto"@)
    } else if contains_ci(l, "oracle"@) {
        Some("Oracle"@)
    } else {
        None
    }
}

fn vendor_in_line_exec(l: &Vec<char>) -> (r: Option<String>)
    ensures
        r.deep_view() == vendor_in_line(l@),
{
    let m1 = chars_of("openjdk");
    let m2 = chars_of("temurin");
    let m3 = chars_of("corretto");
    let m4 = chars_of("oracle");
    if contains_ci_exec(l, &m1) {
        let v = chars_of("OpenJDK");
        Some(string_from_chars(&v))
    } else if contains_ci_exec(l, &m2) {
        let v = chars_of("Temurin");
        Some(string_from_chars(&v))
    } else if contains_ci_exec(l, &m3) {
        let v = chars_of("Amazon Corretto");
        Some(string_from_chars(&v))
    } else if contains_ci_exec(l, &m4) {
        let v = chars_of("Oracle");
        Some(string_from_chars(&v))
    } else {
        None
    }
}

// ---------------------------------------------------------------------------
// The scan over all lines
// ---------------------------------------------------------------------------

/// Walks the lines in order, filling the version from the first line with a
/// quoted version token and the vendor from the first line with a marker,
/// stopping once both are known.
pub open spec fn scan_meta(
    lines: Seq<Seq<char>>,
    from: int,
    ver: Option<Seq<char>>,
    ven: Option<Seq<char>>,
) -> (Option<Seq<char>>, Option<Seq<char>>)
    recommends
        0 <= from <= lines.len(),
    decreases lines.len() - from
        when 0 <= from <= lines.len()
{
    if from >= lines.len() || (ver is Some && ven is Some) {
        (ver, ven)
    } else {
        let ver2 = if ver is None {
            version_in_line(lines[from])
        } else {
            ver
        };
        let ven2 = if ven is None {
            vendor_in_line(lines[from])
        } else {
            ven
        };
        scan_meta(lines, from + 1, ver2, ven2)
    }
}

// ---------------------------------------------------------------------------
// The fallback version-like token
// ---------------------------------------------------------------------------

pub open spec fn ws_char(c: char) -> bool {
    c == ' ' || c == '\t' || c == '\r' || c == '\n' || c == '\u{b}' || c == '\u{c}'
}

/// The least index `i >= from` of a whitespace character, or `s.len()`.
pub open spec fn find_ws(s: Seq<char>, from: int) -> int
    recommends
        0 <= from <= s.len(),
    decreases s.len() - from
        when 0 <= from <= s.len()
{
    if from >= s.len() {
        s.len() as int
    } else if ws_char(s[from]) {
        from
    } else {
        find_ws(s, from + 1)
    }
}

proof fn lemma_find_ws_at(s: Seq<char>, from: int, i: int)
    requires
        0 <= from <= i <= s.len(),
        forall|j: int| from <= j < i ==> !ws_char(s[j]),
        i < s.len() ==> ws_char(s[i]),
    ensures
        find_ws(s, from) == if i < s.len() {
            i
        } else {
            s.len() as int
        },
    decreases i - from,
{
    if from < i {
        lemma_find_ws_at(s, from + 1, i);
    }
}

fn ws_char_exec(c: char) -> (b: bool)
    ensures
        b == ws_char(c),
{
    c == ' ' || c == '\t' || c == '\r' || c == '\n' || c == '\u{b}' || c == '\u{c}'
}

fn find_ws_exec(l: &Vec<char>, from: usize) -> (r: usize)
    requires
        from <= l@.len(),
    ensures
        r == find_ws(l@, from as int),
        from <= r <= l@.len(),
        r < l@.len() ==> ws_char(l@[r as int]),
{
    let mut i: usize = from;
    while i < l.len()
        invariant
            from <= i <= l@.len(),
            forall|j: int| from <= j < i ==> !ws_char(l@[j]),
        decreases l@.len() - i,
    {
        if ws_char_exec(l[i]) {
            proof {
                lemma_find_ws_at(l@, from as int, i as int);
            }
            return i;
        }
        i += 1;
    }
    proof {
        lemma_find_ws_at(l@, from as int, l@.len() as int);
    }
    i
}

/// `s[from..]` cut at every whitespace character, separators dropped; empty
/// pieces stay and are harmless to the token scan.
pub open spec fn split_ws_from(s: Seq<char>, from: int) -> Seq<Seq<char>>
    recommends
        0 <= from <= s.len(),
    decreases s.len() - from
        when 0 <= from <= s.len()
{
    let i = find_ws(s, from);
    if i >= s.len() {
        seq![s.subrange(from, s.len() as int)]
    } else if from <= i < s.len() {
        seq![s.subrange(from, i)] + split_ws_from(s, i + 1)
    } else {
        Seq::empty()
    }
}

pub open spec fn char_views(s: Seq<Vec<char>>) -> Seq<Seq<char>> {
    s.map_values(|v: Vec<char>| v@)
}

fn split_ws_exec(l: &Vec<char>) -> (r: Vec<Vec<char>>)
    ensures
        char_views(r@) == split_ws_from(l@, 0),
{
    let mut out: Vec<Vec<char>> = Vec::new();
    let mut start: usize = 0;
    loop
        invariant
            start <= l@.len(),
            split_ws_from(l@, 0) == char_views(out@) + split_ws_from(l@, start as int),
        decreases l@.len() - start,
    {
        let i = find_ws_exec(l, start);
        if i < l.len() {
            let piece = slice_range(l, start, i);
            proof {
                assert(char_views(out@.push(piece)) =~= char_views(out@) + seq![piece@]);
                assert(char_views(out@) + (seq![l@.subrange(start as int, i as int)]
                    + split_ws_from(l@, i + 1)) =~= (char_views(out@) + seq![l@.subrange(
                    start as int,
                    i as int,
                )]) + split_ws_from(l@, i + 1));
            }
            out.push(piece);
            start = i + 1;
        } else {
            let piece = slice_range(l, start, l.len());
            proof {
                assert(char_views(out@.push(piece)) =~= char_views(out@) + seq![piece@]);
                assert(split_ws_from(l@, start as int) =~= seq![l@.subrange(
                    start as int,
                    l@.len() as int,
                )]);
                assert(char_views(out@) + seq![piece@] =~= char_views(out@.push(piece)));
            }
            out.push(piece);
            proof {
                assert(char_views(out@) =~= split_ws_from(l@, 0));
            }
            return out;
        }
    }
}

/// A kept character of a version-like token: a digit, a dot or an underscore.
pub open spec fn vlike_keep(c: char) -> bool {
    is_ascii_digit_char(c) || c == '.' || c == '_'
}

/// The token with everything but digits, dots and underscores removed.
pub open spec fn cleaned(t: Seq<char>) -> Seq<char>
    decreases t.len(),
{
    if t.len() == 0 {
        Seq::empty()
    } else if vlike_keep(t.last()) {
        cleaned(t.drop_last()).push(t.last())
    } else {
        cleaned(t.drop_last())
    }
}

/// What `strip_version_like` makes of a token: the cleaned token when it kept
/// at least one digit and one dot, nothing otherwise.
pub open spec fn vlike(t: Seq<char>) -> Option<Seq<char>> {
    if (exists|i: int| 0 <= i < cleaned(t).len() && is_ascii_digit_char(#[trigger] cleaned(t)[i]))
        && (exists|i: int| 0 <= i < cleaned(t).len() && #[trigger] cleaned(t)[i] == '.') {
        Some(cleaned(t))
    } else {
        None
    }
}

/// Extracts the version-looking core of a token: its digits, dots and
/// underscores, provided at least one digit and one dot survive.
pub fn strip_version_like(token: &str) -> (r: Option<String>)
    ensures
        r.deep_view() == vlike(token@),
{
    let t = chars_of(token);
    let mut kept: Vec<char> = Vec::new();
    let mut digits = false;
    let mut has_dot = false;
    let mut i: usize = 0;
    while i < t.len()
        invariant
            i <= t@.len(),
            kept@ == cleaned(t@.subrange(0, i as int)),
            digits == exists|k: int|
                0 <= k < kept@.len() && is_ascii_digit_char(#[trigger] kept@[k]),
            has_dot == exists|k: int| 0 <= k < kept@.len() && #[trigger] kept@[k] == '.',
        decreases t@.len() - i,
    {
        let c = t[i];
        proof {
            let pre = t@.subrange(0, i as int);
            let cur = t@.subrange(0, i as int + 1);
            assert(cur.drop_last() =~= pre);
            assert(cur.last() == t@[i as int]);
        }
        let keep = (c >= '0' && c <= '9') || c == '.' || c == '_';
        if keep {
            let ghost pre_kept = kept@;
            kept.push(c);
            if c >= '0' && c <= '9' {
                proof {
                    assert(is_ascii_digit_char(kept@[kept@.len() - 1]));
                }
                digits = true;
            } else {
                proof {
                    assert(forall|k: int|
                        0 <= k < pre_kept.len() ==> #[trigger] kept@[k] == pre_kept[k]);
                    if exists|k: int|
                        0 <= k < kept@.len() && is_ascii_digit_char(#[trigger] kept@[k]) {
                        let w = choose|k: int|
                            0 <= k < kept@.len() && is_ascii_digit_char(#[trigger] kept@[k]);
                        if w < kept@.len() - 1 {
                            assert(is_ascii_digit_char(pre_kept[w]));
                        }
                    }
                    if exists|k: int|
                        0 <= k < pre_kept.len() && is_ascii_digit_char(#[trigger] pre_kept[k]) {
                        let w = choose|k: int|
                            0 <= k < pre_kept.len() && is_ascii_digit_char(
                                #[trigger] pre_kept[k],
                            );
                        assert(is_ascii_digit_char(kept@[w]));
                    }
                }
            }
            if c == '.' {
                proof {
                    assert(kept@[kept@.len() - 1] == '.');
                }
                has_dot = true;
            } else {
                proof {
                    assert(forall|k: int|
                        0 <= k < pre_kept.len() ==> #[trigger] kept@[k] == pre_kept[k]);
                    if exists|k: int| 0 <= k < kept@.len() && #[trigger] kept@[k] == '.' {
                        let w = choose|k: int| 0 <= k < kept@.len() && #[trigger] kept@[k] == '.';
                        if w < kept@.len() - 1 {
                            assert(pre_kept[w] == '.');
                        }
                    }
                    if exists|k: int| 0 <= k < pre_kept.len() && #[trigger] pre_kept[k] == '.' {
                        let w = choose|k: int|
                            0 <= k < pre_kept.len() && #[trigger] pre_kept[k] == '.';
                        assert(kept@[w] == '.');
                    }
                }
            }
        }
        i += 1;
    }
    proof {
        assert(t@.subrange(0, t@.len() as int) =~= t@);
    }
    if digits && has_dot {
        Some(string_from_chars(&kept))
    } else {
        None
    }
}

/// The first version-like token among the tokens, scanning left to right.
pub open spec fn first_vlike_tokens(ts: Seq<Seq<char>>, from: int) -> Option<Seq<char>>
    recommends
        0 <= from <= ts.len(),
    decreases ts.len() - from
        when 0 <= from <= ts.len()
{
    if from >= ts.len() {
        None
    } else if vlike(ts[from]) is Some {
        vlike(ts[from])
    } else {
        first_vlike_tokens(ts, from + 1)
    }
}

/// The first version-like token over all lines, line by line.
pub open spec fn first_vlike_lines(lines: Seq<Seq<char>>, from: int) -> Option<Seq<char>>
    recommends
        0 <= from <= lines.len(),
    decreases lines.len() - from
        when 0 <= from <= lines.len()
{
    if from >= lines.len() {
        None
    } else if first_vlike_tokens(split_ws_from(lines[from], 0), 0) is Some {
        first_vlike_tokens(split_ws_from(lines[from], 0), 0)
    } else {
        first_vlike_lines(lines, from + 1)
    }
}

proof fn lemma_fvt_skip(ts: Seq<Seq<char>>, from: int, j: int)
    requires
        0 <= from <= j <= ts.len(),
        forall|k: int| from <= k < j ==> vlike(#[trigger] ts[k]) is None,
    ensures
        first_vlike_tokens(ts, from) == first_vlike_tokens(ts, j),
    decreases j - from,
{
    if from < j {
        lemma_fvt_skip(ts, from + 1, j);
    }
}

proof fn lemma_fvl_skip(lines: Seq<Seq<char>>, from: int, j: int)
    requires
        0 <= from <= j <= lines.len(),
        forall|k: int|
            from <= k < j ==> first_vlike_tokens(split_ws_from(#[trigger] lines[k], 0), 0)
                is None,
    ensures
        first_vlike_lines(lines, from) == first_vlike_lines(lines, j),
    decreases j - from,
{
    if from < j {
        lemma_fvl_skip(lines, from + 1, j);
    }
}

// ---------------------------------------------------------------------------
// The whole parse
// ---------------------------------------------------------------------------

/// What a probe's combined output says about the binary.
#[derive(Debug, Clone)]
pub struct JavaMetadata {
    pub version: Option<String>,
    pub vendor: Option<String>,
}

/// The version the scan extracts: the quoted token when any line has one, the
/// first version-like token otherwise.
pub open spec fn probe_version(lines: Seq<Seq<char>>) -> Option<Seq<char>> {
    let m = scan_meta(lines, 0, None, None);
    if m.0 is Some {
        m.0
    } else {
        first_vlike_lines(lines, 0)
    }
}

/// The vendor the scan extracts.
pub open spec fn probe_vendor(lines: Seq<Seq<char>>) -> Option<Seq<char>> {
    scan_meta(lines, 0, None, None).1
}

/// Finds the first version-like token of one line, as the fallback pass does.
fn line_vlike(l: &Vec<char>) -> (r: Option<String>)
    ensures
        r.deep_view() == first_vlike_tokens(split_ws_from(l@, 0), 0),
{
    let toks = split_ws_exec(l);
    let ghost tv = char_views(toks@);
    let mut j: usize = 0;
    while j < toks.len()
        invariant
            j <= toks@.len(),
            tv == char_views(toks@),
            tv == split_ws_from(l@, 0),
            forall|k: int| 0 <= k < j ==> vlike(#[trigger] tv[k]) is None,
        decreases toks@.len() - j,
    {
        let ts = string_from_chars(&toks[j]);
        let got = strip_version_like(ts.as_str());
        match got {
            Some(v) => {
                proof {
                    lemma_fvt_skip(tv, 0, j as int);
                }
                return Some(v);
            },
            None => {},
        }
        j += 1;
    }
    proof {
        lemma_fvt_skip(tv, 0, toks@.len() as int);
    }
    None
}

/// Parses the combined stderr/stdout of a version probe into the detected
/// version and vendor, scanning stderr's lines first as the probe prints its
/// banner there.
pub fn parse_java_metadata(stderr: &Vec<u8>, stdout: &Vec<u8>) -> (r: JavaMetadata)
    ensures
        r.version.deep_view() == probe_version(decoded_lines(stderr@, stdout@)),
        r.vendor.deep_view() == probe_vendor(decoded_lines(stderr@, stdout@)),
{
    let err_lines = split_lines(stderr);
    let out_lines = split_lines(stdout);
    let ghost all_bytes = byte_views(err_lines@) + byte_views(out_lines@);
    let ghost glines = decoded_lines(stderr@, stdout@);
    proof {
        assert(glines =~= all_bytes.map_values(|l: Seq<u8>| lossy_of(l)));
    }

    let mut decoded: Vec<Vec<char>> = Vec::new();
    let mut i: usize = 0;
    while i < err_lines.len()
        invariant
            i <= err_lines@.len(),
            all_bytes == byte_views(err_lines@) + byte_views(out_lines@),
            glines == all_bytes.map_values(|l: Seq<u8>| lossy_of(l)),
            char_views(decoded@) == glines.subrange(0, i as int),
        decreases err_lines@.len() - i,
    {
        let s = bytes_to_string_lossy(&err_lines[i]);
        let cs = chars_of(s.as_str());
        proof {
            let pre = decoded@;
            assert(char_views(pre).len() == pre.len());
            assert(glines.subrange(0, i as int).len() == i as int);
            assert(pre.len() == i as int);
            assert(all_bytes[i as int] == err_lines@[i as int]@);
            assert(glines[i as int] == lossy_of(all_bytes[i as int]));
            assert(cs@ == lossy_of(all_bytes[i as int]));
            assert forall|k: int| 0 <= k < i as int + 1 implies char_views(pre.push(cs))[k]
                == glines.subrange(0, i as int + 1)[k] by {
                if k < i as int {
                    assert(char_views(pre)[k] == glines.subrange(0, i as int)[k]);
                    assert(pre.push(cs)[k] == pre[k]);
                } else {
                    assert(pre.push(cs)[k] == cs);
                }
            }
            assert(char_views(pre.push(cs)) =~= glines.subrange(0, i as int + 1));
        }
        decoded.push(cs);
        i += 1;
    }
    let mut j: usize = 0;
    while j < out_lines.len()
        invariant
            j <= out_lines@.len(),
            all_bytes == byte_views(err_lines@) + byte_views(out_lines@),
            glines == all_bytes.map_values(|l: Seq<u8>| lossy_of(l)),
            char_views(decoded@) == glines.subrange(0, err_lines@.len() + j as int),
        decreases out_lines@.len() - j,
    {
        let s = bytes_to_string_lossy(&out_lines[j]);
        let cs = chars_of(s.as_str());
        proof {
            let pre = decoded@;
            let at = err_lines@.len() + j as int;
            assert(char_views(pre).len() == pre.len());
            assert(glines.subrange(0, at).len() == at);
            assert(pre.len() == at);
            assert(all_bytes[at] == out_lines@[j as int]@);
            assert(glines[at] == lossy_of(all_bytes[at]));
            assert(cs@ == lossy_of(all_bytes[at]));
            assert forall|k: int| 0 <= k < at + 1 implies char_views(pre.push(cs))[k]
                == glines.subrange(0, at + 1)[k] by {
                if k < at {
                    assert(char_views(pre)[k] == glines.subrange(0, at)[k]);
                    assert(pre.push(cs)[k] == pre[k]);
                } else {
                    assert(pre.push(cs)[k] == cs);
                }
            }
            assert(char_views(pre.push(cs)) =~= glines.subrange(0, at + 1));
        }
        decoded.push(cs);
        j += 1;
    }
    proof {
        assert(glines.subrange(0, glines.len() as int) =~= glines);
        assert(char_views(decoded@) == glines);
    }

    let mut version: Option<String> = None;
    let mut vendor: Option<String> = None;
    let mut k: usize = 0;
    while k < decoded.len() && !(version.is_some() && vendor.is_some())
        invariant
            k <= decoded@.len(),
            char_views(decoded@) == glines,
            scan_meta(glines, 0, None, None) == scan_meta(
                glines,
                k as int,
                version.deep_view(),
                vendor.deep_view(),
            ),
        decreases decoded@.len() - k,
    {
        let ghost pre_v = version.deep_view();
        let ghost pre_n = vendor.deep_view();
        let line = &decoded[k];
        proof {
            assert(glines[k as int] == decoded@[k as int]@);
        }
        if version.is_none() {
            match version_in_line_exec(line) {
                Some(v) => {
                    version = Some(string_from_chars(&v));
                },
                None => {},
            }
        }
        if vendor.is_none() {
            match vendor_in_line_exec(line) {
                Some(v) => {
                    vendor = Some(v);
                },
                None => {},
            }
        }
        proof {
            assert(version.deep_view() == if pre_v is None {
                version_in_line(glines[k as int])
            } else {
                pre_v
            });
            assert(vendor.deep_view() == if pre_n is None {
                vendor_in_line(glines[k as int])
            } else {
                pre_n
            });
            assert(scan_meta(glines, k as int, pre_v, pre_n) == scan_meta(
                glines,
                k as int + 1,
                version.deep_view(),
                vendor.deep_view(),
            ));
        }
        k += 1;
    }
    proof {
        assert(scan_meta(glines, 0, None, None) == (version.deep_view(), vendor.deep_view()));
    }

    if version.is_none() {
        let mut m: usize = 0;
        while m < decoded.len()
            invariant
                m <= decoded@.len(),
                char_views(decoded@) == glines,
                glines == decoded_lines(stderr@, stdout@),
                version is None,
                scan_meta(glines, 0, None, None).0 is None,
                scan_meta(glines, 0, None, None).1 == vendor.deep_view(),
                forall|k: int|
                    0 <= k < m ==> first_vlike_tokens(
                        split_ws_from(#[trigger] glines[k], 0),
                        0,
                    ) is None,
            decreases decoded@.len() - m,
        {
            proof {
                assert(glines[m as int] == decoded@[m as int]@);
            }
            match line_vlike(&decoded[m]) {
                Some(v) => {
                    proof {
                        lemma_fvl_skip(glines, 0, m as int);
                    }
                    return JavaMetadata { version: Some(v), vendor };
                },
                None => {},
            }
            m += 1;
        }
        proof {
            lemma_fvl_skip(glines, 0, glines.len() as int);
        }
        JavaMetadata { version: None, vendor }
    } else {
        JavaMetadata { version, vendor }
    }
}

} // verus!
