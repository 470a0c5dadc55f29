//! The on-disk form of a `LoaderProfile`.
//!
//! Every installation strategy persists its profile as one JSON document and
//! the launch builder reads it back. The encoder writes a fixed canonical
//! shape; the decoder reads exactly that shape; and the round-trip law proves
//! that a profile written and re-read comes back equal in all fields.

use vstd::prelude::*;

use crate::loaders::lib_views;
use crate::models::{LoaderLibrary, LoaderProfile};
use crate::resolver::string_views;
use crate::text::{
    chars_of, joined, lemma_joined_push, push_str_chars, string_from_chars,
};

verus! {

// ---------------------------------------------------------------------------
// The encoded form
// ---------------------------------------------------------------------------

/// A string character as it is written: quotes and backslashes are escaped,
/// everything else stands as itself.
pub open spec fn esc_char(c: char) -> Seq<char> {
    if c == '"' || c == '\\' {
        seq!['\\', c]
    } else {
        seq![c]
    }
}

/// A string's characters as they are written.
pub open spec fn esc(s: Seq<char>) -> Seq<char>
    decreases s.len(),
{
    if s.len() == 0 {
        Seq::empty()
    } else {
        esc_char(s.first()) + esc(s.drop_first())
    }
}

/// A quoted, escaped string.
pub open spec fn enc_str(s: Seq<char>) -> Seq<char> {
    seq!['"'] + esc(s) + seq!['"']
}

/// An optional string: quoted when present, the null literal otherwise.
pub open spec fn enc_opt_str(o: Option<Seq<char>>) -> Seq<char> {
    match o {
        Some(s) => enc_str(s),
        None => "null"@,
    }
}

/// An array of strings.
pub open spec fn enc_str_array(items: Seq<Seq<char>>) -> Seq<char> {
    seq!['['] + joined(items.map_values(|s: Seq<char>| enc_str(s)), ","@) + seq![']']
}

/// One library object: its coordinate and its optional repository.
pub open spec fn enc_lib(l: (Seq<char>, Option<Seq<char>>)) -> Seq<char> {
    "{\"name\":"@ + enc_str(l.0) + ",\"url\":"@ + enc_opt_str(l.1) + seq!['}']
}

/// An array of library objects.
pub open spec fn enc_lib_array(libs: Seq<(Seq<char>, Option<Seq<char>>)>) -> Seq<char> {
    seq!['['] + joined(libs.map_values(|l: (Seq<char>, Option<Seq<char>>)| enc_lib(l)), ","@)
        + seq![']']
}

/// The whole profile document.
pub open spec fn enc_profile(
    main_class: Seq<char>,
    libs: Seq<(Seq<char>, Option<Seq<char>>)>,
    jvm_args: Seq<Seq<char>>,
    game_args: Seq<Seq<char>>,
) -> Seq<char> {
    "{\"main_class\":"@ + enc_str(main_class) + ",\"libraries\":"@ + enc_lib_array(libs)
        + ",\"jvm_args\":"@ + enc_str_array(jvm_args) + ",\"game_args\":"@ + enc_str_array(
        game_args,
    ) + seq!['}']
}

// ---------------------------------------------------------------------------
// The encoder
// ---------------------------------------------------------------------------

fn encode_str_into(out: &mut Vec<char>, s: &str)
    ensures
        final(out)@ == old(out)@ + enc_str(s@),
{
    let cs = chars_of(s);
    out.push('"');
    let mut i: usize = 0;
    while i < cs.len()
        invariant
            i <= cs@.len(),
            cs@ == s@,
            out@ == old(out)@ + seq!['"'] + esc(s@.subrange(0, i as int)),
        decreases cs@.len() - i,
    {
        let c = cs[i];
        proof {
            lemma_esc_snoc(s@.subrange(0, i as int + 1));
            assert(s@.subrange(0, i as int + 1).drop_last() =~= s@.subrange(0, i as int));
            assert(s@.subrange(0, i as int + 1).last() == s@[i as int]);
        }
        if c == '"' || c == '\\' {
            out.push('\\');
            out.push(c);
        } else {
            out.push(c);
        }
        i += 1;
        proof {
            assert(out@ =~= old(out)@ + seq!['"'] + esc(s@.subrange(0, i as int)));
        }
    }
    out.push('"');
    proof {
        assert(s@.subrange(0, s@.len() as int) =~= s@);
        assert(out@ =~= old(out)@ + enc_str(s@));
    }
}

/// Escaping one more trailing character appends its escape.
proof fn lemma_esc_snoc(s: Seq<char>)
    requires
        s.len() > 0,
    ensures
        esc(s) == esc(s.drop_last()) + esc_char(s.last()),
    decreases s.len(),
{
    if s.len() == 1 {
        assert(s.drop_first() =~= Seq::<char>::empty());
        assert(s.drop_last() =~= Seq::<char>::empty());
        assert(esc(s) =~= esc_char(s.first()));
        assert(esc(s.drop_last()) + esc_char(s.last()) =~= esc_char(s.first()));
    } else {
        lemma_esc_snoc(s.drop_first());
        assert(s.drop_first().drop_last() =~= s.drop_last().drop_first());
        assert(s.drop_first().last() == s.last());
        assert(s.drop_last().first() == s.first());
        assert(esc(s) == esc_char(s.first()) + esc(s.drop_first()));
        assert(esc(s.drop_last()) == esc_char(s.drop_last().first()) + esc(
            s.drop_last().drop_first(),
        ));
        assert(esc_char(s.first()) + (esc(s.drop_first().drop_last()) + esc_char(s.last()))
            =~= (esc_char(s.first()) + esc(s.drop_last().drop_first())) + esc_char(s.last()));
    }
}

fn encode_opt_str_into(out: &mut Vec<char>, o: &Option<String>)
    ensures
        final(out)@ == old(out)@ + enc_opt_str(
            match o {
                Some(s) => Some(s@),
                None => None,
            },
        ),
{
    match o {
        Some(s) => {
            encode_str_into(out, s.as_str());
        },
        None => {
            push_str_chars(out, "null");
        },
    }
}

fn encode_str_array_into(out: &mut Vec<char>, items: &Vec<String>)
    ensures
        final(out)@ == old(out)@ + enc_str_array(string_views(items@)),
{
    let ghost encs = string_views(items@).map_values(|s: Seq<char>| enc_str(s));
    out.push('[');
    let mut i: usize = 0;
    while i < items.len()
        invariant
            i <= items@.len(),
            encs == string_views(items@).map_values(|s: Seq<char>| enc_str(s)),
            encs.len() == items@.len(),
            out@ == old(out)@ + seq!['['] + joined(encs.subrange(0, i as int), ","@),
        decreases items@.len() - i,
    {
        if i > 0 {
            push_str_chars(out, ",");
        }
        encode_str_into(out, items[i].as_str());
        proof {
            let pre = encs.subrange(0, i as int);
            let cur = encs.subrange(0, i as int + 1);
            assert(cur =~= pre.push(encs[i as int]));
            assert(encs[i as int] == enc_str(items@[i as int]@));
            lemma_joined_push(pre, encs[i as int], ","@);
            if i == 0 {
                assert(pre.len() == 0);
                assert(joined(pre, ","@) =~= Seq::<char>::empty());
                assert(out@ =~= old(out)@ + seq!['['] + joined(cur, ","@));
            } else {
                assert(out@ =~= old(out)@ + seq!['['] + joined(cur, ","@));
            }
        }
        i += 1;
    }
    out.push(']');
    proof {
        assert(encs.subrange(0, encs.len() as int) =~= encs);
        assert(out@ =~= old(out)@ + enc_str_array(string_views(items@)));
    }
}

fn encode_lib_array_into(out: &mut Vec<char>, libs: &Vec<LoaderLibrary>)
    ensures
        final(out)@ == old(out)@ + enc_lib_array(lib_views(libs@)),
{
    let ghost encs = lib_views(libs@).map_values(
        |l: (Seq<char>, Option<Seq<char>>)| enc_lib(l),
    );
    out.push('[');
    let mut i: usize = 0;
    while i < libs.len()
        invariant
            i <= libs@.len(),
            encs == lib_views(libs@).map_values(|l: (Seq<char>, Option<Seq<char>>)| enc_lib(l)),
            encs.len() == libs@.len(),
            out@ == old(out)@ + seq!['['] + joined(encs.subrange(0, i as int), ","@),
        decreases libs@.len() - i,
    {
        if i > 0 {
            push_str_chars(out, ",");
        }
        push_str_chars(out, "{\"name\":");
        encode_str_into(out, libs[i].name.as_str());
        push_str_chars(out, ",\"url\":");
        encode_opt_str_into(out, &libs[i].url);
        out.push('}');
        proof {
            let pre = encs.subrange(0, i as int);
            let cur = encs.subrange(0, i as int + 1);
            assert(cur =~= pre.push(encs[i as int]));
            assert(lib_views(libs@)[i as int] == (
                libs@[i as int].name@,
                match libs@[i as int].url {
                    Some(u) => Some(u@),
                    None => None,
                },
            ));
            assert(encs[i as int] == enc_lib(lib_views(libs@)[i as int]));
            lemma_joined_push(pre, encs[i as int], ","@);
            if i == 0 {
                assert(joined(pre, ","@) =~= Seq::<char>::empty());
            }
            assert(out@ =~= old(out)@ + seq!['['] + joined(cur, ","@));
        }
        i += 1;
    }
    out.push(']');
    proof {
        assert(encs.subrange(0, encs.len() as int) =~= encs);
        assert(out@ =~= old(out)@ + enc_lib_array(lib_views(libs@)));
    }
}

/// Writes a profile as its canonical document.
pub fn encode_loader_profile(p: &LoaderProfile) -> (r: String)
    ensures
        r@ == enc_profile(
            p.main_class@,
            lib_views(p.libraries@),
            string_views(p.jvm_args@),
            string_views(p.game_args@),
        ),
{
    let mut out: Vec<char> = Vec::new();
    push_str_chars(&mut out, "{\"main_class\":");
    encode_str_into(&mut out, p.main_class.as_str());
    push_str_chars(&mut out, ",\"libraries\":");
    encode_lib_array_into(&mut out, &p.libraries);
    push_str_chars(&mut out, ",\"jvm_args\":");
    encode_str_array_into(&mut out, &p.jvm_args);
    push_str_chars(&mut out, ",\"game_args\":");
    encode_str_array_into(&mut out, &p.game_args);
    out.push('}');
    proof {
        assert(out@ =~= enc_profile(
            p.main_class@,
            lib_views(p.libraries@),
            string_views(p.jvm_args@),
            string_views(p.game_args@),
        ));
    }
    string_from_chars(&out)
}


// ---------------------------------------------------------------------------
// The decoder
// ---------------------------------------------------------------------------

/// Reads a string body up to its closing quote, undoing the escapes.
pub open spec fn p_str_body(s: Seq<char>, pos: int) -> Option<(Seq<char>, int)>
    decreases s.len() - pos
        when 0 <= pos <= s.len()
{
    if pos >= s.len() {
        None
    } else if s[pos] == '"' {
        Some((Seq::empty(), pos + 1))
    } else if s[pos] == '\\' {
        if pos + 1 < s.len() {
            match p_str_body(s, pos + 2) {
                Some(t) => Some((seq![s[pos + 1]] + t.0, t.1)),
                None => None,
            }
        } else {
            None
        }
    } else {
        match p_str_body(s, pos + 1) {
            Some(t) => Some((seq![s[pos]] + t.0, t.1)),
            None => None,
        }
    }
}

/// Reads a quoted string.
pub open spec fn p_str(s: Seq<char>, pos: int) -> Option<(Seq<char>, int)> {
    if 0 <= pos < s.len() && s[pos] == '"' {
        p_str_body(s, pos + 1)
    } else {
        None
    }
}

/// Expects a fixed literal.
pub open spec fn p_lit(s: Seq<char>, pos: int, lit: Seq<char>) -> Option<int> {
    if 0 <= pos && pos + lit.len() <= s.len() && s.subrange(pos, pos + lit.len()) == lit {
        Some(pos + lit.len())
    } else {
        None
    }
}

/// Reads a quoted string or the null literal.
pub open spec fn p_opt_str(s: Seq<char>, pos: int) -> Option<(Option<Seq<char>>, int)> {
    if 0 <= pos < s.len() && s[pos] == '"' {
        match p_str(s, pos) {
            Some(t) => Some((Some(t.0), t.1)),
            None => None,
        }
    } else {
        match p_lit(s, pos, "null"@) {
            Some(e) => Some((None, e)),
            None => None,
        }
    }
}

/// Reads the comma-separated strings of a non-empty array, up to and past the
/// closing bracket.
pub open spec fn p_str_items(s: Seq<char>, pos: int) -> Option<(Seq<Seq<char>>, int)>
    decreases s.len() - pos
        when 0 <= pos <= s.len()
{
    match p_str(s, pos) {
        None => None,
        Some(t) => if !(pos < t.1 <= s.len()) {
            None
        } else if t.1 < s.len() && s[t.1] == ',' {
            match p_str_items(s, t.1 + 1) {
                Some(r2) => Some((seq![t.0] + r2.0, r2.1)),
                None => None,
            }
        } else if t.1 < s.len() && s[t.1] == ']' {
            Some((seq![t.0], t.1 + 1))
        } else {
            None
        },
    }
}

/// Reads a string array.
pub open spec fn p_str_array(s: Seq<char>, pos: int) -> Option<(Seq<Seq<char>>, int)> {
    if 0 <= pos && pos + 1 < s.len() && s[pos] == '[' {
        if s[pos + 1] == ']' {
            Some((Seq::empty(), pos + 2))
        } else {
            p_str_items(s, pos + 1)
        }
    } else {
        None
    }
}

/// Reads one library object.
pub open spec fn p_lib(s: Seq<char>, pos: int) -> Option<((Seq<char>, Option<Seq<char>>), int)> {
    match p_lit(s, pos, "{\"name\":"@) {
        None => None,
        Some(e1) => match p_str(s, e1) {
            None => None,
            Some(t1) => match p_lit(s, t1.1, ",\"url\":"@) {
                None => None,
                Some(e2) => match p_opt_str(s, e2) {
                    None => None,
                    Some(t2) => match p_lit(s, t2.1, "}"@) {
                        None => None,
                        Some(e3) => Some(((t1.0, t2.0), e3)),
                    },
                },
            },
        },
    }
}

/// Reads the comma-separated objects of a non-empty library array.
pub open spec fn p_lib_items(s: Seq<char>, pos: int) -> Option<
    (Seq<(Seq<char>, Option<Seq<char>>)>, int),
>
    decreases s.len() - pos
        when 0 <= pos <= s.len()
{
    match p_lib(s, pos) {
        None => None,
        Some(t) => if !(pos < t.1 <= s.len()) {
            None
        } else if t.1 < s.len() && s[t.1] == ',' {
            match p_lib_items(s, t.1 + 1) {
                Some(r2) => Some((seq![t.0] + r2.0, r2.1)),
                None => None,
            }
        } else if t.1 < s.len() && s[t.1] == ']' {
            Some((seq![t.0], t.1 + 1))
        } else {
            None
        },
    }
}

/// Reads a library array.
pub open spec fn p_lib_array(s: Seq<char>, pos: int) -> Option<
    (Seq<(Seq<char>, Option<Seq<char>>)>, int),
> {
    if 0 <= pos && pos + 1 < s.len() && s[pos] == '[' {
        if s[pos + 1] == ']' {
            Some((Seq::empty(), pos + 2))
        } else {
            p_lib_items(s, pos + 1)
        }
    } else {
        None
    }
}

/// Reads a whole profile document.
pub open spec fn p_profile(s: Seq<char>, pos: int) -> Option<
    ((Seq<char>, Seq<(Seq<char>, Option<Seq<char>>)>, Seq<Seq<char>>, Seq<Seq<char>>), int),
> {
    match p_lit(s, pos, "{\"main_class\":"@) {
        None => None,
        Some(e1) => match p_str(s, e1) {
            None => None,
            Some(t1) => match p_lit(s, t1.1, ",\"libraries\":"@) {
                None => None,
                Some(e2) => match p_lib_array(s, e2) {
                    None => None,
                    Some(t2) => match p_lit(s, t2.1, ",\"jvm_args\":"@) {
                        None => None,
                        Some(e3) => match p_str_array(s, e3) {
                            None => None,
                            Some(t3) => match p_lit(s, t3.1, ",\"game_args\":"@) {
                                None => None,
                                Some(e4) => match p_str_array(s, e4) {
                                    None => None,
                                    Some(t4) => match p_lit(s, t4.1, "}"@) {
                                        None => None,
                                        Some(e5) => Some(((t1.0, t2.0, t3.0, t4.0), e5)),
                                    },
                                },
                            },
                        },
                    },
                },
            },
        },
    }
}

/// What decoding yields on a document: the four fields, provided the document
/// parses and is consumed whole.
pub open spec fn decode_spec(s: Seq<char>) -> Option<
    (Seq<char>, Seq<(Seq<char>, Option<Seq<char>>)>, Seq<Seq<char>>, Seq<Seq<char>>),
> {
    match p_profile(s, 0) {
        Some(t) => if t.1 == s.len() {
            Some(t.0)
        } else {
            None
        },
        None => None,
    }
}

fn parse_str_body(s: &Vec<char>, pos: usize) -> (r: Option<(Vec<char>, usize)>)
    requires
        pos <= s@.len(),
    ensures
        match r {
            Some(t) => p_str_body(s@, pos as int) == Some((t.0@, t.1 as int)) && pos < t.1
                <= s@.len(),
            None => p_str_body(s@, pos as int) is None,
        },
{
    let mut acc: Vec<char> = Vec::new();
    let mut p: usize = pos;
    loop
        invariant
            pos <= p <= s@.len(),
            (match p_str_body(s@, p as int) {
                Some(t) => p_str_body(s@, pos as int) == Some((acc@ + t.0, t.1)),
                None => p_str_body(s@, pos as int) is None,
            }),
        decreases s@.len() - p,
    {
        if p >= s.len() {
            return None;
        }
        let c = s[p];
        if c == '"' {
            proof {
                assert(p_str_body(s@, p as int) == Some((Seq::<char>::empty(), p as int + 1)));
                assert(acc@ + Seq::<char>::empty() =~= acc@);
            }
            return Some((acc, p + 1));
        } else if c == '\\' {
            if p + 1 >= s.len() {
                return None;
            }
            let ghost pre = acc@;
            acc.push(s[p + 1]);
            proof {
                if p_str_body(s@, p as int + 2) is Some {
                    let t = p_str_body(s@, p as int + 2)->Some_0;
                    assert(p_str_body(s@, p as int) == Some((seq![s@[p as int + 1]] + t.0, t.1)));
                    assert(pre + (seq![s@[p as int + 1]] + t.0) =~= (pre.push(
                        s@[p as int + 1],
                    )) + t.0);
                }
            }
            p += 2;
        } else {
            let ghost pre = acc@;
            acc.push(c);
            proof {
                if p_str_body(s@, p as int + 1) is Some {
                    let t = p_str_body(s@, p as int + 1)->Some_0;
                    assert(p_str_body(s@, p as int) == Some((seq![s@[p as int]] + t.0, t.1)));
                    assert(pre + (seq![s@[p as int]] + t.0) =~= (pre.push(s@[p as int])) + t.0);
                }
            }
            p += 1;
        }
    }
}

fn parse_str(s: &Vec<char>, pos: usize) -> (r: Option<(Vec<char>, usize)>)
    requires
        pos <= s@.len(),
    ensures
        match r {
            Some(t) => p_str(s@, pos as int) == Some((t.0@, t.1 as int)) && pos < t.1 <= s@.len(),
            None => p_str(s@, pos as int) is None,
        },
{
    if pos < s.len() && s[pos] == '"' {
        parse_str_body(s, pos + 1)
    } else {
        None
    }
}

fn parse_lit(s: &Vec<char>, pos: usize, lit: &Vec<char>) -> (r: Option<usize>)
    requires
        pos <= s@.len(),
    ensures
        match r {
            Some(e) => p_lit(s@, pos as int, lit@) == Some(e as int) && pos <= e <= s@.len(),
            None => p_lit(s@, pos as int, lit@) is None,
        },
{
    let slen = s.len();
    proof {
        assert(slen == s@.len());
    }
    if lit.len() > s.len() - pos {
        return None;
    }
    let mut i: usize = 0;
    while i < lit.len()
        invariant
            i <= lit@.len(),
            pos + lit@.len() <= s@.len(),
            s@.len() <= usize::MAX,
            forall|j: int| 0 <= j < i ==> s@[pos + j] == lit@[j],
        decreases lit@.len() - i,
    {
        if s[pos + i] != lit[i] {
            proof {
                assert(s@.subrange(pos as int, pos + lit@.len())[i as int] != lit@[i as int]);
            }
            return None;
        }
        i += 1;
    }
    proof {
        assert(s@.subrange(pos as int, pos + lit@.len()) =~= lit@);
    }
    Some(pos + lit.len())
}

fn parse_opt_str(s: &Vec<char>, pos: usize) -> (r: Option<(Option<String>, usize)>)
    requires
        pos <= s@.len(),
    ensures
        match r {
            Some(t) => p_opt_str(s@, pos as int) == Some((t.0.deep_view(), t.1 as int)) && pos
                < t.1 <= s@.len(),
            None => p_opt_str(s@, pos as int) is None,
        },
{
    if pos < s.len() && s[pos] == '"' {
        match parse_str(s, pos) {
            Some((v, e)) => Some((Some(string_from_chars(&v)), e)),
            None => None,
        }
    } else {
        let null_lit = chars_of("null");
        proof {
            reveal_strlit("null");
        }
        match parse_lit(s, pos, &null_lit) {
            Some(e) => {
                proof {
                    assert(e as int == pos as int + 4);
                }
                Some((None, e))
            },
            None => None,
        }
    }
}

fn parse_str_array(s: &Vec<char>, pos: usize) -> (r: Option<(Vec<String>, usize)>)
    requires
        pos <= s@.len(),
    ensures
        match r {
            Some(t) => p_str_array(s@, pos as int) == Some((string_views(t.0@), t.1 as int))
                && pos < t.1 <= s@.len(),
            None => p_str_array(s@, pos as int) is None,
        },
{
    if pos >= s.len() || s[pos] != '[' {
        return None;
    }
    if pos + 1 >= s.len() {
        return None;
    }
    if s[pos + 1] == ']' {
        let empty: Vec<String> = Vec::new();
        proof {
            assert(string_views(Seq::<String>::empty()) =~= Seq::<Seq<char>>::empty());
        }
        return Some((empty, pos + 2));
    }
    let mut out: Vec<String> = Vec::new();
    let mut p: usize = pos + 1;
    loop
        invariant
            pos as int + 1 <= p <= s@.len(),
            pos as int + 1 < s@.len(),
            s@[pos as int] == '[',
            s@[pos as int + 1] != ']',
            (match p_str_items(s@, p as int) {
                Some(t) => p_str_items(s@, pos as int + 1) == Some(
                    (string_views(out@) + t.0, t.1),
                ),
                None => p_str_items(s@, pos as int + 1) is None,
            }),
        decreases s@.len() - p,
    {
        let item = match parse_str(s, p) {
            Some(t) => t,
            None => {
                return None;
            },
        };
        let (v, e) = item;
        let ghost pre = out@;
        let ghost vv = v@;
        out.push(string_from_chars(&v));
        proof {
            assert(string_views(out@) =~= string_views(pre).push(vv));
        }
        if e < s.len() && s[e] == ',' {
            proof {
                if p_str_items(s@, e as int + 1) is Some {
                    let t2 = p_str_items(s@, e as int + 1)->Some_0;
                    assert(p_str_items(s@, p as int) == Some((seq![vv] + t2.0, t2.1)));
                    assert(string_views(pre) + (seq![vv] + t2.0) =~= string_views(pre).push(vv)
                        + t2.0);
                } else {
                    assert(p_str_items(s@, p as int) is None);
                }
            }
            p = e + 1;
        } else if e < s.len() && s[e] == ']' {
            proof {
                assert(p_str_items(s@, p as int) == Some((seq![vv], e as int + 1)));
                assert(string_views(pre) + seq![vv] =~= string_views(pre).push(vv));
            }
            return Some((out, e + 1));
        } else {
            return None;
        }
    }
}

fn parse_lib(s: &Vec<char>, pos: usize) -> (r: Option<(LoaderLibrary, usize)>)
    requires
        pos <= s@.len(),
    ensures
        match r {
            Some(t) => p_lib(s@, pos as int) == Some(
                (
                    (
                        t.0.name@,
                        match t.0.url {
                            Some(u) => Some(u@),
                            None => None,
                        },
                    ),
                    t.1 as int,
                ),
            ) && pos < t.1 <= s@.len(),
            None => p_lib(s@, pos as int) is None,
        },
{
    let lit1 = chars_of("{\"name\":");
    let e1 = match parse_lit(s, pos, &lit1) {
        Some(e) => e,
        None => {
            return None;
        },
    };
    let (name_chars, e2) = match parse_str(s, e1) {
        Some(t) => t,
        None => {
            return None;
        },
    };
    let lit2 = chars_of(",\"url\":");
    let e3 = match parse_lit(s, e2, &lit2) {
        Some(e) => e,
        None => {
            return None;
        },
    };
    let (url, e4) = match parse_opt_str(s, e3) {
        Some(t) => t,
        None => {
            return None;
        },
    };
    let lit3 = chars_of("}");
    let e5 = match parse_lit(s, e4, &lit3) {
        Some(e) => e,
        None => {
            return None;
        },
    };
    proof {
        reveal_strlit("}");
        assert(lit3@.len() == 1);
    }
    Some((LoaderLibrary { name: string_from_chars(&name_chars), url }, e5))
}

fn parse_lib_array(s: &Vec<char>, pos: usize) -> (r: Option<(Vec<LoaderLibrary>, usize)>)
    requires
        pos <= s@.len(),
    ensures
        match r {
            Some(t) => p_lib_array(s@, pos as int) == Some((lib_views(t.0@), t.1 as int)) && pos
                < t.1 <= s@.len(),
            None => p_lib_array(s@, pos as int) is None,
        },
{
    if pos >= s.len() || s[pos] != '[' {
        return None;
    }
    if pos + 1 >= s.len() {
        return None;
    }
    if s[pos + 1] == ']' {
        let empty: Vec<LoaderLibrary> = Vec::new();
        proof {
            assert(lib_views(Seq::<LoaderLibrary>::empty())
                =~= Seq::<(Seq<char>, Option<Seq<char>>)>::empty());
        }
        return Some((empty, pos + 2));
    }
    let mut out: Vec<LoaderLibrary> = Vec::new();
    let mut p: usize = pos + 1;
    loop
        invariant
            pos as int + 1 <= p <= s@.len(),
            pos as int + 1 < s@.len(),
            s@[pos as int] == '[',
            s@[pos as int + 1] != ']',
            (match p_lib_items(s@, p as int) {
                Some(t) => p_lib_items(s@, pos as int + 1) == Some((lib_views(out@) + t.0, t.1)),
                None => p_lib_items(s@, pos as int + 1) is None,
            }),
        decreases s@.len() - p,
    {
        let item = match parse_lib(s, p) {
            Some(t) => t,
            None => {
                return None;
            },
        };
        let (lib, e) = item;
        let ghost pre = out@;
        let ghost lv = (
            lib.name@,
            match &lib.url {
                Some(u) => Some(u@),
                None => None,
            },
        );
        out.push(lib);
        proof {
            assert(lib_views(out@) =~= lib_views(pre).push(lv));
        }
        if e < s.len() && s[e] == ',' {
            proof {
                if p_lib_items(s@, e as int + 1) is Some {
                    let t2 = p_lib_items(s@, e as int + 1)->Some_0;
                    assert(p_lib_items(s@, p as int) == Some((seq![lv] + t2.0, t2.1)));
                    assert(lib_views(pre) + (seq![lv] + t2.0) =~= lib_views(pre).push(lv) + t2.0);
                } else {
                    assert(p_lib_items(s@, p as int) is None);
                }
            }
            p = e + 1;
        } else if e < s.len() && s[e] == ']' {
            proof {
                assert(p_lib_items(s@, p as int) == Some((seq![lv], e as int + 1)));
                assert(lib_views(pre) + seq![lv] =~= lib_views(pre).push(lv));
            }
            return Some((out, e + 1));
        } else {
            return None;
        }
    }
}

/// Reads a profile back from its canonical document; nothing but the
/// canonical shape, consumed whole, is accepted.
pub fn decode_loader_profile(doc: &str) -> (r: Option<LoaderProfile>)
    ensures
        match r {
            Some(p) => decode_spec(doc@) == Some(
                (
                    p.main_class@,
                    lib_views(p.libraries@),
                    string_views(p.jvm_args@),
                    string_views(p.game_args@),
                ),
            ),
            None => decode_spec(doc@) is None,
        },
{
    let s = chars_of(doc);
    let lit1 = chars_of("{\"main_class\":");
    let e1 = match parse_lit(&s, 0, &lit1) {
        Some(e) => e,
        None => {
            return None;
        },
    };
    let (mc, e2) = match parse_str(&s, e1) {
        Some(t) => t,
        None => {
            return None;
        },
    };
    let lit2 = chars_of(",\"libraries\":");
    let e3 = match parse_lit(&s, e2, &lit2) {
        Some(e) => e,
        None => {
            return None;
        },
    };
    let (libs, e4) = match parse_lib_array(&s, e3) {
        Some(t) => t,
        None => {
            return None;
        },
    };
    let lit3 = chars_of(",\"jvm_args\":");
    let e5 = match parse_lit(&s, e4, &lit3) {
        Some(e) => e,
        None => {
            return None;
        },
    };
    let (jvm, e6) = match parse_str_array(&s, e5) {
        Some(t) => t,
        None => {
            return None;
        },
    };
    let lit4 = chars_of(",\"game_args\":");
    let e7 = match parse_lit(&s, e6, &lit4) {
        Some(e) => e,
        None => {
            return None;
        },
    };
    let (game, e8) = match parse_str_array(&s, e7) {
        Some(t) => t,
        None => {
            return None;
        },
    };
    let lit5 = chars_of("}");
    let e9 = match parse_lit(&s, e8, &lit5) {
        Some(e) => e,
        None => {
            return None;
        },
    };
    if e9 != s.len() {
        return None;
    }
    Some(
        LoaderProfile {
            main_class: string_from_chars(&mc),
            libraries: libs,
            jvm_args: jvm,
            game_args: game,
        },
    )
}


// ---------------------------------------------------------------------------
// The round trip
// ---------------------------------------------------------------------------

/// Splitting a known suffix at a known prefix: the characters of the prefix
/// stand at their offsets and the rest is the remaining suffix.
proof fn lemma_suffix_split(s: Seq<char>, pos: int, a: Seq<char>, b: Seq<char>)
    requires
        0 <= pos <= s.len(),
        s.subrange(pos, s.len() as int) == a + b,
    ensures
        pos + a.len() <= s.len(),
        s.subrange(pos + a.len(), s.len() as int) == b,
        s.subrange(pos, pos + a.len()) == a,
        forall|j: int| 0 <= j < a.len() ==> s[pos + j] == #[trigger] a[j],
        a.len() > 0 ==> s[pos] == a[0],
        a.len() > 1 ==> s[pos + 1] == a[1],
{
    let suf = s.subrange(pos, s.len() as int);
    assert(suf.len() == a.len() + b.len());
    if a.len() > 0 {
        assert(suf[0] == (a + b)[0]);
    }
    if a.len() > 1 {
        assert(suf[1] == (a + b)[1]);
    }
    assert forall|j: int| 0 <= j < a.len() implies s[pos + j] == #[trigger] a[j] by {
        assert(suf[j] == (a + b)[j]);
    }
    assert(s.subrange(pos, pos + a.len()) =~= a);
    assert forall|j: int|
        0 <= j < b.len() implies s.subrange(pos + a.len(), s.len() as int)[j] == #[trigger] b[j] by {
        assert(suf[a.len() + j] == (a + b)[a.len() + j]);
    }
    assert(s.subrange(pos + a.len(), s.len() as int) =~= b);
}

/// A literal at the head of the suffix parses to itself.
proof fn lemma_lit_rt(s: Seq<char>, pos: int, lit: Seq<char>, tail: Seq<char>)
    requires
        0 <= pos <= s.len(),
        s.subrange(pos, s.len() as int) == lit + tail,
    ensures
        p_lit(s, pos, lit) == Some(pos + lit.len()),
        pos + lit.len() <= s.len(),
        s.subrange(pos + lit.len(), s.len() as int) == tail,
{
    lemma_suffix_split(s, pos, lit, tail);
}

/// An escaped string body at the head of the suffix parses back to the
/// original string.
proof fn lemma_str_body_rt(s: Seq<char>, pos: int, v: Seq<char>, tail: Seq<char>)
    requires
        0 <= pos <= s.len(),
        s.subrange(pos, s.len() as int) == esc(v) + (seq!['"'] + tail),
    ensures
        p_str_body(s, pos) == Some((v, pos + esc(v).len() + 1)),
        pos + esc(v).len() + 1 <= s.len(),
        s.subrange(pos + esc(v).len() + 1, s.len() as int) == tail,
    decreases v.len(),
{
    if v.len() == 0 {
        assert(esc(v) =~= Seq::<char>::empty());
        assert(s.subrange(pos, s.len() as int) =~= seq!['"'] + tail);
        lemma_suffix_split(s, pos, seq!['"'], tail);
        assert(s[pos] == '"');
    } else {
        let c = v.first();
        let v2 = v.drop_first();
        assert(esc(v) == esc_char(c) + esc(v2));
        if c == '"' || c == '\\' {
            assert(esc_char(c) =~= seq!['\\', c]);
            assert(s.subrange(pos, s.len() as int) =~= seq!['\\', c] + (esc(v2) + (seq!['"']
                + tail))) by {
                assert((seq!['\\', c] + esc(v2)) + (seq!['"'] + tail) =~= seq!['\\', c] + (esc(v2)
                    + (seq!['"'] + tail)));
            }
            lemma_suffix_split(s, pos, seq!['\\', c], esc(v2) + (seq!['"'] + tail));
            assert(s[pos] == '\\');
            assert(s[pos + 1] == c);
            lemma_str_body_rt(s, pos + 2, v2, tail);
            assert(seq![s[pos + 1]] + v2 =~= v);
            assert(esc(v).len() == 2 + esc(v2).len());
        } else {
            assert(esc_char(c) =~= seq![c]);
            assert(s.subrange(pos, s.len() as int) =~= seq![c] + (esc(v2) + (seq!['"'] + tail)))
                by {
                assert((seq![c] + esc(v2)) + (seq!['"'] + tail) =~= seq![c] + (esc(v2) + (seq!['"']
                    + tail)));
            }
            lemma_suffix_split(s, pos, seq![c], esc(v2) + (seq!['"'] + tail));
            assert(s[pos] == c);
            lemma_str_body_rt(s, pos + 1, v2, tail);
            assert(seq![s[pos]] + v2 =~= v);
            assert(esc(v).len() == 1 + esc(v2).len());
        }
    }
}

/// A quoted string at the head of the suffix parses back to itself.
proof fn lemma_str_rt(s: Seq<char>, pos: int, v: Seq<char>, tail: Seq<char>)
    requires
        0 <= pos <= s.len(),
        s.subrange(pos, s.len() as int) == enc_str(v) + tail,
    ensures
        p_str(s, pos) == Some((v, pos + enc_str(v).len())),
        pos + enc_str(v).len() <= s.len(),
        s.subrange(pos + enc_str(v).len(), s.len() as int) == tail,
    decreases v.len(),
{
    assert(s.subrange(pos, s.len() as int) =~= seq!['"'] + (esc(v) + (seq!['"'] + tail))) by {
        assert((seq!['"'] + esc(v) + seq!['"']) + tail =~= seq!['"'] + (esc(v) + (seq!['"']
            + tail)));
    }
    lemma_suffix_split(s, pos, seq!['"'], esc(v) + (seq!['"'] + tail));
    assert(s[pos] == '"');
    lemma_str_body_rt(s, pos + 1, v, tail);
    assert(enc_str(v).len() == esc(v).len() + 2);
}

/// An optional string at the head of the suffix parses back to itself.
proof fn lemma_opt_rt(s: Seq<char>, pos: int, o: Option<Seq<char>>, tail: Seq<char>)
    requires
        0 <= pos <= s.len(),
        s.subrange(pos, s.len() as int) == enc_opt_str(o) + tail,
    ensures
        p_opt_str(s, pos) == Some((o, pos + enc_opt_str(o).len())),
        pos + enc_opt_str(o).len() <= s.len(),
        s.subrange(pos + enc_opt_str(o).len(), s.len() as int) == tail,
{
    match o {
        Some(v) => {
            lemma_str_rt(s, pos, v, tail);
            assert(s.subrange(pos, s.len() as int) =~= seq!['"'] + (esc(v) + (seq!['"'] + tail)))
                by {
                assert((seq!['"'] + esc(v) + seq!['"']) + tail =~= seq!['"'] + (esc(v) + (seq!['"']
                    + tail)));
            }
            lemma_suffix_split(s, pos, seq!['"'], esc(v) + (seq!['"'] + tail));
            assert(s[pos] == '"');
        },
        None => {
            reveal_strlit("null");
            lemma_lit_rt(s, pos, "null"@, tail);
            lemma_suffix_split(s, pos, "null"@, tail);
            assert(s[pos] == 'n');
        },
    }
}

/// The items of a non-empty string array parse back to themselves.
proof fn lemma_str_items_rt(s: Seq<char>, pos: int, items: Seq<Seq<char>>, tail: Seq<char>)
    requires
        0 <= pos <= s.len(),
        items.len() >= 1,
        s.subrange(pos, s.len() as int) == joined(
            items.map_values(|x: Seq<char>| enc_str(x)),
            ","@,
        ) + (seq![']'] + tail),
    ensures
        p_str_items(s, pos) == Some(
            (items, pos + joined(items.map_values(|x: Seq<char>| enc_str(x)), ","@).len() + 1),
        ),
        pos + joined(items.map_values(|x: Seq<char>| enc_str(x)), ","@).len() + 1 <= s.len(),
        s.subrange(
            pos + joined(items.map_values(|x: Seq<char>| enc_str(x)), ","@).len() + 1,
            s.len() as int,
        ) == tail,
    decreases items.len(),
{
    let m = items.map_values(|x: Seq<char>| enc_str(x));
    if items.len() == 1 {
        assert(joined(m, ","@) == m[0]);
        assert(m[0] == enc_str(items[0]));
        assert(s.subrange(pos, s.len() as int) =~= enc_str(items[0]) + (seq![']'] + tail));
        lemma_str_rt(s, pos, items[0], seq![']'] + tail);
        let e = pos + enc_str(items[0]).len();
        lemma_suffix_split(s, e, seq![']'], tail);
        assert(s[e] == ']');
        assert(seq![items[0]] =~= items);
    } else {
        let rest = items.drop_first();
        let mrest = rest.map_values(|x: Seq<char>| enc_str(x));
        assert(m.drop_first() =~= mrest);
        assert(joined(m, ","@) == m[0] + ","@ + joined(m.drop_first(), ","@));
        assert(m[0] == enc_str(items[0]));
        assert(s.subrange(pos, s.len() as int) =~= enc_str(items[0]) + (","@ + (joined(
            mrest,
            ","@,
        ) + (seq![']'] + tail)))) by {
            assert((enc_str(items[0]) + ","@ + joined(mrest, ","@)) + (seq![']'] + tail)
                =~= enc_str(items[0]) + (","@ + (joined(mrest, ","@) + (seq![']'] + tail))));
        }
        lemma_str_rt(s, pos, items[0], ","@ + (joined(mrest, ","@) + (seq![']'] + tail)));
        let e = pos + enc_str(items[0]).len();
        reveal_strlit(",");
        lemma_suffix_split(s, e, ","@, joined(mrest, ","@) + (seq![']'] + tail));
        assert(s[e] == ',');
        lemma_str_items_rt(s, e + 1, rest, tail);
        assert(seq![items[0]] + rest =~= items);
    }
}

/// A string array at the head of the suffix parses back to itself.
proof fn lemma_str_array_rt(s: Seq<char>, pos: int, items: Seq<Seq<char>>, tail: Seq<char>)
    requires
        0 <= pos <= s.len(),
        s.subrange(pos, s.len() as int) == enc_str_array(items) + tail,
    ensures
        p_str_array(s, pos) == Some((items, pos + enc_str_array(items).len())),
        pos + enc_str_array(items).len() <= s.len(),
        s.subrange(pos + enc_str_array(items).len(), s.len() as int) == tail,
{
    let m = items.map_values(|x: Seq<char>| enc_str(x));
    if items.len() == 0 {
        assert(joined(m, ","@) =~= Seq::<char>::empty());
        assert(s.subrange(pos, s.len() as int) =~= seq!['[', ']'] + tail);
        lemma_suffix_split(s, pos, seq!['[', ']'], tail);
        assert(s[pos] == '[');
        assert(s[pos + 1] == ']');
        assert(items =~= Seq::<Seq<char>>::empty());
        assert(enc_str_array(items).len() == 2);
    } else {
        assert(s.subrange(pos, s.len() as int) =~= seq!['['] + (joined(m, ","@) + (seq![']']
            + tail))) by {
            assert((seq!['['] + joined(m, ","@) + seq![']']) + tail =~= seq!['['] + (joined(
                m,
                ","@,
            ) + (seq![']'] + tail)));
        }
        lemma_suffix_split(s, pos, seq!['['], joined(m, ","@) + (seq![']'] + tail));
        assert(s[pos] == '[');
        lemma_str_items_rt(s, pos + 1, items, tail);
        assert(joined(m, ","@)[0] == m[0][0]) by {
            if m.len() > 1 {
                assert(joined(m, ","@) == m[0] + ","@ + joined(m.drop_first(), ","@));
                assert(m[0].len() >= 1);
            }
        }
        assert(m[0] == enc_str(items[0]));
        assert(m[0][0] == '"');
        assert(s[pos + 1] == joined(m, ","@)[0]) by {
            lemma_suffix_split(s, pos + 1, joined(m, ","@), seq![']'] + tail);
        }
        assert(s[pos + 1] != ']');
        assert(pos + 1 < s.len());
    }
}

/// A library object at the head of the suffix parses back to itself.
proof fn lemma_lib_rt(
    s: Seq<char>,
    pos: int,
    l: (Seq<char>, Option<Seq<char>>),
    tail: Seq<char>,
)
    requires
        0 <= pos <= s.len(),
        s.subrange(pos, s.len() as int) == enc_lib(l) + tail,
    ensures
        p_lib(s, pos) == Some((l, pos + enc_lib(l).len())),
        pos + enc_lib(l).len() <= s.len(),
        s.subrange(pos + enc_lib(l).len(), s.len() as int) == tail,
{
    let l1 = "{\"name\":"@;
    let l2 = ",\"url\":"@;
    let l3 = "}"@;
    reveal_strlit("}");
    assert(s.subrange(pos, s.len() as int) =~= l1 + (enc_str(l.0) + (l2 + (enc_opt_str(l.1) + (
    seq!['}'] + tail))))) by {
        assert((l1 + enc_str(l.0) + l2 + enc_opt_str(l.1) + seq!['}']) + tail =~= l1 + (enc_str(
            l.0,
        ) + (l2 + (enc_opt_str(l.1) + (seq!['}'] + tail)))));
    }
    lemma_lit_rt(s, pos, l1, enc_str(l.0) + (l2 + (enc_opt_str(l.1) + (seq!['}'] + tail))));
    let e1 = pos + l1.len();
    lemma_str_rt(s, e1, l.0, l2 + (enc_opt_str(l.1) + (seq!['}'] + tail)));
    let e2 = e1 + enc_str(l.0).len();
    lemma_lit_rt(s, e2, l2, enc_opt_str(l.1) + (seq!['}'] + tail));
    let e3 = e2 + l2.len();
    lemma_opt_rt(s, e3, l.1, seq!['}'] + tail);
    let e4 = e3 + enc_opt_str(l.1).len();
    assert(seq!['}'] =~= l3);
    lemma_lit_rt(s, e4, l3, tail);
    assert(enc_lib(l).len() == l1.len() + enc_str(l.0).len() + l2.len() + enc_opt_str(l.1).len()
        + 1);
}

/// The items of a non-empty library array parse back to themselves.
proof fn lemma_lib_items_rt(
    s: Seq<char>,
    pos: int,
    items: Seq<(Seq<char>, Option<Seq<char>>)>,
    tail: Seq<char>,
)
    requires
        0 <= pos <= s.len(),
        items.len() >= 1,
        s.subrange(pos, s.len() as int) == joined(
            items.map_values(|x: (Seq<char>, Option<Seq<char>>)| enc_lib(x)),
            ","@,
        ) + (seq![']'] + tail),
    ensures
        p_lib_items(s, pos) == Some(
            (
                items,
                pos + joined(
                    items.map_values(|x: (Seq<char>, Option<Seq<char>>)| enc_lib(x)),
                    ","@,
                ).len() + 1,
            ),
        ),
        pos + joined(items.map_values(|x: (Seq<char>, Option<Seq<char>>)| enc_lib(x)), ","@).len()
            + 1 <= s.len(),
        s.subrange(
            pos + joined(
                items.map_values(|x: (Seq<char>, Option<Seq<char>>)| enc_lib(x)),
                ","@,
            ).len() + 1,
            s.len() as int,
        ) == tail,
    decreases items.len(),
{
    let m = items.map_values(|x: (Seq<char>, Option<Seq<char>>)| enc_lib(x));
    if items.len() == 1 {
        assert(joined(m, ","@) == m[0]);
        assert(m[0] == enc_lib(items[0]));
        assert(s.subrange(pos, s.len() as int) =~= enc_lib(items[0]) + (seq![']'] + tail));
        lemma_lib_rt(s, pos, items[0], seq![']'] + tail);
        let e = pos + enc_lib(items[0]).len();
        lemma_suffix_split(s, e, seq![']'], tail);
        assert(s[e] == ']');
        assert(seq![items[0]] =~= items);
    } else {
        let rest = items.drop_first();
        let mrest = rest.map_values(|x: (Seq<char>, Option<Seq<char>>)| enc_lib(x));
        assert(m.drop_first() =~= mrest);
        assert(joined(m, ","@) == m[0] + ","@ + joined(m.drop_first(), ","@));
        assert(m[0] == enc_lib(items[0]));
        assert(s.subrange(pos, s.len() as int) =~= enc_lib(items[0]) + (","@ + (joined(
            mrest,
            ","@,
        ) + (seq![']'] + tail)))) by {
            assert((enc_lib(items[0]) + ","@ + joined(mrest, ","@)) + (seq![']'] + tail)
                =~= enc_lib(items[0]) + (","@ + (joined(mrest, ","@) + (seq![']'] + tail))));
        }
        lemma_lib_rt(s, pos, items[0], ","@ + (joined(mrest, ","@) + (seq![']'] + tail)));
        let e = pos + enc_lib(items[0]).len();
        reveal_strlit(",");
        lemma_suffix_split(s, e, ","@, joined(mrest, ","@) + (seq![']'] + tail));
        assert(s[e] == ',');
        lemma_lib_items_rt(s, e + 1, rest, tail);
        assert(seq![items[0]] + rest =~= items);
    }
}

/// A library array at the head of the suffix parses back to itself.
proof fn lemma_lib_array_rt(
    s: Seq<char>,
    pos: int,
    items: Seq<(Seq<char>, Option<Seq<char>>)>,
    tail: Seq<char>,
)
    requires
        0 <= pos <= s.len(),
        s.subrange(pos, s.len() as int) == enc_lib_array(items) + tail,
    ensures
        p_lib_array(s, pos) == Some((items, pos + enc_lib_array(items).len())),
        pos + enc_lib_array(items).len() <= s.len(),
        s.subrange(pos + enc_lib_array(items).len(), s.len() as int) == tail,
{
    let m = items.map_values(|x: (Seq<char>, Option<Seq<char>>)| enc_lib(x));
    if items.len() == 0 {
        assert(joined(m, ","@) =~= Seq::<char>::empty());
        assert(s.subrange(pos, s.len() as int) =~= seq!['[', ']'] + tail);
        lemma_suffix_split(s, pos, seq!['[', ']'], tail);
        assert(s[pos] == '[');
        assert(s[pos + 1] == ']');
        assert(items =~= Seq::<(Seq<char>, Option<Seq<char>>)>::empty());
        assert(enc_lib_array(items).len() == 2);
    } else {
        assert(s.subrange(pos, s.len() as int) =~= seq!['['] + (joined(m, ","@) + (seq![']']
            + tail))) by {
            assert((seq!['['] + joined(m, ","@) + seq![']']) + tail =~= seq!['['] + (joined(
                m,
                ","@,
            ) + (seq![']'] + tail)));
        }
        lemma_suffix_split(s, pos, seq!['['], joined(m, ","@) + (seq![']'] + tail));
        assert(s[pos] == '[');
        lemma_lib_items_rt(s, pos + 1, items, tail);
        assert(joined(m, ","@)[0] == m[0][0]) by {
            if m.len() > 1 {
                assert(joined(m, ","@) == m[0] + ","@ + joined(m.drop_first(), ","@));
                assert(m[0].len() >= 1);
            }
        }
        assert(m[0] == enc_lib(items[0]));
        reveal_strlit("{\"name\":");
        assert(m[0][0] == '{');
        assert(s[pos + 1] == joined(m, ","@)[0]) by {
            lemma_suffix_split(s, pos + 1, joined(m, ","@), seq![']'] + tail);
        }
        assert(s[pos + 1] != ']');
        assert(pos + 1 < s.len());
    }
}

/// The round trip: a profile written to disk as its canonical document and
/// read back yields a value equal in all fields to the one the installation
/// strategy produced.
#[verifier::rlimit(100)]
#[verifier::spinoff_prover]
pub proof fn lemma_profile_roundtrip(
    main_class: Seq<char>,
    libs: Seq<(Seq<char>, Option<Seq<char>>)>,
    jvm_args: Seq<Seq<char>>,
    game_args: Seq<Seq<char>>,
)
    ensures
        decode_spec(enc_profile(main_class, libs, jvm_args, game_args)) == Some(
            (main_class, libs, jvm_args, game_args),
        ),
{
    let l1 = "{\"main_class\":"@;
    let l2 = ",\"libraries\":"@;
    let l3 = ",\"jvm_args\":"@;
    let l4 = ",\"game_args\":"@;
    let l5 = "}"@;
    reveal_strlit("}");
    let s = enc_profile(main_class, libs, jvm_args, game_args);
    let t5: Seq<char> = Seq::empty();
    let t4 = seq!['}'] + t5;
    let t3 = enc_str_array(game_args) + t4;
    let t2b = l4 + t3;
    let t2 = enc_str_array(jvm_args) + t2b;
    let t1b = l3 + t2;
    let t1 = enc_lib_array(libs) + t1b;
    let t0b = l2 + t1;
    let t0 = enc_str(main_class) + t0b;
    assert(s.subrange(0, s.len() as int) =~= s);
    assert(s =~= l1 + t0);
    lemma_lit_rt(s, 0, l1, t0);
    let e1 = l1.len() as int;
    lemma_str_rt(s, e1, main_class, t0b);
    let e2 = e1 + enc_str(main_class).len();
    lemma_lit_rt(s, e2, l2, t1);
    let e3 = e2 + l2.len();
    lemma_lib_array_rt(s, e3, libs, t1b);
    let e4 = e3 + enc_lib_array(libs).len();
    lemma_lit_rt(s, e4, l3, t2);
    let e5 = e4 + l3.len();
    lemma_str_array_rt(s, e5, jvm_args, t2b);
    let e6 = e5 + enc_str_array(jvm_args).len();
    lemma_lit_rt(s, e6, l4, t3);
    let e7 = e6 + l4.len();
    lemma_str_array_rt(s, e7, game_args, t4);
    let e8 = e7 + enc_str_array(game_args).len();
    assert(seq!['}'] =~= l5);
    lemma_lit_rt(s, e8, l5, t5);
    let e9 = e8 + 1;
    assert(e9 == s.len()) by {
        assert(s.subrange(e9, s.len() as int) == t5);
        assert(s.subrange(e9, s.len() as int).len() == s.len() - e9);
    }
}

} // verus!
