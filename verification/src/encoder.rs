//! The wire format of a change notification: a JSON object carrying the
//! changed paths and the dropped flag, for example
//! `{"paths":["a.txt","b/c.txt"],"dropped":false}`.
//!
//! Encoding is total: any path characters can be carried, because the quote,
//! the backslash and the newline are escaped. Decoding inverts encoding
//! exactly, which `lemma_round_trip` proves for every path list and flag.

use vstd::prelude::*;
use crate::text::{str_to_chars, string_from_chars};

verus! {

/// One notification delivered to a client: the changed paths that survived
/// filtering, and whether an earlier notification was lost to backpressure.
pub struct ChangeEvent {
    /// The changed paths, root-relative or absolute as the watcher reports
    /// them.
    pub paths: Vec<String>,
    /// True when at least one earlier notification could not be queued.
    pub dropped: bool,
}

/// How one path character is written inside a quoted string.
pub open spec fn spec_escape_char(c: char) -> Seq<char> {
    if c == '"' {
        seq!['\\', '"']
    } else if c == '\\' {
        seq!['\\', '\\']
    } else if c == '\n' {
        seq!['\\', 'n']
    } else {
        seq![c]
    }
}

/// A path written inside a quoted string, character by character.
pub open spec fn spec_escape(s: Seq<char>) -> Seq<char>
    decreases s.len(),
{
    if s.len() == 0 {
        Seq::empty()
    } else {
        spec_escape_char(s[0]) + spec_escape(s.drop_first())
    }
}

/// A path as a quoted, escaped string literal.
pub open spec fn spec_quoted(p: Seq<char>) -> Seq<char> {
    seq!['"'] + spec_escape(p) + seq!['"']
}

/// The list items after the first, each preceded by a comma, closed by `]`.
pub open spec fn spec_encode_tail(ps: Seq<Seq<char>>) -> Seq<char>
    decreases ps.len(),
{
    if ps.len() == 0 {
        seq![']']
    } else {
        seq![','] + spec_quoted(ps[0]) + spec_encode_tail(ps.drop_first())
    }
}

/// The whole path list, brackets included.
pub open spec fn spec_encode_list(ps: Seq<Seq<char>>) -> Seq<char> {
    if ps.len() == 0 {
        seq!['[', ']']
    } else {
        seq!['['] + spec_quoted(ps[0]) + spec_encode_tail(ps.drop_first())
    }
}

/// The message up to the path list: `{"paths":`.
pub open spec fn spec_msg_prefix() -> Seq<char> {
    seq!['{', '"', 'p', 'a', 't', 'h', 's', '"', ':']
}

/// The message after the path list: `,"dropped":` with the flag and `}`.
pub open spec fn spec_msg_dropped(dropped: bool) -> Seq<char> {
    seq![',', '"', 'd', 'r', 'o', 'p', 'p', 'e', 'd', '"', ':'] + (if dropped {
        seq!['t', 'r', 'u', 'e']
    } else {
        seq!['f', 'a', 'l', 's', 'e']
    }) + seq!['}']
}

/// The full wire message for a path list and a dropped flag.
pub open spec fn spec_encode_event(paths: Seq<Seq<char>>, dropped: bool) -> Seq<char> {
    spec_msg_prefix() + spec_encode_list(paths) + spec_msg_dropped(dropped)
}

/// The character an escape sequence stands for, if the sequence is known.
pub open spec fn spec_unescape_char(c: char) -> Option<char> {
    if c == '"' {
        Some('"')
    } else if c == '\\' {
        Some('\\')
    } else if c == 'n' {
        Some('\n')
    } else {
        None
    }
}

/// Scanning the inside of a path list. In a string, characters accumulate in
/// `cur` until the closing quote; between strings only a comma followed by a
/// new string, or the closing bracket, may follow. Returns the collected
/// paths and the input left after the bracket.
pub open spec fn spec_scan_list(
    s: Seq<char>,
    cur: Seq<char>,
    acc: Seq<Seq<char>>,
    in_string: bool,
) -> Option<(Seq<Seq<char>>, Seq<char>)>
    decreases s.len(),
{
    if s.len() == 0 {
        None
    } else if in_string {
        if s[0] == '"' {
            spec_scan_list(s.drop_first(), Seq::empty(), acc.push(cur), false)
        } else if s[0] == '\\' {
            if s.len() < 2 {
                None
            } else {
                match spec_unescape_char(s[1]) {
                    Option::None => None,
                    Option::Some(c) => spec_scan_list(s.skip(2), cur.push(c), acc, true),
                }
            }
        } else {
            spec_scan_list(s.drop_first(), cur.push(s[0]), acc, true)
        }
    } else {
        if s[0] == ']' {
            Some((acc, s.drop_first()))
        } else if s[0] == ',' {
            if s.len() >= 2 && s[1] == '"' {
                spec_scan_list(s.skip(2), Seq::empty(), acc, true)
            } else {
                None
            }
        } else {
            None
        }
    }
}

/// Parsing a path list from the front of `s`: an opening bracket, then
/// either an immediate close or quoted strings.
pub open spec fn spec_parse_list(s: Seq<char>) -> Option<(Seq<Seq<char>>, Seq<char>)> {
    if s.len() < 2 {
        None
    } else if s[0] != '[' {
        None
    } else if s[1] == ']' {
        Some((Seq::empty(), s.skip(2)))
    } else if s[1] == '"' {
        spec_scan_list(s.skip(2), Seq::empty(), Seq::empty(), true)
    } else {
        None
    }
}

/// Decoding a whole message: the fixed prefix, the path list, and exactly
/// the dropped-flag tail.
pub open spec fn spec_decode(s: Seq<char>) -> Option<(Seq<Seq<char>>, bool)> {
    let pre = spec_msg_prefix();
    if s.len() < pre.len() || s.take(pre.len() as int) != pre {
        None
    } else {
        match spec_parse_list(s.skip(pre.len() as int)) {
            Option::None => None,
            Option::Some((paths, rest)) => if rest == spec_msg_dropped(true) {
                Some((paths, true))
            } else if rest == spec_msg_dropped(false) {
                Some((paths, false))
            } else {
                None
            },
        }
    }
}

/// Scanning an escaped path consumes it up to and including its closing
/// quote, and recovers the original characters.
proof fn lemma_scan_string(p: Seq<char>, rest: Seq<char>, cur: Seq<char>, acc: Seq<Seq<char>>)
    ensures
        spec_scan_list(spec_escape(p) + seq!['"'] + rest, cur, acc, true) == spec_scan_list(
            rest,
            Seq::empty(),
            acc.push(cur + p),
            false,
        ),
    decreases p.len(),
{
    let s = spec_escape(p) + seq!['"'] + rest;
    if p.len() == 0 {
        assert(s =~= seq!['"'] + rest);
        assert(s[0] == '"');
        assert(s.drop_first() =~= rest);
        assert(cur + p =~= cur);
    } else {
        let c = p[0];
        let p1 = p.drop_first();
        assert(spec_escape(p) == spec_escape_char(c) + spec_escape(p1));
        if c == '"' || c == '\\' || c == '\n' {
            let e = if c == '"' {
                '"'
            } else if c == '\\' {
                '\\'
            } else {
                'n'
            };
            assert(spec_escape_char(c) =~= seq!['\\', e]);
            assert(s[0] == '\\');
            assert(s[1] == e);
            assert(s.len() >= 2);
            assert(spec_unescape_char(e) == Some(c));
            assert(s.skip(2) =~= spec_escape(p1) + seq!['"'] + rest);
            lemma_scan_string(p1, rest, cur.push(c), acc);
            assert(cur.push(c) + p1 =~= cur + p);
        } else {
            assert(spec_escape_char(c) =~= seq![c]);
            assert(s[0] == c);
            assert(s.drop_first() =~= spec_escape(p1) + seq!['"'] + rest);
            lemma_scan_string(p1, rest, cur.push(c), acc);
            assert(cur.push(c) + p1 =~= cur + p);
        }
    }
}

/// Scanning the encoded tail of a list collects the remaining paths and
/// stops right after the closing bracket.
proof fn lemma_scan_tail(ps: Seq<Seq<char>>, rest: Seq<char>, acc: Seq<Seq<char>>)
    ensures
        spec_scan_list(spec_encode_tail(ps) + rest, Seq::empty(), acc, false) == Some(
            ((acc + ps), rest),
        ),
    decreases ps.len(),
{
    let s = spec_encode_tail(ps) + rest;
    if ps.len() == 0 {
        assert(s =~= seq![']'] + rest);
        assert(s[0] == ']');
        assert(s.drop_first() =~= rest);
        assert(acc + ps =~= acc);
    } else {
        let p = ps[0];
        let ps1 = ps.drop_first();
        assert(s =~= seq![',', '"'] + (spec_escape(p) + seq!['"'] + (spec_encode_tail(ps1)
            + rest)));
        assert(s[0] == ',');
        assert(s[1] == '"');
        assert(s.len() >= 2);
        assert(s.skip(2) =~= spec_escape(p) + seq!['"'] + (spec_encode_tail(ps1) + rest));
        lemma_scan_string(p, spec_encode_tail(ps1) + rest, Seq::empty(), acc);
        assert(Seq::<char>::empty() + p =~= p);
        lemma_scan_tail(ps1, rest, acc.push(p));
        assert(acc.push(p) + ps1 =~= acc + ps);
    }
}

/// Parsing an encoded list yields exactly the encoded paths and leaves
/// exactly what followed the list.
proof fn lemma_parse_encoded_list(ps: Seq<Seq<char>>, rest: Seq<char>)
    ensures
        spec_parse_list(spec_encode_list(ps) + rest) == Some((ps, rest)),
{
    let s = spec_encode_list(ps) + rest;
    if ps.len() == 0 {
        assert(s =~= seq!['[', ']'] + rest);
        assert(s[0] == '[');
        assert(s[1] == ']');
        assert(s.skip(2) =~= rest);
        assert(spec_parse_list(s) == Some((Seq::<Seq<char>>::empty(), rest)));
    } else {
        let p = ps[0];
        let ps1 = ps.drop_first();
        assert(s =~= seq!['[', '"'] + (spec_escape(p) + seq!['"'] + (spec_encode_tail(ps1)
            + rest)));
        assert(s[0] == '[');
        assert(s[1] == '"');
        assert(s.len() >= 2);
        assert(s[1] != ']');
        assert(s.skip(2) =~= spec_escape(p) + seq!['"'] + (spec_encode_tail(ps1) + rest));
        lemma_scan_string(p, spec_encode_tail(ps1) + rest, Seq::empty(), Seq::empty());
        assert(Seq::<char>::empty() + p =~= p);
        lemma_scan_tail(ps1, rest, seq![p]);
        assert(seq![p] + ps1 =~= ps);
    }
}

/// The encoded list before its closing bracket.
pub open spec fn spec_open_tail(ps: Seq<Seq<char>>) -> Seq<char>
    decreases ps.len(),
{
    if ps.len() == 0 {
        Seq::empty()
    } else {
        seq![','] + spec_quoted(ps[0]) + spec_open_tail(ps.drop_first())
    }
}

/// The opening bracket and the encoded items, the closing bracket not yet
/// written.
pub open spec fn spec_open_list(ps: Seq<Seq<char>>) -> Seq<char> {
    if ps.len() == 0 {
        seq!['[']
    } else {
        seq!['['] + spec_quoted(ps[0]) + spec_open_tail(ps.drop_first())
    }
}

proof fn lemma_open_tail_snoc(ps: Seq<Seq<char>>, p: Seq<char>)
    ensures
        spec_open_tail(ps.push(p)) == spec_open_tail(ps) + seq![','] + spec_quoted(p),
    decreases ps.len(),
{
    let whole = ps.push(p);
    if ps.len() == 0 {
        reveal_with_fuel(spec_open_tail, 2);
        assert(whole[0] == p);
        assert(whole.drop_first() =~= Seq::<Seq<char>>::empty());
        assert(spec_open_tail(whole) =~= seq![','] + spec_quoted(p));
        assert(spec_open_tail(ps) + seq![','] + spec_quoted(p) =~= seq![','] + spec_quoted(p));
    } else {
        lemma_open_tail_snoc(ps.drop_first(), p);
        assert(whole.drop_first() =~= ps.drop_first().push(p));
        assert(whole[0] == ps[0]);
        assert(seq![','] + spec_quoted(ps[0]) + (spec_open_tail(ps.drop_first()) + seq![',']
            + spec_quoted(p)) =~= (seq![','] + spec_quoted(ps[0]) + spec_open_tail(
            ps.drop_first(),
        )) + seq![','] + spec_quoted(p));
    }
}

proof fn lemma_open_list_snoc(ps: Seq<Seq<char>>, p: Seq<char>)
    ensures
        spec_open_list(ps.push(p)) == if ps.len() == 0 {
            seq!['['] + spec_quoted(p)
        } else {
            spec_open_list(ps) + seq![','] + spec_quoted(p)
        },
{
    let whole = ps.push(p);
    if ps.len() == 0 {
        reveal_with_fuel(spec_open_tail, 2);
        assert(whole[0] == p);
        assert(whole.drop_first() =~= Seq::<Seq<char>>::empty());
        assert(spec_open_list(whole) =~= seq!['['] + spec_quoted(p));
    } else {
        lemma_open_tail_snoc(ps.drop_first(), p);
        assert(whole.drop_first() =~= ps.drop_first().push(p));
        assert(whole[0] == ps[0]);
        assert(seq!['['] + spec_quoted(ps[0]) + (spec_open_tail(ps.drop_first()) + seq![',']
            + spec_quoted(p)) =~= (seq!['['] + spec_quoted(ps[0]) + spec_open_tail(
            ps.drop_first(),
        )) + seq![','] + spec_quoted(p));
    }
}

proof fn lemma_open_close_tail(ps: Seq<Seq<char>>)
    ensures
        spec_encode_tail(ps) == spec_open_tail(ps) + seq![']'],
    decreases ps.len(),
{
    if ps.len() == 0 {
        assert(spec_encode_tail(ps) =~= spec_open_tail(ps) + seq![']']);
    } else {
        lemma_open_close_tail(ps.drop_first());
        assert(seq![','] + spec_quoted(ps[0]) + (spec_open_tail(ps.drop_first()) + seq![']'])
            =~= (seq![','] + spec_quoted(ps[0]) + spec_open_tail(ps.drop_first())) + seq![']']);
    }
}

/// The closed list is the open list plus its bracket.
proof fn lemma_open_close(ps: Seq<Seq<char>>)
    ensures
        spec_encode_list(ps) == spec_open_list(ps) + seq![']'],
{
    if ps.len() == 0 {
        assert(spec_encode_list(ps) =~= spec_open_list(ps) + seq![']']);
    } else {
        lemma_open_close_tail(ps.drop_first());
        assert(seq!['['] + spec_quoted(ps[0]) + (spec_open_tail(ps.drop_first()) + seq![']'])
            =~= (seq!['['] + spec_quoted(ps[0]) + spec_open_tail(ps.drop_first())) + seq![']']);
    }
}

/// Escaping one more character appends its escape sequence.
proof fn lemma_escape_snoc(s: Seq<char>, c: char)
    ensures
        spec_escape(s.push(c)) == spec_escape(s) + spec_escape_char(c),
    decreases s.len(),
{
    let whole = s.push(c);
    if s.len() == 0 {
        reveal_with_fuel(spec_escape, 2);
        assert(whole[0] == c);
        assert(whole.drop_first() =~= Seq::<char>::empty());
        assert(spec_escape(whole) =~= spec_escape_char(c));
        assert(spec_escape(s) + spec_escape_char(c) =~= spec_escape_char(c));
    } else {
        lemma_escape_snoc(s.drop_first(), c);
        assert(whole.drop_first() =~= s.drop_first().push(c));
        assert(whole[0] == s[0]);
        assert(spec_escape_char(s[0]) + (spec_escape(s.drop_first()) + spec_escape_char(c)) =~= (
        spec_escape_char(s[0]) + spec_escape(s.drop_first())) + spec_escape_char(c));
    }
}

/// Append the escaped form of `p` to `out`.
fn escape_into(out: &mut Vec<char>, p: &Vec<char>)
    ensures
        final(out)@ == old(out)@ + spec_escape(p@),
{
    let ghost base = old(out)@;
    let mut k: usize = 0;
    proof {
        assert(p@.take(0) =~= Seq::<char>::empty());
        assert(out@ =~= base + spec_escape(p@.take(0)));
    }
    while k < p.len()
        invariant
            0 <= k <= p@.len(),
            out@ == base + spec_escape(p@.take(k as int)),
        decreases p@.len() - k,
    {
        let c = p[k];
        if c == '"' {
            out.push('\\');
            out.push('"');
        } else if c == '\\' {
            out.push('\\');
            out.push('\\');
        } else if c == '\n' {
            out.push('\\');
            out.push('n');
        } else {
            out.push(c);
        }
        proof {
            lemma_escape_snoc(p@.take(k as int), c);
            assert(p@.take(k + 1) =~= p@.take(k as int).push(p@[k as int]));
            assert(out@ =~= base + (spec_escape(p@.take(k as int)) + spec_escape_char(c)));
        }
        k += 1;
    }
    proof {
        assert(p@.take(p@.len() as int) =~= p@);
    }
}

/// Append a path as a quoted, escaped string literal.
fn push_quoted(out: &mut Vec<char>, p: &Vec<char>)
    ensures
        final(out)@ == old(out)@ + spec_quoted(p@),
{
    let ghost base = old(out)@;
    out.push('"');
    escape_into(out, p);
    out.push('"');
    proof {
        assert(out@ =~= base + spec_quoted(p@));
    }
}

/// Append the whole encoded path list, brackets included.
fn push_list(out: &mut Vec<char>, paths: &Vec<String>)
    ensures
        final(out)@ == old(out)@ + spec_encode_list(paths.deep_view()),
{
    let ghost base = old(out)@;
    let ghost dv = paths.deep_view();
    out.push('[');
    proof {
        assert(dv.take(0) =~= Seq::<Seq<char>>::empty());
        assert(out@ =~= base + spec_open_list(dv.take(0)));
    }
    let mut i: usize = 0;
    while i < paths.len()
        invariant
            0 <= i <= paths@.len(),
            dv == paths.deep_view(),
            dv.len() == paths@.len(),
            out@ == base + spec_open_list(dv.take(i as int)),
        decreases paths@.len() - i,
    {
        if i > 0 {
            out.push(',');
        }
        let p = str_to_chars(paths[i].as_str());
        proof {
            assert(p@ == dv[i as int]);
        }
        push_quoted(out, &p);
        proof {
            lemma_open_list_snoc(dv.take(i as int), dv[i as int]);
            assert(dv.take(i + 1) =~= dv.take(i as int).push(dv[i as int]));
            if i == 0 {
                assert(out@ =~= base + (seq!['['] + spec_quoted(p@)));
            } else {
                assert(out@ =~= base + (spec_open_list(dv.take(i as int)) + seq![',']
                    + spec_quoted(p@)));
            }
        }
        i += 1;
    }
    out.push(']');
    proof {
        assert(dv.take(dv.len() as int) =~= dv);
        lemma_open_close(dv);
        assert(out@ =~= base + spec_encode_list(dv));
    }
}

/// Append the dropped-flag tail of the message.
fn push_dropped_tail(out: &mut Vec<char>, dropped: bool)
    ensures
        final(out)@ == old(out)@ + spec_msg_dropped(dropped),
{
    let ghost base = old(out)@;
    out.push(',');
    out.push('"');
    out.push('d');
    out.push('r');
    out.push('o');
    out.push('p');
    out.push('p');
    out.push('e');
    out.push('d');
    out.push('"');
    out.push(':');
    if dropped {
        out.push('t');
        out.push('r');
        out.push('u');
        out.push('e');
    } else {
        out.push('f');
        out.push('a');
        out.push('l');
        out.push('s');
        out.push('e');
    }
    out.push('}');
    proof {
        assert(out@ =~= base + spec_msg_dropped(dropped));
    }
}

/// Encode a change notification as its wire message. Total: every event
/// encodes, whatever characters its paths hold.
pub fn encode_change_event(ev: &ChangeEvent) -> (r: String)
    ensures
        r@ == spec_encode_event(ev.paths.deep_view(), ev.dropped),
{
    let mut out: Vec<char> = Vec::new();
    out.push('{');
    out.push('"');
    out.push('p');
    out.push('a');
    out.push('t');
    out.push('h');
    out.push('s');
    out.push('"');
    out.push(':');
    proof {
        assert(out@ =~= spec_msg_prefix());
    }
    push_list(&mut out, &ev.paths);
    push_dropped_tail(&mut out, ev.dropped);
    proof {
        assert(out@ =~= spec_encode_event(ev.paths.deep_view(), ev.dropped));
    }
    string_from_chars(out)
}

/// Decode a wire message back into a change notification. Returns nothing
/// unless the message is exactly of the form this crate's encoder produces.
#[verifier::rlimit(100)]
pub fn decode_change_event(s: &str) -> (r: Option<ChangeEvent>)
    ensures
        match r {
            Option::None => spec_decode(s@) is None,
            Option::Some(ev) => spec_decode(s@) == Some((ev.paths.deep_view(), ev.dropped)),
        },
{
    let chars = str_to_chars(s);
    let n = chars.len();
    if n < 9 {
        return None;
    }
    let prefix_ok = chars[0] == '{' && chars[1] == '"' && chars[2] == 'p' && chars[3] == 'a'
        && chars[4] == 't' && chars[5] == 'h' && chars[6] == 's' && chars[7] == '"' && chars[8]
        == ':';
    if !prefix_ok {
        proof {
            if s@.take(9) == spec_msg_prefix() {
                assert(s@.take(9)[0] == s@[0] && s@.take(9)[0] == '{');
                assert(s@.take(9)[1] == s@[1] && s@.take(9)[1] == '"');
                assert(s@.take(9)[2] == s@[2] && s@.take(9)[2] == 'p');
                assert(s@.take(9)[3] == s@[3] && s@.take(9)[3] == 'a');
                assert(s@.take(9)[4] == s@[4] && s@.take(9)[4] == 't');
                assert(s@.take(9)[5] == s@[5] && s@.take(9)[5] == 'h');
                assert(s@.take(9)[6] == s@[6] && s@.take(9)[6] == 's');
                assert(s@.take(9)[7] == s@[7] && s@.take(9)[7] == '"');
                assert(s@.take(9)[8] == s@[8] && s@.take(9)[8] == ':');
                assert(false);
            }
        }
        return None;
    }
    proof {
        assert(s@.take(9) =~= spec_msg_prefix());
    }
    if n < 11 {
        proof {
            assert(s@.skip(9).len() < 2);
        }
        return None;
    }
    proof {
        assert(s@.skip(9)[0] == s@[9]);
        assert(s@.skip(9)[1] == s@[10]);
        assert(s@.skip(9).skip(2) =~= s@.skip(11));
    }
    if chars[9] != '[' {
        return None;
    }
    let mut acc: Vec<Vec<char>> = Vec::new();
    let mut pos: usize = 11;
    proof {
        assert(acc.deep_view() =~~= Seq::<Seq<char>>::empty());
    }
    if chars[10] == ']' {
        proof {
            assert(spec_parse_list(s@.skip(9)) == Some(
                (Seq::<Seq<char>>::empty(), s@.skip(11)),
            ));
        }
    } else if chars[10] == '"' {
        proof {
            assert(spec_parse_list(s@.skip(9)) == spec_scan_list(
                s@.skip(11),
                Seq::empty(),
                Seq::empty(),
                true,
            ));
        }
        let mut cur: Vec<char> = Vec::new();
        let mut in_string: bool = true;
        loop
            invariant_except_break
                11 <= pos <= n,
                n == s@.len(),
                chars@ == s@,
                s@.len() >= 9,
                s@.take(9) == spec_msg_prefix(),
                spec_parse_list(s@.skip(9)) == spec_scan_list(
                    s@.skip(pos as int),
                    cur@,
                    acc.deep_view(),
                    in_string,
                ),
            ensures
                11 <= pos <= n,
                spec_parse_list(s@.skip(9)) == Some((acc.deep_view(), s@.skip(pos as int))),
            decreases n - pos,
        {
            if pos >= n {
                proof {
                    assert(s@.skip(pos as int).len() == 0);
                    assert(spec_parse_list(s@.skip(9)) is None);
                }
                return None;
            }
            let ghost sp = s@.skip(pos as int);
            proof {
                assert(sp.len() == n - pos);
                assert(sp[0] == s@[pos as int]);
                assert(sp.drop_first() =~= s@.skip(pos + 1));
            }
            let c = chars[pos];
            if in_string {
                if c == '"' {
                    let ghost prev_acc = acc.deep_view();
                    let ghost prev_cur = cur@;
                    acc.push(cur);
                    cur = Vec::new();
                    in_string = false;
                    proof {
                        assert(acc.deep_view() =~~= prev_acc.push(prev_cur));
                    }
                    pos = pos + 1;
                } else if c == '\\' {
                    if pos + 1 >= n {
                        proof {
                            assert(sp.len() < 2);
                            assert(spec_parse_list(s@.skip(9)) is None);
                        }
                        return None;
                    }
                    proof {
                        assert(sp[1] == s@[pos + 1]);
                        assert(sp.skip(2) =~= s@.skip(pos + 2));
                    }
                    let d = chars[pos + 1];
                    if d == '"' {
                        cur.push('"');
                    } else if d == '\\' {
                        cur.push('\\');
                    } else if d == 'n' {
                        cur.push('\n');
                    } else {
                        proof {
                            assert(spec_unescape_char(d) is None);
                            assert(spec_parse_list(s@.skip(9)) is None);
                        }
                        return None;
                    }
                    pos = pos + 2;
                } else {
                    cur.push(c);
                    pos = pos + 1;
                }
            } else {
                if c == ']' {
                    proof {
                        assert(spec_scan_list(sp, cur@, acc.deep_view(), false) == Some(
                            (acc.deep_view(), s@.skip(pos + 1)),
                        ));
                    }
                    pos = pos + 1;
                    break ;
                } else if c == ',' {
                    if pos + 1 >= n {
                        proof {
                            assert(sp.len() < 2);
                            assert(spec_parse_list(s@.skip(9)) is None);
                        }
                        return None;
                    }
                    proof {
                        assert(sp[1] == s@[pos + 1]);
                        assert(sp.skip(2) =~= s@.skip(pos + 2));
                    }
                    if chars[pos + 1] == '"' {
                        in_string = true;
                        cur = Vec::new();
                        pos = pos + 2;
                    } else {
                        proof {
                            assert(spec_parse_list(s@.skip(9)) is None);
                        }
                        return None;
                    }
                } else {
                    proof {
                        assert(spec_parse_list(s@.skip(9)) is None);
                    }
                    return None;
                }
            }
        }
    } else {
        return None;
    }
    // Here the list is parsed: what remains must be exactly the dropped tail.
    let rem = n - pos;
    let ghost rest = s@.skip(pos as int);
    proof {
        assert(spec_parse_list(s@.skip(9)) == Some((acc.deep_view(), rest)));
        assert(rest.len() == rem);
        assert(forall|j: int| 0 <= j < rest.len() ==> rest[j] == s@[pos + j]);
        assert(spec_msg_dropped(true).len() == 16);
        assert(spec_msg_dropped(false).len() == 17);
    }
    let dropped: bool;
    if rem == 16 {
        let tail_ok = chars[pos] == ',' && chars[pos + 1] == '"' && chars[pos + 2] == 'd'
            && chars[pos + 3] == 'r' && chars[pos + 4] == 'o' && chars[pos + 5] == 'p' && chars[pos
            + 6] == 'p' && chars[pos + 7] == 'e' && chars[pos + 8] == 'd' && chars[pos + 9] == '"'
            && chars[pos + 10] == ':' && chars[pos + 11] == 't' && chars[pos + 12] == 'r'
            && chars[pos + 13] == 'u' && chars[pos + 14] == 'e' && chars[pos + 15] == '}';
        if !tail_ok {
            proof {
                if rest == spec_msg_dropped(true) {
                    assert(rest[0] == ',' && rest[1] == '"' && rest[2] == 'd' && rest[3] == 'r'
                        && rest[4] == 'o' && rest[5] == 'p' && rest[6] == 'p' && rest[7] == 'e'
                        && rest[8] == 'd' && rest[9] == '"' && rest[10] == ':' && rest[11] == 't'
                        && rest[12] == 'r' && rest[13] == 'u' && rest[14] == 'e' && rest[15]
                        == '}');
                    assert(false);
                }
                assert(rest != spec_msg_dropped(false));
            }
            return None;
        }
        proof {
            assert(rest =~= spec_msg_dropped(true));
        }
        dropped = true;
    } else if rem == 17 {
        let tail_ok = chars[pos] == ',' && chars[pos + 1] == '"' && chars[pos + 2] == 'd'
            && chars[pos + 3] == 'r' && chars[pos + 4] == 'o' && chars[pos + 5] == 'p' && chars[pos
            + 6] == 'p' && chars[pos + 7] == 'e' && chars[pos + 8] == 'd' && chars[pos + 9] == '"'
            && chars[pos + 10] == ':' && chars[pos + 11] == 'f' && chars[pos + 12] == 'a'
            && chars[pos + 13] == 'l' && chars[pos + 14] == 's' && chars[pos + 15] == 'e'
            && chars[pos + 16] == '}';
        if !tail_ok {
            proof {
                if rest == spec_msg_dropped(false) {
                    assert(rest[0] == ',' && rest[1] == '"' && rest[2] == 'd' && rest[3] == 'r'
                        && rest[4] == 'o' && rest[5] == 'p' && rest[6] == 'p' && rest[7] == 'e'
                        && rest[8] == 'd' && rest[9] == '"' && rest[10] == ':' && rest[11] == 'f'
                        && rest[12] == 'a' && rest[13] == 'l' && rest[14] == 's' && rest[15] == 'e'
                        && rest[16] == '}');
                    assert(false);
                }
                assert(rest != spec_msg_dropped(true));
            }
            return None;
        }
        proof {
            assert(rest =~= spec_msg_dropped(false));
        }
        dropped = false;
    } else {
        proof {
            assert(rest != spec_msg_dropped(true));
            assert(rest != spec_msg_dropped(false));
        }
        return None;
    }
    // Turn the collected characters back into strings.
    let ghost accdv = acc.deep_view();
    let mut paths: Vec<String> = Vec::new();
    let mut i: usize = 0;
    proof {
        assert(paths.deep_view() =~~= accdv.take(0));
    }
    while i < acc.len()
        invariant
            0 <= i <= acc@.len(),
            accdv == acc.deep_view(),
            accdv.len() == acc@.len(),
            paths.deep_view() == accdv.take(i as int),
        decreases acc@.len() - i,
    {
        let ghost prev = paths.deep_view();
        let copied = acc[i].clone();
        proof {
            assert(copied@ == acc@[i as int]@);
            assert(accdv[i as int] =~= acc@[i as int]@);
        }
        let text = string_from_chars(copied);
        paths.push(text);
        proof {
            assert(paths.deep_view() =~~= prev.push(accdv[i as int]));
            assert(accdv.take(i + 1) =~= accdv.take(i as int).push(accdv[i as int]));
        }
        i += 1;
    }
    proof {
        assert(accdv.take(accdv.len() as int) =~= accdv);
    }
    Some(ChangeEvent { paths, dropped })
}

/// Decoding inverts encoding: for every path list and flag, the encoded
/// message decodes to exactly that list and flag.
pub proof fn lemma_round_trip(paths: Seq<Seq<char>>, dropped: bool)
    ensures
        spec_decode(spec_encode_event(paths, dropped)) == Some((paths, dropped)),
{
    let s = spec_encode_event(paths, dropped);
    let pre = spec_msg_prefix();
    assert(s.len() >= pre.len()) by {
        assert(spec_encode_list(paths).len() >= 0);
    }
    assert(s.take(pre.len() as int) =~= pre);
    assert(s.skip(pre.len() as int) =~= spec_encode_list(paths) + spec_msg_dropped(dropped));
    lemma_parse_encoded_list(paths, spec_msg_dropped(dropped));
    if dropped {
        assert(spec_msg_dropped(true) != spec_msg_dropped(false)) by {
            assert(spec_msg_dropped(true).len() == 16);
            assert(spec_msg_dropped(false).len() == 17);
        }
    } else {
        assert(spec_msg_dropped(false) != spec_msg_dropped(true)) by {
            assert(spec_msg_dropped(true).len() == 16);
            assert(spec_msg_dropped(false).len() == 17);
        }
    }
}

} // verus!
