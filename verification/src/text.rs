//! Character-level helpers shared by the path filter, the resolver and the
//! wire-message encoder: conversion between strings and character vectors,
//! and splitting or joining character sequences on a separator.

use vstd::prelude::*;
use vstd::std_specs::iter::IteratorSpec;

verus! {

broadcast use vstd::string::group_string_axioms;

/// The characters of a string slice, collected front to back.
pub fn str_to_chars(s: &str) -> (r: Vec<char>)
    ensures
        r@ == s@,
{
    let mut it = s.chars();
    let mut r: Vec<char> = Vec::new();
    loop
        invariant
            it.obeys_prophetic_iter_laws(),
            it.decrease() is Some,
            r@ + it.remaining() == s@,
        ensures
            r@ + it.remaining() == s@,
            it.remaining().len() == 0,
        decreases it.decrease()->0,
    {
        match it.next() {
            Some(c) => {
                r.push(c);
            },
            None => {
                break ;
            },
        }
    }
    proof {
        assert(r@ =~= s@);
    }
    r
}

/// Relies on `String`'s `FromIterator` over `char`: collecting a vector of
/// characters yields the string holding exactly those characters, in order.
#[verifier::external_body]
pub fn string_from_chars(v: Vec<char>) -> (r: String)
    ensures
        r@ == v@,
{
    v.into_iter().collect()
}

/// One step of splitting `s` on `sep`, read from position `i` with the
/// partially built component `cur` and the finished components `acc`.
pub open spec fn split_from(
    s: Seq<char>,
    sep: char,
    i: int,
    cur: Seq<char>,
    acc: Seq<Seq<char>>,
) -> Seq<Seq<char>>
    decreases s.len() - i,
{
    if i < 0 || i >= s.len() {
        acc.push(cur)
    } else if s[i] == sep {
        split_from(s, sep, i + 1, Seq::empty(), acc.push(cur))
    } else {
        split_from(s, sep, i + 1, cur.push(s[i]), acc)
    }
}

/// The components of `s` separated by `sep`; an empty `s` has one empty
/// component, and adjacent separators produce empty components.
pub open spec fn spec_split(s: Seq<char>, sep: char) -> Seq<Seq<char>> {
    split_from(s, sep, 0, Seq::empty(), Seq::empty())
}

/// Splitting yields at least the components already gathered, plus one.
proof fn lemma_split_from_len(s: Seq<char>, sep: char, i: int, cur: Seq<char>, acc: Seq<Seq<char>>)
    ensures
        split_from(s, sep, i, cur, acc).len() > acc.len(),
    decreases s.len() - i,
{
    if i < 0 || i >= s.len() {
    } else if s[i] == sep {
        lemma_split_from_len(s, sep, i + 1, Seq::empty(), acc.push(cur));
    } else {
        lemma_split_from_len(s, sep, i + 1, cur.push(s[i]), acc);
    }
}

/// A split always has at least one component.
pub proof fn lemma_split_nonempty(s: Seq<char>, sep: char)
    ensures
        spec_split(s, sep).len() >= 1,
{
    lemma_split_from_len(s, sep, 0, Seq::empty(), Seq::empty());
}

/// Every position of every listed component differs from `sep`.
pub open spec fn sep_free(parts: Seq<Seq<char>>, sep: char) -> bool {
    forall|j: int, k: int|
        0 <= j < parts.len() && 0 <= k < parts[j].len() ==> (#[trigger] parts[j][k]) != sep
}

/// Every component that `split_from` returns beyond those already in `acc`
/// is free of the separator, provided `cur` is so far.
proof fn lemma_split_from_components(
    s: Seq<char>,
    sep: char,
    i: int,
    cur: Seq<char>,
    acc: Seq<Seq<char>>,
)
    requires
        forall|k: int| 0 <= k < cur.len() ==> cur[k] != sep,
        sep_free(acc, sep),
    ensures
        sep_free(split_from(s, sep, i, cur, acc), sep),
    decreases s.len() - i,
{
    if i < 0 || i >= s.len() {
        assert(sep_free(acc.push(cur), sep));
    } else if s[i] == sep {
        assert(sep_free(acc.push(cur), sep));
        lemma_split_from_components(s, sep, i + 1, Seq::empty(), acc.push(cur));
    } else {
        lemma_split_from_components(s, sep, i + 1, cur.push(s[i]), acc);
    }
}

/// No component of a split contains the separator.
pub proof fn lemma_split_components(s: Seq<char>, sep: char)
    ensures
        sep_free(spec_split(s, sep), sep),
{
    lemma_split_from_components(s, sep, 0, Seq::empty(), Seq::empty());
}

/// Split a character vector on a separator.
pub fn split_chars(s: &Vec<char>, sep: char) -> (r: Vec<Vec<char>>)
    ensures
        r.deep_view() == spec_split(s@, sep),
{
    let mut acc: Vec<Vec<char>> = Vec::new();
    let mut cur: Vec<char> = Vec::new();
    let mut i: usize = 0;
    proof {
        assert(acc.deep_view() =~= Seq::<Seq<char>>::empty());
    }
    while i < s.len()
        invariant
            0 <= i <= s@.len(),
            spec_split(s@, sep) == split_from(s@, sep, i as int, cur@, acc.deep_view()),
        decreases s@.len() - i,
    {
        let ghost prev_acc = acc.deep_view();
        let ghost prev_cur = cur@;
        let c = s[i];
        if c == sep {
            acc.push(cur);
            cur = Vec::new();
            proof {
                assert(acc.deep_view() =~~= prev_acc.push(prev_cur));
            }
        } else {
            cur.push(c);
        }
        i += 1;
    }
    let ghost prev_acc = acc.deep_view();
    let ghost last = cur@;
    acc.push(cur);
    proof {
        assert(acc.deep_view() =~~= prev_acc.push(last));
    }
    acc
}

/// Join components with a separator character.
pub open spec fn spec_join(parts: Seq<Seq<char>>, sep: char) -> Seq<char>
    decreases parts.len(),
{
    if parts.len() == 0 {
        Seq::empty()
    } else if parts.len() == 1 {
        parts[0]
    } else {
        parts[0] + seq![sep] + spec_join(parts.drop_first(), sep)
    }
}

/// Joining one more component appends a separator and the component.
pub proof fn lemma_join_push(parts: Seq<Seq<char>>, p: Seq<char>, sep: char)
    ensures
        spec_join(parts.push(p), sep) == if parts.len() == 0 {
            p
        } else {
            spec_join(parts, sep) + seq![sep] + p
        },
    decreases parts.len(),
{
    let whole = parts.push(p);
    if parts.len() == 0 {
        assert(whole.len() == 1);
        assert(whole[0] == p);
    } else if parts.len() == 1 {
        assert(whole.len() == 2);
        assert(whole.drop_first() =~= seq![p]);
        assert(spec_join(whole, sep) == whole[0] + seq![sep] + spec_join(seq![p], sep));
        assert(spec_join(seq![p], sep) == p);
        assert(whole[0] == parts[0]);
        assert(spec_join(parts, sep) == parts[0]);
    } else {
        lemma_join_push(parts.drop_first(), p, sep);
        assert(whole.drop_first() =~= parts.drop_first().push(p));
        assert(spec_join(whole, sep) == whole[0] + seq![sep] + spec_join(
            parts.drop_first().push(p),
            sep,
        ));
        assert(spec_join(parts.drop_first().push(p), sep) == spec_join(parts.drop_first(), sep)
            + seq![sep] + p);
        assert(whole[0] + seq![sep] + (spec_join(parts.drop_first(), sep) + seq![sep] + p) =~= (
        parts[0] + seq![sep] + spec_join(parts.drop_first(), sep)) + seq![sep] + p);
    }
}

/// Join a vector of components with a separator.
pub fn join_chars(parts: &Vec<Vec<char>>, sep: char) -> (r: Vec<char>)
    ensures
        r@ == spec_join(parts.deep_view(), sep),
{
    let ghost dv = parts.deep_view();
    let mut r: Vec<char> = Vec::new();
    let mut i: usize = 0;
    while i < parts.len()
        invariant
            0 <= i <= parts@.len(),
            dv == parts.deep_view(),
            dv.len() == parts@.len(),
            r@ == spec_join(dv.take(i as int), sep),
        decreases parts@.len() - i,
    {
        if i > 0 {
            r.push(sep);
        }
        let ghost base = r@;
        let part = &parts[i];
        let mut k: usize = 0;
        while k < part.len()
            invariant
                0 <= k <= part@.len(),
                r@ == base + part@.take(k as int),
            decreases part@.len() - k,
        {
            let c = part[k];
            r.push(c);
            k += 1;
        }
        proof {
            assert(part@.take(part@.len() as int) =~= part@);
            assert(dv[i as int] == part@);
            assert(dv.take(i + 1) =~= dv.take(i as int).push(dv[i as int]));
            lemma_join_push(dv.take(i as int), dv[i as int], sep);
            if i == 0 {
                assert(r@ =~= spec_join(dv.take(1), sep));
            } else {
                assert(r@ =~= spec_join(dv.take(i as int), sep) + seq![sep] + dv[i as int]);
            }
        }
        i += 1;
    }
    proof {
        assert(dv.take(dv.len() as int) =~= dv);
    }
    r
}

} // verus!
