//! Resolution of a request path to a file under the served root: sanitizing
//! the request tail so it cannot escape the root, directory-index and
//! trailing-slash redirect rules, the content-type table, and the mapping of
//! a read outcome to a response.

use vstd::prelude::*;
use crate::text::{
    sep_free, spec_join, spec_split, join_chars, lemma_split_components, split_chars,
    str_to_chars, string_from_chars,
};

verus! {

/// The current-directory path component.
pub open spec fn dot() -> Seq<char> {
    seq!['.']
}

/// The parent-directory path component.
pub open spec fn dot_dot() -> Seq<char> {
    seq!['.', '.']
}

/// The directory index file name.
pub open spec fn index_html() -> Seq<char> {
    seq!['i', 'n', 'd', 'e', 'x', '.', 'h', 't', 'm', 'l']
}

/// Sanitizing from position `i` with the components kept so far: empty and
/// current-directory components vanish, a parent-directory component removes
/// the last kept component, and one that would climb above the root rejects
/// the whole tail.
pub open spec fn sanitize_from(comps: Seq<Seq<char>>, i: int, acc: Seq<Seq<char>>) -> Option<
    Seq<Seq<char>>,
>
    decreases comps.len() - i,
{
    if i < 0 || i >= comps.len() {
        Some(acc)
    } else if comps[i].len() == 0 || comps[i] == dot() {
        sanitize_from(comps, i + 1, acc)
    } else if comps[i] == dot_dot() {
        if acc.len() == 0 {
            None
        } else {
            sanitize_from(comps, i + 1, acc.drop_last())
        }
    } else {
        sanitize_from(comps, i + 1, acc.push(comps[i]))
    }
}

/// The root-relative components a request tail resolves to, or nothing when
/// the tail tries to climb above the root.
pub open spec fn spec_rel_components(tail: Seq<char>) -> Option<Seq<Seq<char>>> {
    sanitize_from(spec_split(tail, '/'), 0, Seq::empty())
}

/// A component that can only name an entry inside its directory: it is a real
/// name, not a traversal step, and holds no separator.
pub open spec fn safe_component(c: Seq<char>) -> bool {
    c.len() > 0 && c != dot() && c != dot_dot() && (forall|k: int| 0 <= k < c.len() ==> c[k] != '/')
}

/// Every component is safe.
pub open spec fn safe_components(cs: Seq<Seq<char>>) -> bool {
    forall|j: int| 0 <= j < cs.len() ==> safe_component(#[trigger] cs[j])
}

proof fn lemma_sanitize_safe(comps: Seq<Seq<char>>, i: int, acc: Seq<Seq<char>>)
    requires
        sep_free(comps, '/'),
        safe_components(acc),
    ensures
        sanitize_from(comps, i, acc) matches Some(cs) ==> safe_components(cs),
    decreases comps.len() - i,
{
    if i < 0 || i >= comps.len() {
    } else if comps[i].len() == 0 || comps[i] == dot() {
        lemma_sanitize_safe(comps, i + 1, acc);
    } else if comps[i] == dot_dot() {
        if acc.len() > 0 {
            assert(safe_components(acc.drop_last()));
            lemma_sanitize_safe(comps, i + 1, acc.drop_last());
        }
    } else {
        assert(safe_component(comps[i]));
        assert(safe_components(acc.push(comps[i])));
        lemma_sanitize_safe(comps, i + 1, acc.push(comps[i]));
    }
}

/// A resolved request can only point inside the root: every component of the
/// sanitized relative path is a real name — never empty, never a traversal
/// step, free of separators — so joining the components under the root cannot
/// escape it. The same holds after the directory index file is appended.
pub proof fn lemma_resolution_stays_within_root(tail: Seq<char>)
    ensures
        spec_rel_components(tail) matches Some(cs) ==> safe_components(cs),
        spec_rel_components(tail) matches Some(cs) ==> safe_components(cs.push(index_html())),
{
    lemma_split_components(tail, '/');
    lemma_sanitize_safe(spec_split(tail, '/'), 0, Seq::empty());
    if spec_rel_components(tail) is Some {
        let cs = spec_rel_components(tail)->Some_0;
        assert(safe_component(index_html()));
        assert(safe_components(cs.push(index_html())));
    }
}

/// The position of the last `.` in a name, or -1 when there is none.
pub open spec fn spec_last_dot(name: Seq<char>) -> int
    decreases name.len(),
{
    if name.len() == 0 {
        -1
    } else if name.last() == '.' {
        name.len() - 1
    } else {
        spec_last_dot(name.drop_last())
    }
}

/// The extension of a file name: what follows the last `.`, provided that dot
/// is neither absent nor the leading character of the name.
pub open spec fn spec_extension(name: Seq<char>) -> Option<Seq<char>> {
    let i = spec_last_dot(name);
    if i <= 0 {
        None
    } else {
        Some(name.skip(i + 1))
    }
}

/// The content types served with a header, by extension.
pub open spec fn mime_css() -> Seq<char> {
    seq!['t', 'e', 'x', 't', '/', 'c', 's', 's']
}

/// The content type for markup files.
pub open spec fn mime_html() -> Seq<char> {
    seq!['t', 'e', 'x', 't', '/', 'h', 't', 'm', 'l']
}

/// The content type for script files.
pub open spec fn mime_js() -> Seq<char> {
    seq![
        'a',
        'p',
        'p',
        'l',
        'i',
        'c',
        'a',
        't',
        'i',
        'o',
        'n',
        '/',
        'j',
        'a',
        'v',
        'a',
        's',
        'c',
        'r',
        'i',
        'p',
        't',
    ]
}

/// The content type for image files.
pub open spec fn mime_png() -> Seq<char> {
    seq!['i', 'm', 'a', 'g', 'e', '/', 'p', 'n', 'g']
}

/// The content-type header value a file name gets, if its extension is one of
/// the known set; otherwise none, and the client infers the type.
pub open spec fn spec_content_type(name: Seq<char>) -> Option<Seq<char>> {
    match spec_extension(name) {
        Option::None => Option::None,
        Option::Some(e) => if e == seq!['c', 's', 's'] {
            Option::Some(mime_css())
        } else if e == seq!['h', 't', 'm', 'l'] {
            Option::Some(mime_html())
        } else if e == seq!['j', 's'] {
            Option::Some(mime_js())
        } else if e == seq!['p', 'n', 'g'] {
            Option::Some(mime_png())
        } else {
            Option::None
        },
    }
}

/// The content type of a relative path: that of its last component.
pub open spec fn spec_content_type_of(cs: Seq<Seq<char>>) -> Option<Seq<char>> {
    if cs.len() == 0 {
        Option::None
    } else {
        spec_content_type(cs.last())
    }
}

fn last_dot_index(name: &Vec<char>) -> (r: Option<usize>)
    ensures
        match r {
            Option::Some(i) => spec_last_dot(name@) == i as int && (i as int) < name@.len(),
            Option::None => spec_last_dot(name@) == -1,
        },
{
    let mut k = name.len();
    let mut found: Option<usize> = None;
    proof {
        assert(name@.take(name@.len() as int) =~= name@);
    }
    while k > 0
        invariant_except_break
            k <= name@.len(),
            found is None,
            spec_last_dot(name@) == spec_last_dot(name@.take(k as int)),
        ensures
            match found {
                Option::Some(i) => spec_last_dot(name@) == i as int && (i as int) < name@.len(),
                Option::None => spec_last_dot(name@) == -1,
            },
        decreases k,
    {
        if name[k - 1] == '.' {
            found = Some(k - 1);
            proof {
                assert(name@.take(k as int).last() == '.');
            }
            break ;
        }
        proof {
            assert(name@.take(k as int).last() != '.');
            assert(name@.take(k as int).drop_last() =~= name@.take(k - 1));
        }
        k -= 1;
    }
    found
}

fn content_type_of(name: &Vec<char>) -> (r: Option<String>)
    ensures
        match r {
            Option::None => spec_content_type(name@) is None,
            Option::Some(s) => spec_content_type(name@) == Some(s@),
        },
{
    let dot_at = match last_dot_index(name) {
        None => {
            return None;
        },
        Some(i) => i,
    };
    if dot_at == 0 {
        return None;
    }
    let n = name.len();
    let mut ext: Vec<char> = Vec::new();
    let mut j: usize = dot_at + 1;
    while j < n
        invariant
            n == name@.len(),
            dot_at + 1 <= j <= name@.len(),
            ext@ == name@.subrange(dot_at + 1, j as int),
        decreases name@.len() - j,
    {
        let c = name[j];
        ext.push(c);
        proof {
            assert(ext@ =~= name@.subrange(dot_at + 1, j + 1));
        }
        j += 1;
    }
    proof {
        assert(ext@ =~= name@.skip(dot_at + 1));
    }
    if ext.len() == 3 && ext[0] == 'c' && ext[1] == 's' && ext[2] == 's' {
        proof {
            assert(ext@ =~= seq!['c', 's', 's']);
            reveal_strlit("text/css");
            assert("text/css"@ =~= mime_css());
        }
        Some(String::from_str("text/css"))
    } else if ext.len() == 4 && ext[0] == 'h' && ext[1] == 't' && ext[2] == 'm' && ext[3] == 'l' {
        proof {
            assert(ext@ =~= seq!['h', 't', 'm', 'l']);
            reveal_strlit("text/html");
            assert("text/html"@ =~= mime_html());
        }
        Some(String::from_str("text/html"))
    } else if ext.len() == 2 && ext[0] == 'j' && ext[1] == 's' {
        proof {
            assert(ext@ =~= seq!['j', 's']);
            reveal_strlit("application/javascript");
            assert("application/javascript"@ =~= mime_js());
        }
        Some(String::from_str("application/javascript"))
    } else if ext.len() == 3 && ext[0] == 'p' && ext[1] == 'n' && ext[2] == 'g' {
        proof {
            assert(ext@ =~= seq!['p', 'n', 'g']);
            reveal_strlit("image/png");
            assert("image/png"@ =~= mime_png());
        }
        Some(String::from_str("image/png"))
    } else {
        proof {
            assert(ext@ != seq!['c', 's', 's']);
            assert(ext@ != seq!['h', 't', 'm', 'l']);
            assert(ext@ != seq!['j', 's']);
            assert(ext@ != seq!['p', 'n', 'g']);
        }
        None
    }
}

/// What a request tail should receive, decided before any file is read.
pub enum Plan {
    /// The tail names a directory without a trailing separator: canonicalize
    /// by redirecting to the same path with exactly one separator appended.
    Redirect { location: String },
    /// Read this root-relative path and serve its bytes, with the
    /// content-type header when one is known for the name.
    ReadFile { rel: String, content_type: Option<String> },
    /// The tail tries to climb above the root; nothing is read.
    Reject,
}

fn sanitize(comps: &Vec<Vec<char>>) -> (r: Option<Vec<Vec<char>>>)
    ensures
        match r {
            Option::None => sanitize_from(comps.deep_view(), 0, Seq::empty()) is None,
            Option::Some(cs) => sanitize_from(comps.deep_view(), 0, Seq::empty()) == Some(
                cs.deep_view(),
            ),
        },
{
    let ghost dv = comps.deep_view();
    let mut acc: Vec<Vec<char>> = Vec::new();
    let mut i: usize = 0;
    proof {
        assert(acc.deep_view() =~~= Seq::<Seq<char>>::empty());
    }
    while i < comps.len()
        invariant
            0 <= i <= comps@.len(),
            dv == comps.deep_view(),
            dv.len() == comps@.len(),
            sanitize_from(dv, 0, Seq::empty()) == sanitize_from(dv, i as int, acc.deep_view()),
        decreases comps@.len() - i,
    {
        let ghost prev = acc.deep_view();
        let c = &comps[i];
        proof {
            assert(dv[i as int] =~= c@);
        }
        let is_empty = c.len() == 0;
        let is_dot = c.len() == 1 && c[0] == '.';
        let is_dot_dot = c.len() == 2 && c[0] == '.' && c[1] == '.';
        proof {
            if is_dot {
                assert(c@ =~= dot());
            }
            if is_dot_dot {
                assert(c@ =~= dot_dot());
            }
            if !is_dot {
                assert(c@ != dot());
            }
            if !is_dot_dot {
                assert(c@ != dot_dot());
            }
        }
        if is_empty || is_dot {
        } else if is_dot_dot {
            if acc.len() == 0 {
                proof {
                    assert(prev.len() == 0);
                }
                return None;
            }
            acc.pop();
            proof {
                assert(acc.deep_view() =~~= prev.drop_last());
            }
        } else {
            let copy = c.clone();
            proof {
                assert(copy@ == c@);
            }
            acc.push(copy);
            proof {
                assert(acc.deep_view() =~~= prev.push(dv[i as int]));
            }
        }
        i += 1;
    }
    Some(acc)
}

fn index_html_component() -> (r: Vec<char>)
    ensures
        r@ == index_html(),
{
    let mut v: Vec<char> = Vec::new();
    v.push('i');
    v.push('n');
    v.push('d');
    v.push('e');
    v.push('x');
    v.push('.');
    v.push('h');
    v.push('t');
    v.push('m');
    v.push('l');
    proof {
        assert(v@ =~= index_html());
    }
    v
}

/// Decide what a request tail should receive, given whether the path it
/// resolves to is a directory. A tail that cannot be kept inside the root is
/// rejected. A directory reached without a trailing separator is redirected
/// to the separator-terminated form; one reached with it (or the root
/// itself) is served its directory index. Anything else is read as a file.
pub fn plan_request(tail: &str, is_dir: bool) -> (p: Plan)
    ensures
        match p {
            Plan::Reject => spec_rel_components(tail@) is None,
            Plan::Redirect { location } => {
                &&& spec_rel_components(tail@) is Some
                &&& is_dir
                &&& tail@.len() > 0
                &&& tail@.last() != '/'
                &&& location@ == tail@ + seq!['/']
            },
            Plan::ReadFile { rel, content_type } => {
                &&& spec_rel_components(tail@) is Some
                &&& ({
                    let base = spec_rel_components(tail@)->Some_0;
                    let cs = if is_dir {
                        base.push(index_html())
                    } else {
                        base
                    };
                    &&& (is_dir ==> (tail@.len() == 0 || tail@.last() == '/'))
                    &&& rel@ == spec_join(cs, '/')
                    &&& (match content_type {
                        Option::None => spec_content_type_of(cs) is None,
                        Option::Some(s) => spec_content_type_of(cs) == Some(s@),
                    })
                })
            },
        },
{
    let chars = str_to_chars(tail);
    let comps = split_chars(&chars, '/');
    let sane = match sanitize(&comps) {
        None => {
            proof {
                assert(chars@ == tail@);
                assert(comps.deep_view() == spec_split(tail@, '/'));
                assert(spec_rel_components(tail@) is None);
            }
            return Plan::Reject;
        },
        Some(cs) => cs,
    };
    let ghost base = spec_rel_components(tail@)->Some_0;
    proof {
        assert(base == sane.deep_view());
    }
    if is_dir {
        let ends_with_sep = chars.len() > 0 && chars[chars.len() - 1] == '/';
        if chars.len() == 0 || ends_with_sep {
            let mut cs = sane;
            cs.push(index_html_component());
            proof {
                assert(cs.deep_view() =~~= base.push(index_html()));
            }
            let relv = join_chars(&cs, '/');
            let rel = string_from_chars(relv);
            let last = &cs[cs.len() - 1];
            proof {
                assert(cs.deep_view().last() =~= last@);
                assert(cs.deep_view().len() > 0);
            }
            let content_type = content_type_of(last);
            Plan::ReadFile { rel, content_type }
        } else {
            let mut loc = chars.clone();
            loc.push('/');
            let location = string_from_chars(loc);
            proof {
                assert(location@ =~= tail@ + seq!['/']);
            }
            Plan::Redirect { location }
        }
    } else {
        let relv = join_chars(&sane, '/');
        let rel = string_from_chars(relv);
        let content_type = if sane.len() == 0 {
            None
        } else {
            let last = &sane[sane.len() - 1];
            proof {
                assert(sane.deep_view().last() =~= last@);
            }
            content_type_of(last)
        };
        proof {
            if sane.deep_view().len() == 0 {
                assert(spec_content_type_of(base) is None);
            }
        }
        Plan::ReadFile { rel, content_type }
    }
}

/// What a request receives once the plan has been carried out.
pub enum ResolvedTarget {
    /// Send the client to the separator-terminated form of its path.
    Redirect { location: String },
    /// The file's bytes, with the content-type header when one is known.
    FileBody { bytes: Vec<u8>, content_type: Option<String> },
    /// The request named nothing servable: a short plain-text failure.
    BadRequest,
}

impl ResolvedTarget {
    /// The HTTP status this target is sent with.
    pub fn status_code(&self) -> (s: u16)
        ensures
            match self {
                ResolvedTarget::FileBody { .. } => s == 200,
                ResolvedTarget::Redirect { .. } => s == 301,
                ResolvedTarget::BadRequest => s == 400,
            },
    {
        match self {
            ResolvedTarget::FileBody { .. } => 200,
            ResolvedTarget::Redirect { .. } => 301,
            ResolvedTarget::BadRequest => 400,
        }
    }
}

/// Combine a plan with the outcome of reading the planned file (nothing was
/// read for a redirect or a rejected tail). Every read failure, whatever its
/// cause, is answered uniformly as a bad request.
pub fn read_outcome(plan: Plan, read: Option<Vec<u8>>) -> (t: ResolvedTarget)
    ensures
        match plan {
            Plan::Reject => t is BadRequest,
            Plan::Redirect { location } => (t matches ResolvedTarget::Redirect {
                location: l,
            } && l == location),
            Plan::ReadFile { rel, content_type } => {
                match read {
                    Option::Some(bytes) => (t matches ResolvedTarget::FileBody {
                        bytes: b,
                        content_type: c,
                    } && b == bytes && c == content_type),
                    Option::None => t is BadRequest,
                }
            },
        },
{
    match plan {
        Plan::Reject => ResolvedTarget::BadRequest,
        Plan::Redirect { location } => ResolvedTarget::Redirect { location },
        Plan::ReadFile { rel: _, content_type } => {
            match read {
                Some(bytes) => ResolvedTarget::FileBody { bytes, content_type },
                None => ResolvedTarget::BadRequest,
            }
        },
    }
}

} // verus!
