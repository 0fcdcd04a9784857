//! Classification of changed filesystem paths as noise (editor auto-save and
//! backup files, version-control metadata) or as relevant to clients.
//!
//! Paths are treated as `/`-separated character sequences. All rules are
//! case-sensitive and independent; any match makes the path noise.

use vstd::prelude::*;
use crate::text::{spec_split, split_chars, str_to_chars};

verus! {

/// The version-control metadata directory name, as characters.
pub open spec fn git_dir_name() -> Seq<char> {
    seq!['.', 'g', 'i', 't']
}

/// The final `/`-separated component of the path (the file name; empty when
/// the path ends with a separator).
pub open spec fn spec_file_name(path: Seq<char>) -> Seq<char> {
    spec_split(path, '/').last()
}

/// The file name begins with the editor auto-save prefix `.#`.
pub open spec fn spec_is_auto_save(path: Seq<char>) -> bool {
    let name = spec_file_name(path);
    name.len() >= 2 && name[0] == '.' && name[1] == '#'
}

/// The whole path ends with the editor backup suffix `~`.
pub open spec fn spec_is_backup(path: Seq<char>) -> bool {
    path.len() > 0 && path.last() == '~'
}

/// Some `/`-separated component of the path equals the version-control
/// metadata directory name.
pub open spec fn spec_is_git_metadata(path: Seq<char>) -> bool {
    exists|j: int|
        0 <= j < spec_split(path, '/').len() && #[trigger] spec_split(path, '/')[j]
            == git_dir_name()
}

/// A path is noise when any of the three rules matches.
pub open spec fn spec_is_noise(path: Seq<char>) -> bool {
    spec_is_auto_save(path) || spec_is_backup(path) || spec_is_git_metadata(path)
}

/// Whether a component equals the version-control metadata directory name.
fn is_git_component(c: &Vec<char>) -> (r: bool)
    ensures
        r == (c@ == git_dir_name()),
{
    let r = c.len() == 4 && c[0] == '.' && c[1] == 'g' && c[2] == 'i' && c[3] == 't';
    proof {
        if r {
            assert(c@ =~= git_dir_name());
        }
    }
    r
}

/// Whether the path should not be reported to clients.
pub fn is_noise_path(path: &str) -> (r: bool)
    ensures
        r == spec_is_noise(path@),
{
    let chars = str_to_chars(path);
    let comps = split_chars(&chars, '/');
    let ghost cs = comps.deep_view();
    proof {
        crate::text::lemma_split_nonempty(path@, '/');
    }

    // Auto-save rule: the file name starts with `.#`.
    let last = &comps[comps.len() - 1];
    proof {
        assert(cs.last() =~= last@);
    }
    let auto_save = last.len() >= 2 && last[0] == '.' && last[1] == '#';

    // Backup rule: the path ends with `~`.
    let backup = chars.len() > 0 && chars[chars.len() - 1] == '~';

    // Version-control rule: some component is the metadata directory.
    let mut git = false;
    let mut i: usize = 0;
    while i < comps.len()
        invariant
            0 <= i <= cs.len(),
            cs == comps.deep_view(),
            cs.len() == comps@.len(),
            git == exists|j: int| 0 <= j < i && #[trigger] cs[j] == git_dir_name(),
        decreases comps@.len() - i,
    {
        let hit = is_git_component(&comps[i]);
        proof {
            assert(cs[i as int] =~= comps@[i as int]@);
        }
        if hit {
            proof {
                assert(cs[i as int] == git_dir_name());
            }
            git = true;
        }
        i += 1;
    }
    proof {
        assert(git == spec_is_git_metadata(path@));
    }
    auto_save || backup || git
}

/// The paths kept for clients: those that are not noise.
pub open spec fn spec_filter_paths(paths: Seq<Seq<char>>) -> Seq<Seq<char>> {
    paths.filter(|p: Seq<char>| !spec_is_noise(p))
}

/// Keep only the paths that are not noise, in their original order.
pub fn filter_paths(paths: &Vec<String>) -> (r: Vec<String>)
    ensures
        r.deep_view() == spec_filter_paths(paths.deep_view()),
{
    let ghost dv = paths.deep_view();
    let mut r: Vec<String> = Vec::new();
    let mut i: usize = 0;
    proof {
        reveal(Seq::filter);
        assert(dv.take(0) =~= Seq::<Seq<char>>::empty());
        assert(r.deep_view() =~= spec_filter_paths(dv.take(0)));
    }
    while i < paths.len()
        invariant
            0 <= i <= paths@.len(),
            dv == paths.deep_view(),
            dv.len() == paths@.len(),
            r.deep_view() == spec_filter_paths(dv.take(i as int)),
        decreases paths@.len() - i,
    {
        let ghost prev = r.deep_view();
        let p = &paths[i];
        proof {
            assert(dv[i as int] == p@);
        }
        let noise = is_noise_path(p.as_str());
        if !noise {
            r.push(p.clone());
            proof {
                assert(r.deep_view() =~~= prev.push(p@));
            }
        }
        proof {
            reveal(Seq::filter);
            assert(dv.take(i + 1).drop_last() =~= dv.take(i as int));
            assert(dv.take(i + 1).last() == dv[i as int]);
        }
        i += 1;
    }
    proof {
        assert(dv.take(dv.len() as int) =~= dv);
    }
    r
}

/// Everything filters away exactly when every path is noise: a notification
/// whose paths are entirely noise yields nothing to forward.
pub proof fn lemma_all_noise_filters_to_nothing(paths: Seq<Seq<char>>)
    ensures
        spec_filter_paths(paths).len() == 0 <==> (forall|j: int|
            0 <= j < paths.len() ==> spec_is_noise(#[trigger] paths[j])),
    decreases paths.len(),
{
    reveal(Seq::filter);
    if paths.len() > 0 {
        lemma_all_noise_filters_to_nothing(paths.drop_last());
        assert(paths.drop_last().len() == paths.len() - 1);
        assert(forall|j: int| 0 <= j < paths.len() - 1 ==> paths.drop_last()[j] == paths[j]);
        assert(paths.last() == paths[paths.len() - 1]);
    }
}

} // verus!
