//! Path resolution against a directory snapshot. Legacy content refers
//! to files with arbitrary casing, so each path component that does not
//! match exactly is matched case-insensitively against the entries of
//! the directory reached so far. The snapshot is handed in as data: a
//! list of existing paths, each directory with its entry names, so the
//! resolution logic itself stays free of input and output.

use crate::text::{chars_vec, lower_of, lowercase, push_char, string_from_chars};
use vstd::prelude::*;

verus! {

/// A directory snapshot: every existing path (files included), paired
/// with its entry names (empty for a file). Paths use `/` separators.
pub type FsSnapshot = Vec<(String, Vec<String>)>;

/// The snapshot as the specification sees it.
pub open spec fn fs_v(fs: Seq<(String, Vec<String>)>) -> Seq<(Seq<char>, Seq<Seq<char>>)> {
    fs.map_values(
        |e: (String, Vec<String>)| (e.0@, e.1@.map_values(|n: String| n@)),
    )
}

/// First snapshot entry whose path is `p`, searching from `i`.
pub open spec fn fs_find(t: Seq<(Seq<char>, Seq<Seq<char>>)>, p: Seq<char>, i: int) -> Option<
    int,
>
    decreases t.len() - i,
{
    if i < 0 || i >= t.len() {
        None
    } else if t[i].0 == p {
        Some(i)
    } else {
        fs_find(t, p, i + 1)
    }
}

/// A path exists when the snapshot lists it.
pub open spec fn fs_exists(t: Seq<(Seq<char>, Seq<Seq<char>>)>, p: Seq<char>) -> bool {
    fs_find(t, p, 0) is Some
}

/// `a` and `b` joined with a separator.
pub open spec fn join(a: Seq<char>, b: Seq<char>) -> Seq<char> {
    a + seq!['/'] + b
}

/// The components of `p`: maximal runs between `/` separators, empty
/// runs dropped.
pub open spec fn components(p: Seq<char>) -> Seq<Seq<char>>
    decreases p.len(),
    via components_dec
{
    if p.len() == 0 {
        Seq::empty()
    } else {
        let e = sep_end(p, 0);
        if e == 0 {
            components(p.skip(1))
        } else {
            seq![p.take(e)] + components(p.skip(e))
        }
    }
}

/// End of the separator-free run starting at `i`.
pub open spec fn sep_end(p: Seq<char>, i: int) -> int
    decreases p.len() - i,
{
    if i < 0 {
        0
    } else if i >= p.len() {
        p.len() as int
    } else if p[i] == '/' {
        i
    } else {
        sep_end(p, i + 1)
    }
}

pub proof fn lemma_sep_end_bounds(p: Seq<char>, i: int)
    requires
        0 <= i <= p.len(),
    ensures
        i <= sep_end(p, i) <= p.len(),
    decreases p.len() - i,
{
    if i < p.len() && p[i] != '/' {
        lemma_sep_end_bounds(p, i + 1);
    }
}

#[via_fn]
proof fn components_dec(p: Seq<char>) {
    if p.len() > 0 {
        lemma_sep_end_bounds(p, 0);
    }
}

/// First entry of `entries`, from `i`, whose lower-cased name equals
/// the lower-cased target.
pub open spec fn find_ci(entries: Seq<Seq<char>>, target: Seq<char>, i: int) -> Option<int>
    decreases entries.len() - i,
{
    if i < 0 || i >= entries.len() {
        None
    } else if lower_of(entries[i]) == lower_of(target) {
        Some(i)
    } else {
        find_ci(entries, target, i + 1)
    }
}

/// The component walk: starting from `cur`, each component either
/// exists verbatim under the directory reached so far, or is replaced
/// by the first entry that matches it without regard to case; a
/// component with neither fails the whole resolution.
pub open spec fn walk(
    t: Seq<(Seq<char>, Seq<Seq<char>>)>,
    cur: Seq<char>,
    comps: Seq<Seq<char>>,
    k: int,
) -> Option<Seq<char>>
    decreases comps.len() - k,
{
    if k < 0 || k >= comps.len() {
        Some(cur)
    } else {
        let cand = join(cur, comps[k]);
        if fs_exists(t, cand) {
            walk(t, cand, comps, k + 1)
        } else {
            match fs_find(t, cur, 0) {
                None => None,
                Some(d) => match find_ci(t[d].1, comps[k], 0) {
                    None => None,
                    Some(e) => walk(t, join(cur, t[d].1[e]), comps, k + 1),
                },
            }
        }
    }
}

/// What path resolution yields: the joined path when it exists as
/// given, else the result of the case-insensitive component walk.
pub open spec fn resolve_spec(
    t: Seq<(Seq<char>, Seq<Seq<char>>)>,
    base: Seq<char>,
    path: Seq<char>,
) -> Option<Seq<char>> {
    let combined = join(base, path);
    if fs_exists(t, combined) {
        Some(combined)
    } else {
        walk(t, base, components(path), 0)
    }
}

/// Looks a path up in the snapshot.
fn fs_lookup(fs: &FsSnapshot, p: &String) -> (r: Option<usize>)
    ensures
        match r {
            Some(i) => fs_find(fs_v(fs@), p@, 0) == Some(i as int) && i < fs@.len(),
            None => fs_find(fs_v(fs@), p@, 0) is None,
        },
{
    let mut i: usize = 0;
    while i < fs.len()
        invariant
            i <= fs@.len(),
            fs_find(fs_v(fs@), p@, 0) == fs_find(fs_v(fs@), p@, i as int),
            fs_v(fs@).len() == fs@.len(),
        decreases fs@.len() - i,
    {
        proof {
            assert(fs_v(fs@)[i as int].0 == fs@[i as int].0@);
        }
        if fs[i].0 == *p {
            return Some(i);
        }
        i = i + 1;
    }
    None
}

/// Executable image of [`sep_end`].
fn find_sep_end(p: &Vec<char>, i: usize) -> (r: usize)
    requires
        i <= p@.len(),
    ensures
        r == sep_end(p@, i as int),
        i <= r <= p@.len(),
{
    let mut j = i;
    while j < p.len()
        invariant
            i <= j <= p@.len(),
            sep_end(p@, i as int) == sep_end(p@, j as int),
        decreases p@.len() - j,
    {
        if p[j] == '/' {
            return j;
        }
        j = j + 1;
    }
    j
}

/// Splits a path into its components.
fn split_components(path: &str) -> (r: Vec<String>)
    ensures
        r@.map_values(|s: String| s@) == components(path@),
    decreases path@.len(),
{
    let p = chars_vec(path);
    split_components_chars(&p)
}

fn split_components_chars(p: &Vec<char>) -> (r: Vec<String>)
    ensures
        r@.map_values(|s: String| s@) == components(p@),
    decreases p@.len(),
{
    proof {
        if p@.len() > 0 {
            lemma_sep_end_bounds(p@, 0);
        }
    }
    if p.len() == 0 {
        let r: Vec<String> = Vec::new();
        proof {
            assert(r@.map_values(|s: String| s@) =~= components(p@));
        }
        return r;
    }
    let e = find_sep_end(p, 0);
    if e == 0 {
        let rest = crate::text::subvec(p, 1, p.len());
        let r = split_components_chars(&rest);
        proof {
            assert(rest@ =~= p@.skip(1));
        }
        r
    } else {
        let head = string_from_chars(&crate::text::subvec(p, 0, e));
        let rest = crate::text::subvec(p, e, p.len());
        let tail = split_components_chars(&rest);
        let ghost tailv = tail@;
        let mut r: Vec<String> = Vec::new();
        r.push(head);
        let mut t2 = tail;
        r.append(&mut t2);
        proof {
            assert(rest@ =~= p@.skip(e as int));
            assert(p@.take(e as int) =~= p@.subrange(0, e as int));
            assert(r@ =~= seq![r@[0]] + tailv);
            assert(r@.map_values(|s: String| s@) =~= components(p@));
        }
        r
    }
}

/// Joins two path pieces with a separator.
fn join_exec(a: &String, b: &String) -> (r: String)
    ensures
        r@ == join(a@, b@),
{
    let mut out = a.clone();
    push_char(&mut out, '/');
    let bc = chars_vec(b.as_str());
    let mut i: usize = 0;
    while i < bc.len()
        invariant
            i <= bc@.len(),
            out@ == a@ + seq!['/'] + bc@.take(i as int),
        decreases bc@.len() - i,
    {
        push_char(&mut out, bc[i]);
        proof {
            assert(a@ + seq!['/'] + bc@.take(i as int + 1) =~= (a@ + seq!['/'] + bc@.take(
                i as int,
            )).push(bc@[i as int]));
        }
        i = i + 1;
    }
    proof {
        assert(bc@.take(bc@.len() as int) =~= bc@);
        assert(out@ =~= join(a@, b@));
    }
    out
}

/// First entry matching `target` without regard to case.
fn find_ci_exec(entries: &Vec<String>, target: &String) -> (r: Option<usize>)
    ensures
        ({
            let ev = entries@.map_values(|n: String| n@);
            match r {
                Some(i) => find_ci(ev, target@, 0) == Some(i as int) && i < entries@.len(),
                None => find_ci(ev, target@, 0) is None,
            }
        }),
{
    let ghost ev = entries@.map_values(|n: String| n@);
    proof {
        assert(ev.len() == entries@.len());
    }
    let low = lowercase(target.as_str());
    let mut i: usize = 0;
    while i < entries.len()
        invariant
            i <= entries@.len(),
            low@ == lower_of(target@),
            find_ci(ev, target@, 0) == find_ci(ev, target@, i as int),
            ev.len() == entries@.len(),
            ev == entries@.map_values(|n: String| n@),
        decreases entries@.len() - i,
    {
        proof {
            assert(ev[i as int] == entries@[i as int]@);
        }
        let el = lowercase(entries[i].as_str());
        if el == low {
            return Some(i);
        }
        i = i + 1;
    }
    None
}

/// Resolves `path` relative to `base` against the snapshot: the joined
/// path itself when it exists, else a component-by-component walk in
/// which each missing component is matched case-insensitively against
/// the entries of the directory reached so far.
#[verifier::loop_isolation(false)]
pub fn resolve_path(base: &str, path: &str, fs: &FsSnapshot) -> (r: Option<String>)
    ensures
        match r {
            Some(p) => resolve_spec(fs_v(fs@), base@, path@) == Some(p@),
            None => resolve_spec(fs_v(fs@), base@, path@) is None,
        },
{
    let base_s = String::from_str(base);
    let path_s = String::from_str(path);
    let combined = join_exec(&base_s, &path_s);
    if fs_lookup(fs, &combined).is_some() {
        return Some(combined);
    }
    let comps = split_components(path);
    let ghost compsv = components(path@);
    let mut cur = base_s;
    let mut k: usize = 0;
    proof {
        assert(comps@.map_values(|s: String| s@).len() == comps@.len());
    }
    while k < comps.len()
        invariant
            k <= comps@.len(),
            comps@.map_values(|s: String| s@) == compsv,
            compsv.len() == comps@.len(),
            walk(fs_v(fs@), cur@, compsv, k as int) == walk(fs_v(fs@), base@, compsv, 0),
        decreases comps@.len() - k,
    {
        proof {
            assert(compsv[k as int] == comps@[k as int]@);
        }
        let cand = join_exec(&cur, &comps[k]);
        if fs_lookup(fs, &cand).is_some() {
            cur = cand;
        } else {
            match fs_lookup(fs, &cur) {
                None => {
                    return None;
                },
                Some(d) => {
                    proof {
                        assert(fs_v(fs@)[d as int].1 == fs@[d as int].1@.map_values(
                            |n: String| n@,
                        ));
                    }
                    match find_ci_exec(&fs[d].1, &comps[k]) {
                        None => {
                            return None;
                        },
                        Some(e) => {
                            proof {
                                assert(fs@[d as int].1@.map_values(|n: String| n@)[e as int]
                                    == fs@[d as int].1@[e as int]@);
                            }
                            let next = join_exec(&cur, &fs[d].1[e]);
                            cur = next;
                        },
                    }
                },
            }
        }
        k = k + 1;
    }
    Some(cur)
}

/// Resolves `path` against each base in turn, yielding the first that
/// resolves.
pub fn resolve_path_bases(bases: &Vec<String>, path: &str, fs: &FsSnapshot) -> (r: Option<
    String,
>)
    ensures
        match r {
            Some(p) => exists|k: int|
                0 <= k < bases@.len() && resolve_spec(fs_v(fs@), #[trigger] bases@[k]@, path@)
                    == Some(p@) && (forall|j: int|
                    0 <= j < k ==> resolve_spec(fs_v(fs@), #[trigger] bases@[j]@, path@) is None),
            None => forall|k: int|
                0 <= k < bases@.len() ==> resolve_spec(
                    fs_v(fs@),
                    #[trigger] bases@[k]@,
                    path@,
                ) is None,
        },
{
    let mut k: usize = 0;
    while k < bases.len()
        invariant
            k <= bases@.len(),
            forall|j: int|
                0 <= j < k ==> resolve_spec(fs_v(fs@), #[trigger] bases@[j]@, path@) is None,
        decreases bases@.len() - k,
    {
        match resolve_path(bases[k].as_str(), path, fs) {
            Some(p) => {
                return Some(p);
            },
            None => {},
        }
        k = k + 1;
    }
    None
}

} // verus!
