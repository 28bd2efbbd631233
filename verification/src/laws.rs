//! Laws of the library, stated and proved once for all inputs: the
//! directive passes leave directive-free text unchanged, a random
//! directive always lands inside its range (and is pinned when the
//! range is one value), and the compound expansions have their exact
//! shapes and sizes.

use crate::mesh::post_processing::{cube_faces, cube_vertices, cyl_faces, cyl_vertices};
use crate::mesh::types::Cube;
use crate::route::errors::ErrV;
use crate::route::passes::{chr_out, draw_hi, if_pass, if_scan, rnd_pass, sub_pass};
use crate::route::pat::{chr_find, ies_find, lemma_rnd_find_props, lemma_rnd_match_bounds,
    rnd_find, sub_find};
use crate::text::{dec_str, dec_val};
use vstd::prelude::*;

verus! {

/// Idempotence of the rewriting passes: on text free of their
/// directives, the character pass, the random pass, the substitution
/// pass and the conditional pass all return the text unchanged, with no
/// diagnostics, no draws and an untouched substitution table.
pub proof fn lemma_passes_idempotent(s: Seq<char>, m: Map<u64, Seq<char>>, ch: Seq<u64>)
    requires
        chr_find(s, 0) is None,
        rnd_find(s, 0) is None,
        sub_find(s, 0) is None,
        ies_find(s, 0) is None,
    ensures
        chr_out(s, 0) == s,
        rnd_pass(s, 0, ch).out == s,
        rnd_pass(s, 0, ch).errs == Seq::<ErrV>::empty(),
        rnd_pass(s, 0, ch).used == 0,
        sub_pass(s, 0, m, ch).out == s,
        sub_pass(s, 0, m, ch).errs == Seq::<ErrV>::empty(),
        sub_pass(s, 0, m, ch).map == m,
        if_pass(s, m, ch).out == s,
        if_pass(s, m, ch).errs == Seq::<ErrV>::empty(),
        if_pass(s, m, ch).map == m,
{
    assert(s.subrange(0, s.len() as int) =~= s);
    let p = if_scan(s, 0, 0, 0, false, 0, m, ch);
    assert(p.out == sub_pass(s.subrange(0, s.len() as int), 0, m, ch).out);
}

/// A well-formed `$rnd(a;b)` directive with `a <= b` is always replaced
/// by the decimal rendering of a value inside `[a, b]`; with `a == b`
/// the replacement is exactly `a`, whatever was drawn.
pub proof fn lemma_rnd_in_range(s: Seq<char>, i: int, ch: Seq<u64>)
    requires
        0 <= i <= s.len(),
        rnd_pass(s, i, ch).ok,
        rnd_find(s, i) is Some,
        ({
            let (j, m) = rnd_find(s, i)->Some_0;
            let a = dec_val(s.subrange(m.a0, m.a1));
            let b = dec_val(s.subrange(m.b0, m.b1));
            a <= b <= u64::MAX
        }),
    ensures
        ({
            let (j, m) = rnd_find(s, i)->Some_0;
            let a = dec_val(s.subrange(m.a0, m.a1));
            let b = dec_val(s.subrange(m.b0, m.b1));
            exists|v: u64|
                {
                    &&& a <= v <= b
                    &&& (a == b ==> v == a)
                    &&& #[trigger] rnd_pass(s, i, ch).out == s.subrange(i, j) + dec_str(
                        v as nat,
                    ) + rnd_pass(s, i, ch).out.skip(
                        j - i + dec_str(v as nat).len() as int,
                    )
                }
        }),
{
    lemma_rnd_find_props(s, i);
    let (j, m) = rnd_find(s, i)->Some_0;
    lemma_rnd_match_bounds(s, j);
    let a = dec_val(s.subrange(m.a0, m.a1));
    let b = dec_val(s.subrange(m.b0, m.b1));
    let p = rnd_pass(s, i, ch);
    if a < draw_hi(b as u64) {
        let v = ch[0];
        assert(a <= v as nat && v as nat <= b);
        assert(a == b ==> v == a);
        let rest = rnd_pass(s, m.end, ch.skip(1));
        assert(p.out == s.subrange(i, j) + dec_str(v as nat) + rest.out);
        assert(p.out.skip(j - i + dec_str(v as nat).len() as int) =~= rest.out);
    } else {
        let v = a as u64;
        let rest = rnd_pass(s, m.end, ch);
        assert(p.out == s.subrange(i, j) + dec_str(a) + rest.out);
        assert(p.out.skip(j - i + dec_str(v as nat).len() as int) =~= rest.out);
    }
}

/// A cube expands to exactly eight vertices and six four-sided faces.
pub proof fn lemma_cube_counts(line: Option<u64>, c: Cube, vi: int)
    ensures
        cube_vertices(line, c).len() == 8,
        cube_faces(line, vi).len() == 6,
        forall|k: int|
            0 <= k < 8 ==> (#[trigger] cube_vertices(line, c)[k]).data is AddVertex,
        forall|k: int| 0 <= k < 6 ==> (#[trigger] cube_faces(line, vi)[k]).data is AddFace,
        forall|k: int|
            0 <= k < 6 ==> (#[trigger] cube_faces(line, vi)[k]).data->AddFace_indexes.len() == 4,
{
}

/// A cylinder of `n` sides expands to exactly `2 n` vertices and
/// `2 (n - 1)` faces.
pub proof fn lemma_cylinder_counts(
    line: Option<u64>,
    h: u32,
    n: int,
    rings: Seq<(u32, u32)>,
    vi: int,
)
    requires
        n >= 1,
    ensures
        cyl_vertices(line, h, n, rings).len() == 2 * n,
        cyl_faces(line, vi, 0, n - 1).len() == 2 * (n - 1),
{
    lemma_cyl_vertices_len(line, h, n, rings);
    lemma_cyl_faces_len(line, vi, 0, n - 1);
}

proof fn lemma_cyl_vertices_len(line: Option<u64>, h: u32, count: int, rings: Seq<(u32, u32)>)
    ensures
        cyl_vertices(line, h, count, rings).len() == if count <= 0 {
            0int
        } else {
            2 * count
        },
    decreases count,
{
    if count > 0 {
        lemma_cyl_vertices_len(line, h, count - 1, rings.skip(2));
    }
}

proof fn lemma_cyl_faces_len(line: Option<u64>, vi: int, i: int, split: int)
    ensures
        cyl_faces(line, vi, i, split).len() == if i >= split {
            0int
        } else {
            2 * (split - i)
        },
    decreases split - i,
{
    if i < split {
        lemma_cyl_faces_len(line, vi, i + 1, split);
    }
}

} // verus!
