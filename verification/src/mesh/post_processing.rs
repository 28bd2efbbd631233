//! Prepares an instruction stream for execution. Two rewrites happen,
//! segment by segment (a segment is what lies between two
//! `CreateMeshBuilder` instructions): `Cube` and `Cylinder` are expanded
//! into explicit `AddVertex` and `AddFace` instructions, and every
//! `SetTextureCoordinates` is folded into the vertex it refers to. After
//! post-processing no Cube, Cylinder or SetTextureCoordinates
//! instruction remains in the stream.
//!
//! A cube's corner positions are sign flips of its half-dimensions and
//! are computed exactly, on the bit patterns. A cylinder's ring
//! positions come from trigonometry on single-precision floats; the
//! model treats each ring position as an oracle value, and the contract
//! promises the exact stream shape for some such sequence of positions.

use crate::mesh::types::{instrs_v, mesh_errs_v, neg_bits, neg_bits_spec, AddFace, AddVertex, CreateMeshBuilder, Cube,
    Cylinder, InstrDataV, InstrV, Instruction, InstructionData, InstructionList, MeshErrV,
    MeshError, MeshErrorKind, Sides, Vec2Bits, Vec3Bits, ZERO_BITS};
use crate::span::Span;
use vstd::prelude::*;

verus! {

/// Half of a single-precision value, on bit patterns; what dividing the
/// cylinder height by two returns. A function of its argument alone.
pub uninterp spec fn half_of(h: u32) -> u32;

/// Relies on single-precision division: halves the value carried by
/// the given bit pattern. Division is exactly rounded, so the result
/// depends on the argument alone.
#[verifier::external_body]
fn half_bits(h: u32) -> (r: u32)
    ensures
        r == half_of(h),
{
    let v = glam::Vec3::splat(bytemuck::cast(h));
    let two = glam::Vec3::splat(num_traits::cast(2u32).unwrap_or_default());
    bytemuck::cast(v.x / two.x)
}

/// Relies on single-precision trigonometry: for ring step `i` of `n`
/// around a cylinder of radius `r` (a bit pattern), computes
/// `(cos(2*pi*i/n) * r, sin(2*pi*i/n) * r)` as bit patterns. The
/// library's own trigonometric functions are not exactly rounded, so
/// nothing is promised of the value.
#[verifier::external_body]
fn ring_xz(n: u32, i: u32, r: u32) -> (u32, u32) {
    let v = glam::Vec3::new(
        bytemuck::cast(0x40C90FDBu32),
        num_traits::cast(i).unwrap_or_default(),
        num_traits::cast(n).unwrap_or_default(),
    );
    let angle = v.x * v.y / v.z;
    let radius = glam::Vec3::splat(bytemuck::cast(r)).x;
    (bytemuck::cast(angle.cos() * radius), bytemuck::cast(angle.sin() * radius))
}

/// A synthesized vertex: the position with a zero normal and zero
/// texture coordinates, carrying the span of the originating compound
/// instruction.
pub open spec fn synth_vertex(line: Option<u64>, pos: Vec3Bits) -> InstrV {
    InstrV {
        line,
        data: InstrDataV::AddVertex {
            v: AddVertex {
                position: pos,
                normal: Vec3Bits { x: ZERO_BITS, y: ZERO_BITS, z: ZERO_BITS },
                texture_coord: Vec2Bits { x: ZERO_BITS, y: ZERO_BITS },
            },
        },
    }
}

/// A synthesized single-sided face over the given vertex indices.
pub open spec fn synth_face(line: Option<u64>, indexes: Seq<int>) -> InstrV {
    InstrV { line, data: InstrDataV::AddFace { indexes, sides: Sides::One } }
}

/// The eight corner vertices of a cube with half-dimensions `c`, in the
/// fixed reference order: the four corners of the near face first
/// (clockwise from `(+x, +y, -z)`), then the four of the far face.
pub open spec fn cube_vertices(line: Option<u64>, c: Cube) -> Seq<InstrV> {
    let x = c.half_dim.x;
    let y = c.half_dim.y;
    let z = c.half_dim.z;
    let nx = neg_bits_spec(x);
    let ny = neg_bits_spec(y);
    let nz = neg_bits_spec(z);
    seq![
        synth_vertex(line, Vec3Bits { x, y, z: nz }),
        synth_vertex(line, Vec3Bits { x, y: ny, z: nz }),
        synth_vertex(line, Vec3Bits { x: nx, y: ny, z: nz }),
        synth_vertex(line, Vec3Bits { x: nx, y, z: nz }),
        synth_vertex(line, Vec3Bits { x, y, z }),
        synth_vertex(line, Vec3Bits { x, y: ny, z }),
        synth_vertex(line, Vec3Bits { x: nx, y: ny, z }),
        synth_vertex(line, Vec3Bits { x: nx, y, z }),
    ]
}

/// The six faces of a cube whose corners were emitted starting at
/// vertex index `vi`: front, right, top, back, left, bottom, in the
/// documented winding.
pub open spec fn cube_faces(line: Option<u64>, vi: int) -> Seq<InstrV> {
    seq![
        synth_face(line, seq![vi + 0, vi + 1, vi + 2, vi + 3]),
        synth_face(line, seq![vi + 0, vi + 4, vi + 5, vi + 1]),
        synth_face(line, seq![vi + 0, vi + 3, vi + 7, vi + 4]),
        synth_face(line, seq![vi + 6, vi + 5, vi + 4, vi + 7]),
        synth_face(line, seq![vi + 6, vi + 7, vi + 3, vi + 2]),
        synth_face(line, seq![vi + 6, vi + 2, vi + 1, vi + 5]),
    ]
}

/// The ring vertices of a cylinder: for each of `count` remaining
/// steps, one vertex on the upper ring (at `+height/2`) and one on the
/// lower (at `-height/2`), their horizontal positions taken from the
/// oracle `rings` in order.
pub open spec fn cyl_vertices(
    line: Option<u64>,
    h: u32,
    count: int,
    rings: Seq<(u32, u32)>,
) -> Seq<InstrV>
    decreases count,
{
    if count <= 0 {
        Seq::empty()
    } else {
        seq![
            synth_vertex(line, Vec3Bits { x: rings[0].0, y: half_of(h), z: rings[0].1 }),
            synth_vertex(
                line,
                Vec3Bits { x: rings[1].0, y: neg_bits_spec(half_of(h)), z: rings[1].1 },
            ),
        ] + cyl_vertices(line, h, count - 1, rings.skip(2))
    }
}

/// The side faces of a cylinder whose `2n` ring vertices start at
/// vertex index `vi`: two faces for each of the first `n - 1` ring
/// steps, using the documented index arithmetic.
pub open spec fn cyl_faces(line: Option<u64>, vi: int, i: int, split: int) -> Seq<InstrV>
    decreases split - i,
{
    if i >= split {
        Seq::empty()
    } else {
        seq![
            synth_face(line, seq![vi + 2 * i + 2, vi + 2 * i + 3, vi + 2 * i + 1, vi + 2 * i]),
            synth_face(line, seq![vi + 0, vi + 1, vi + 2 * i + 1, vi + 2 * i]),
        ] + cyl_faces(line, vi, i + 1, split)
    }
}

/// Result of compound expansion: the rewritten segment and how many
/// oracle ring positions were consumed.
pub ghost struct CompP {
    pub out: Seq<InstrV>,
    pub used: nat,
}

/// Compound expansion over a segment from position `k`, with `vi` the
/// running next-vertex index. Cubes and cylinders become vertices and
/// faces; `AddVertex` advances the index; everything else passes
/// through.
pub open spec fn compound(seg: Seq<InstrV>, k: int, vi: int, rings: Seq<(u32, u32)>) -> CompP
    decreases seg.len() - k,
{
    if k < 0 || k >= seg.len() {
        CompP { out: Seq::empty(), used: 0 }
    } else {
        match seg[k].data {
            InstrDataV::AddVertex { v } => {
                let rest = compound(seg, k + 1, vi + 1, rings);
                CompP { out: seq![seg[k]] + rest.out, used: rest.used }
            },
            InstrDataV::Cube { c } => {
                let rest = compound(seg, k + 1, vi + 8, rings);
                CompP {
                    out: cube_vertices(seg[k].line, c) + cube_faces(seg[k].line, vi) + rest.out,
                    used: rest.used,
                }
            },
            InstrDataV::Cylinder { c } => {
                let n = c.sides as int;
                let split = if n == 0 {
                    0
                } else {
                    n - 1
                };
                let rest = compound(seg, k + 1, vi + 2 * n, rings.skip(2 * n));
                CompP {
                    out: cyl_vertices(seg[k].line, c.height, n, rings) + cyl_faces(
                        seg[k].line,
                        vi,
                        0,
                        split,
                    ) + rest.out,
                    used: (2 * n) as nat + rest.used,
                }
            },
            _ => {
                let rest = compound(seg, k + 1, vi, rings);
                CompP { out: seq![seg[k]] + rest.out, used: rest.used }
            },
        }
    }
}

/// Writes the given texture coordinates into a vertex instruction.
pub open spec fn set_tc(i: InstrV, coords: Vec2Bits) -> InstrV {
    match i.data {
        InstrDataV::AddVertex { v } => InstrV {
            line: i.line,
            data: InstrDataV::AddVertex {
                v: AddVertex {
                    position: v.position,
                    normal: v.normal,
                    texture_coord: coords,
                },
            },
        },
        _ => i,
    }
}

/// Texture-coordinate folding over an expanded segment from position
/// `k`. `out` is the output so far, `vidx` maps each vertex index seen
/// in this segment to the position of its `AddVertex` in `out`, and
/// `errs` gathers out-of-bounds diagnostics. A `SetTextureCoordinates`
/// in range mutates the earlier vertex in place and vanishes; one out
/// of range vanishes with a diagnostic.
pub open spec fn merge_tc(
    seg: Seq<InstrV>,
    k: int,
    out: Seq<InstrV>,
    vidx: Seq<int>,
    errs: Seq<MeshErrV>,
) -> (Seq<InstrV>, Seq<MeshErrV>)
    decreases seg.len() - k,
{
    if k < 0 || k >= seg.len() {
        (out, errs)
    } else {
        match seg[k].data {
            InstrDataV::AddVertex { v } => merge_tc(
                seg,
                k + 1,
                out.push(seg[k]),
                vidx.push(out.len() as int),
                errs,
            ),
            InstrDataV::SetTextureCoordinates { index, coords } => {
                if 0 <= index < vidx.len() {
                    merge_tc(seg, k + 1, out.update(vidx[index], set_tc(out[vidx[index]], coords)), vidx, errs)
                } else {
                    merge_tc(
                        seg,
                        k + 1,
                        out,
                        vidx,
                        errs.push(MeshErrV { line: seg[k].line, idx: index }),
                    )
                }
            },
            _ => merge_tc(seg, k + 1, out.push(seg[k]), vidx, errs),
        }
    }
}

/// First `CreateMeshBuilder` at or after `i`.
pub open spec fn find_cmb(l: Seq<InstrV>, i: int) -> Option<int>
    decreases l.len() - i,
{
    if i < 0 || i >= l.len() {
        None
    } else if l[i].data is CreateMeshBuilder {
        Some(i)
    } else {
        find_cmb(l, i + 1)
    }
}

pub proof fn lemma_find_cmb_props(l: Seq<InstrV>, i: int)
    requires
        0 <= i,
        find_cmb(l, i) is Some,
    ensures
        i <= find_cmb(l, i)->Some_0 < l.len(),
    decreases l.len() - i,
{
    if i < l.len() && !(l[i].data is CreateMeshBuilder) {
        lemma_find_cmb_props(l, i + 1);
    }
}

/// The segments of a stream: the pieces between `CreateMeshBuilder`
/// instructions. A stream with no such instruction is one segment; each
/// separator starts another, so a stream of `n` separators has `n + 1`
/// segments, empty ones included.
pub open spec fn segments(l: Seq<InstrV>) -> Seq<Seq<InstrV>>
    decreases l.len(),
    via segments_dec
{
    match find_cmb(l, 0) {
        None => seq![l],
        Some(j) => seq![l.take(j)] + segments(l.skip(j + 1)),
    }
}

#[via_fn]
proof fn segments_dec(l: Seq<InstrV>) {
    if find_cmb(l, 0) is Some {
        lemma_find_cmb_props(l, 0);
    }
}

/// The separator re-inserted between processed segments: a fresh
/// `CreateMeshBuilder` with no originating span.
pub open spec fn fresh_cmb() -> InstrV {
    InstrV { line: None, data: InstrDataV::CreateMeshBuilder }
}

/// Result of post-processing a list of segments.
pub ghost struct PostP {
    pub out: Seq<InstrV>,
    pub errs: Seq<MeshErrV>,
    pub used: nat,
}

/// Post-processing of the segments from position `k` on: each is
/// expanded, folded, and emitted behind a fresh separator.
pub open spec fn post_segs(segs: Seq<Seq<InstrV>>, k: int, rings: Seq<(u32, u32)>) -> PostP
    decreases segs.len() - k,
{
    if k < 0 || k >= segs.len() {
        PostP { out: Seq::empty(), errs: Seq::empty(), used: 0 }
    } else {
        let cp = compound(segs[k], 0, 0, rings);
        let (mo, me) = merge_tc(cp.out, 0, Seq::empty(), Seq::empty(), Seq::empty());
        let rest = post_segs(segs, k + 1, rings.skip(cp.used as int));
        PostP {
            out: seq![fresh_cmb()] + mo + rest.out,
            errs: me + rest.errs,
            used: cp.used + rest.used,
        }
    }
}

} // verus!

verus! {

/// A stream the executor accepts: no compound or deferred-coordinate
/// instruction remains.
pub open spec fn executable_stream(l: Seq<InstrV>) -> bool {
    forall|k: int|
        0 <= k < l.len() ==> {
            let d = (#[trigger] l[k]).data;
            &&& !(d is Cube)
            &&& !(d is Cylinder)
            &&& !(d is SetTextureCoordinates)
        }
}

/// No compound instruction remains in a segment's expansion.
proof fn lemma_compound_clean(seg: Seq<InstrV>, k: int, vi: int, rings: Seq<(u32, u32)>)
    ensures
        forall|j: int|
            0 <= j < compound(seg, k, vi, rings).out.len() ==> {
                let d = (#[trigger] compound(seg, k, vi, rings).out[j]).data;
                !(d is Cube) && !(d is Cylinder)
            },
    decreases seg.len() - k,
{
    if 0 <= k < seg.len() {
        match seg[k].data {
            InstrDataV::AddVertex { v } => {
                lemma_compound_clean(seg, k + 1, vi + 1, rings);
            },
            InstrDataV::Cube { c } => {
                lemma_compound_clean(seg, k + 1, vi + 8, rings);
            },
            InstrDataV::Cylinder { c } => {
                let n = c.sides as int;
                lemma_cyl_vertices_clean(seg[k].line, c.height, n, rings);
                lemma_cyl_faces_clean(seg[k].line, vi, 0, if n == 0 { 0 } else { n - 1 });
                lemma_compound_clean(seg, k + 1, vi + 2 * n, rings.skip(2 * n));
            },
            _ => {
                lemma_compound_clean(seg, k + 1, vi, rings);
            },
        }
    }
}

proof fn lemma_cyl_vertices_clean(line: Option<u64>, h: u32, count: int, rings: Seq<(u32, u32)>)
    ensures
        forall|j: int|
            0 <= j < cyl_vertices(line, h, count, rings).len() ==> (#[trigger] cyl_vertices(
                line,
                h,
                count,
                rings,
            )[j]).data is AddVertex,
    decreases count,
{
    if count > 0 {
        lemma_cyl_vertices_clean(line, h, count - 1, rings.skip(2));
    }
}

proof fn lemma_cyl_faces_clean(line: Option<u64>, vi: int, i: int, split: int)
    ensures
        forall|j: int|
            0 <= j < cyl_faces(line, vi, i, split).len() ==> (#[trigger] cyl_faces(
                line,
                vi,
                i,
                split,
            )[j]).data is AddFace,
    decreases split - i,
{
    if i < split {
        lemma_cyl_faces_clean(line, vi, i + 1, split);
    }
}

} // verus!

verus! {

/// Folding preserves the absence of compounds and removes every
/// deferred-coordinate instruction.
proof fn lemma_merge_clean(
    seg: Seq<InstrV>,
    k: int,
    out: Seq<InstrV>,
    vidx: Seq<int>,
    errs: Seq<MeshErrV>,
)
    requires
        executable_stream(out),
        forall|j: int| 0 <= j < vidx.len() ==> 0 <= #[trigger] vidx[j] < out.len(),
        forall|j: int|
            0 <= j < seg.len() ==> {
                let d = (#[trigger] seg[j]).data;
                !(d is Cube) && !(d is Cylinder)
            },
    ensures
        executable_stream(merge_tc(seg, k, out, vidx, errs).0),
    decreases seg.len() - k,
{
    if 0 <= k < seg.len() {
        match seg[k].data {
            InstrDataV::AddVertex { v } => {
                assert(executable_stream(out.push(seg[k])));
                lemma_merge_clean(seg, k + 1, out.push(seg[k]), vidx.push(out.len() as int), errs);
            },
            InstrDataV::SetTextureCoordinates { index, coords } => {
                if 0 <= index < vidx.len() {
                    let out2 = out.update(vidx[index], set_tc(out[vidx[index]], coords));
                    assert(executable_stream(out2)) by {
                        assert forall|j: int| 0 <= j < out2.len() implies {
                            let d = (#[trigger] out2[j]).data;
                            !(d is Cube) && !(d is Cylinder) && !(d is SetTextureCoordinates)
                        } by {
                            assert(0 <= vidx[index] < out.len());
                            if j != vidx[index] {
                                assert(out2[j] == out[j]);
                            } else {
                                assert(out2[j] == set_tc(out[vidx[index]], coords));
                            }
                        }
                    }
                    lemma_merge_clean(seg, k + 1, out2, vidx, errs);
                } else {
                    lemma_merge_clean(
                        seg,
                        k + 1,
                        out,
                        vidx,
                        errs.push(MeshErrV { line: seg[k].line, idx: index }),
                    );
                }
            },
            _ => {
                assert(executable_stream(out.push(seg[k])));
                lemma_merge_clean(seg, k + 1, out.push(seg[k]), vidx, errs);
            },
        }
    }
}

/// After post-processing, no Cube, Cylinder or SetTextureCoordinates
/// instruction remains in the stream.
pub proof fn lemma_post_clean(segs: Seq<Seq<InstrV>>, k: int, rings: Seq<(u32, u32)>)
    ensures
        executable_stream(post_segs(segs, k, rings).out),
    decreases segs.len() - k,
{
    if 0 <= k < segs.len() {
        let cp = compound(segs[k], 0, 0, rings);
        lemma_compound_clean(segs[k], 0, 0, rings);
        lemma_merge_clean(cp.out, 0, Seq::empty(), Seq::empty(), Seq::empty());
        lemma_post_clean(segs, k + 1, rings.skip(cp.used as int));
        let p = post_segs(segs, k, rings);
        let (mo, me) = merge_tc(cp.out, 0, Seq::empty(), Seq::empty(), Seq::empty());
        let rest = post_segs(segs, k + 1, rings.skip(cp.used as int));
        assert forall|j: int| 0 <= j < p.out.len() implies {
            let d = (#[trigger] p.out[j]).data;
            !(d is Cube) && !(d is Cylinder) && !(d is SetTextureCoordinates)
        } by {
            if j == 0 {
            } else if j < 1 + mo.len() {
                assert(p.out[j] == mo[j - 1]);
            } else {
                assert(p.out[j] == rest.out[j - 1 - mo.len()]);
            }
        }
    }
}

} // verus!

verus! {

/// A synthesized vertex instruction.
fn mk_vertex(span: Span, x: u32, y: u32, z: u32) -> (r: Instruction)
    ensures
        r@ == synth_vertex(span.line, Vec3Bits { x, y, z }),
{
    Instruction {
        span,
        data: InstructionData::AddVertex(
            AddVertex {
                position: Vec3Bits { x, y, z },
                normal: Vec3Bits::zero(),
                texture_coord: Vec2Bits::zero(),
            },
        ),
    }
}

/// A synthesized four-index face instruction.
fn mk_face4(span: Span, a: usize, b: usize, c: usize, d: usize) -> (r: Instruction)
    ensures
        r@ == synth_face(span.line, seq![a as int, b as int, c as int, d as int]),
{
    let mut indexes: Vec<usize> = Vec::new();
    indexes.push(a);
    indexes.push(b);
    indexes.push(c);
    indexes.push(d);
    let r = Instruction {
        span,
        data: InstructionData::AddFace(AddFace { indexes, sides: Sides::One }),
    };
    proof {
        assert(r@.data->AddFace_indexes =~= seq![a as int, b as int, c as int, d as int]);
    }
    r
}

/// Copies `v[a..b]`.
fn copy_range_instr(v: &Vec<Instruction>, a: usize, b: usize) -> (r: Vec<Instruction>)
    requires
        a <= b <= v@.len(),
    ensures
        instrs_v(r@) == instrs_v(v@).subrange(a as int, b as int),
        r@.len() == b - a,
{
    let mut out: Vec<Instruction> = Vec::new();
    let mut k = a;
    while k < b
        invariant
            a <= k <= b <= v@.len(),
            out@.len() == k - a,
            instrs_v(out@) == instrs_v(v@).subrange(a as int, k as int),
        decreases b - k,
    {
        out.push(v[k].duplicate());
        proof {
            assert(instrs_v(out@) =~= instrs_v(v@).subrange(a as int, k as int + 1));
        }
        k = k + 1;
    }
    proof {
        assert(instrs_v(out@) =~= instrs_v(v@).subrange(a as int, b as int));
    }
    out
}

/// Executable image of [`find_cmb`].
fn find_cmb_exec(v: &Vec<Instruction>, from: usize) -> (r: Option<usize>)
    requires
        from <= v@.len(),
    ensures
        match r {
            Some(j) => find_cmb(instrs_v(v@), from as int) == Some(j as int) && from <= j
                < v@.len(),
            None => find_cmb(instrs_v(v@), from as int) is None,
        },
{
    let mut j = from;
    while j < v.len()
        invariant
            from <= j <= v@.len(),
            find_cmb(instrs_v(v@), from as int) == find_cmb(instrs_v(v@), j as int),
            instrs_v(v@).len() == v@.len(),
        decreases v@.len() - j,
    {
        proof {
            assert(instrs_v(v@)[j as int] == v@[j as int]@);
        }
        if matches!(v[j].data, InstructionData::CreateMeshBuilder(_)) {
            return Some(j);
        }
        j = j + 1;
    }
    None
}

/// The segments of an instruction list as the specification sees them.
pub open spec fn segs_v(ss: Seq<Vec<Instruction>>) -> Seq<Seq<InstrV>> {
    ss.map_values(|s: Vec<Instruction>| instrs_v(s@))
}

/// Splits a stream at its `CreateMeshBuilder` instructions.
fn split_segments(v: &Vec<Instruction>) -> (r: Vec<Vec<Instruction>>)
    ensures
        segs_v(r@) == segments(instrs_v(v@)),
        r@.len() >= 1,
    decreases v@.len(),
{
    proof {
        assert(instrs_v(v@).len() == v@.len());
    }
    match find_cmb_exec(v, 0) {
        None => {
            let seg = copy_range_instr(v, 0, v.len());
            let mut out: Vec<Vec<Instruction>> = Vec::new();
            out.push(seg);
            proof {
                assert(instrs_v(v@).subrange(0, v@.len() as int) =~= instrs_v(v@));
                assert(segs_v(out@) =~= segments(instrs_v(v@)));
            }
            out
        },
        Some(j) => {
            proof {
                lemma_find_cmb_props(instrs_v(v@), 0);
            }
            let vl = v.len();
            let first = copy_range_instr(v, 0, j);
            let tail = copy_range_instr(v, j + 1, vl);
            let mut rest = split_segments(&tail);
            let ghost restv = rest@;
            let mut out: Vec<Vec<Instruction>> = Vec::new();
            out.push(first);
            out.append(&mut rest);
            proof {
                assert(out@ =~= seq![out@[0]] + restv);
                assert(instrs_v(tail@) =~= instrs_v(v@).skip(j + 1));
                assert(instrs_v(out@[0]@) =~= instrs_v(v@).take(j as int));
                assert(segs_v(restv).len() == restv.len());
                assert(segments(instrs_v(tail@)).len() == segs_v(restv).len());
                assert(segs_v(out@) =~= segments(instrs_v(v@)));
            }
            out
        },
    }
}

/// Position extension for ring vertices: appending one ring pair on the
/// right extends the vertex list by its two vertices.
proof fn lemma_cyl_snoc(line: Option<u64>, h: u32, i: int, a: Seq<(u32, u32)>, t: (u32, u32), b: (u32, u32))
    requires
        i >= 0,
        a.len() == 2 * i,
    ensures
        cyl_vertices(line, h, i + 1, a + seq![t, b]) == cyl_vertices(line, h, i, a) + seq![
            synth_vertex(line, Vec3Bits { x: t.0, y: half_of(h), z: t.1 }),
            synth_vertex(line, Vec3Bits { x: b.0, y: neg_bits_spec(half_of(h)), z: b.1 }),
        ],
    decreases i,
{
    let ab = a + seq![t, b];
    if i == 0 {
        assert(ab[0] == t && ab[1] == b);
        assert(ab.skip(2) =~= Seq::<(u32, u32)>::empty());
        assert(cyl_vertices(line, h, 0, ab.skip(2)) == Seq::<InstrV>::empty());
        assert(cyl_vertices(line, h, i + 1, ab) =~= cyl_vertices(line, h, i, a) + seq![
            synth_vertex(line, Vec3Bits { x: t.0, y: half_of(h), z: t.1 }),
            synth_vertex(line, Vec3Bits { x: b.0, y: neg_bits_spec(half_of(h)), z: b.1 }),
        ]);
    } else {
        assert(ab[0] == a[0] && ab[1] == a[1]);
        assert(ab.skip(2) =~= a.skip(2) + seq![t, b]);
        lemma_cyl_snoc(line, h, i - 1, a.skip(2), t, b);
        assert(cyl_vertices(line, h, i + 1, ab) =~= cyl_vertices(line, h, i, a) + seq![
            synth_vertex(line, Vec3Bits { x: t.0, y: half_of(h), z: t.1 }),
            synth_vertex(line, Vec3Bits { x: b.0, y: neg_bits_spec(half_of(h)), z: b.1 }),
        ]);
    }
}

/// Ring vertices depend only on the ring pairs they consume.
proof fn lemma_cyl_append(line: Option<u64>, h: u32, count: int, a: Seq<(u32, u32)>, e: Seq<(u32, u32)>)
    requires
        count >= 0,
        a.len() == 2 * count,
    ensures
        cyl_vertices(line, h, count, a + e) == cyl_vertices(line, h, count, a),
    decreases count,
{
    if count > 0 {
        let ae = a + e;
        assert(ae[0] == a[0] && ae[1] == a[1]);
        assert(ae.skip(2) =~= a.skip(2) + e);
        lemma_cyl_append(line, h, count - 1, a.skip(2), e);
        assert(cyl_vertices(line, h, count, a + e) =~= cyl_vertices(line, h, count, a));
    }
}

/// One more ring step appends its two faces on the right.
proof fn lemma_cyl_faces_snoc(line: Option<u64>, vi: int, a: int, b: int)
    requires
        0 <= a <= b,
    ensures
        cyl_faces(line, vi, a, b + 1) == cyl_faces(line, vi, a, b) + seq![
            synth_face(line, seq![vi + 2 * b + 2, vi + 2 * b + 3, vi + 2 * b + 1, vi + 2 * b]),
            synth_face(line, seq![vi + 0, vi + 1, vi + 2 * b + 1, vi + 2 * b]),
        ],
    decreases b - a,
{
    if a < b {
        lemma_cyl_faces_snoc(line, vi, a + 1, b);
        assert(cyl_faces(line, vi, a, b + 1) =~= cyl_faces(line, vi, a, b) + seq![
            synth_face(line, seq![vi + 2 * b + 2, vi + 2 * b + 3, vi + 2 * b + 1, vi + 2 * b]),
            synth_face(line, seq![vi + 0, vi + 1, vi + 2 * b + 1, vi + 2 * b]),
        ]);
    } else {
        assert(cyl_faces(line, vi, b + 1, b + 1) == Seq::<InstrV>::empty());
        assert(cyl_faces(line, vi, a, b + 1) =~= cyl_faces(line, vi, a, b) + seq![
            synth_face(line, seq![vi + 2 * b + 2, vi + 2 * b + 3, vi + 2 * b + 1, vi + 2 * b]),
            synth_face(line, seq![vi + 0, vi + 1, vi + 2 * b + 1, vi + 2 * b]),
        ]);
    }
}

} // verus!

verus! {

/// A vertex-position table as the specification sees it.
pub open spec fn idxs_v(s: Seq<usize>) -> Seq<int> {
    s.map_values(|i: usize| i as int)
}

/// Writes texture coordinates into a vertex instruction.
fn set_tc_exec(i: &Instruction, coords: Vec2Bits) -> (r: Instruction)
    ensures
        r@ == set_tc(i@, coords),
{
    match &i.data {
        InstructionData::AddVertex(v) => Instruction {
            span: i.span,
            data: InstructionData::AddVertex(
                AddVertex { position: v.position, normal: v.normal, texture_coord: coords },
            ),
        },
        _ => i.duplicate(),
    }
}

/// Compound expansion of one segment; hands back the ring positions it
/// drew as a ghost witness.
#[verifier::loop_isolation(false)]
#[verifier::rlimit(100)]
#[verifier::spinoff_prover]
fn compound_exec(seg: &Vec<Instruction>) -> (r: (Vec<Instruction>, Ghost<Seq<(u32, u32)>>))
    ensures
        forall|ext: Seq<(u32, u32)>|
            {
                let q = #[trigger] compound(instrs_v(seg@), 0, 0, r.1@ + ext);
                &&& q.out == instrs_v(r.0@)
                &&& q.used == r.1@.len()
            },
{
    let ghost segv = instrs_v(seg@);
    proof {
        assert(segv.len() == seg@.len());
    }
    let mut out: Vec<Instruction> = Vec::new();
    let mut vi: usize = 0;
    let ghost mut rings: Seq<(u32, u32)> = Seq::empty();
    let mut k: usize = 0;
    proof {
        assert(instrs_v(out@) =~= Seq::<InstrV>::empty());
    }
    while k < seg.len()
        invariant
            k <= seg@.len(),
            vi <= out@.len(),
            forall|ext: Seq<(u32, u32)>|
                {
                    let p = #[trigger] compound(segv, k as int, vi as int, ext);
                    let q = compound(segv, 0, 0, rings + ext);
                    &&& q.out == instrs_v(out@) + p.out
                    &&& q.used == rings.len() + p.used
                },
        decreases seg@.len() - k,
    {
        let ghost out_old = out@;
        let ghost vi_old = vi;
        let ghost rings_old = rings;
        proof {
            assert(segv[k as int] == seg@[k as int]@);
        }
        let span = seg[k].span;
        match &seg[k].data {
            InstructionData::AddVertex(_) => {
                out.push(seg[k].duplicate());
                let ol = out.len();
                proof {
                    assert(vi < ol);
                }
                vi = vi + 1;
                proof {
                    assert forall|ext: Seq<(u32, u32)>| {
                        let p = #[trigger] compound(segv, k + 1, vi as int, ext);
                        let q = compound(segv, 0, 0, rings + ext);
                        &&& q.out == instrs_v(out@) + p.out
                        &&& q.used == rings.len() + p.used
                    } by {
                        let pk = compound(segv, k as int, vi_old as int, ext);
                        let p = compound(segv, k + 1, vi as int, ext);
                        assert(pk.out == seq![segv[k as int]] + p.out);
                        assert(instrs_v(out@) =~= instrs_v(out_old).push(segv[k as int]));
                        assert(instrs_v(out@) + p.out =~= instrs_v(out_old) + pk.out);
                    }
                }
            },
            InstructionData::Cube(c) => {
                let x = c.half_dim.x;
                let y = c.half_dim.y;
                let z = c.half_dim.z;
                let nx = neg_bits(x);
                let ny = neg_bits(y);
                let nz = neg_bits(z);
                let ghost cc = *c;
                out.push(mk_vertex(span, x, y, nz));
                out.push(mk_vertex(span, x, ny, nz));
                out.push(mk_vertex(span, nx, ny, nz));
                out.push(mk_vertex(span, nx, y, nz));
                out.push(mk_vertex(span, x, y, z));
                out.push(mk_vertex(span, x, ny, z));
                out.push(mk_vertex(span, nx, ny, z));
                out.push(mk_vertex(span, nx, y, z));
                let ol = out.len();
                proof {
                    assert(vi + 8 <= ol);
                }
                out.push(mk_face4(span, vi, vi + 1, vi + 2, vi + 3));
                out.push(mk_face4(span, vi, vi + 4, vi + 5, vi + 1));
                out.push(mk_face4(span, vi, vi + 3, vi + 7, vi + 4));
                out.push(mk_face4(span, vi + 6, vi + 5, vi + 4, vi + 7));
                out.push(mk_face4(span, vi + 6, vi + 7, vi + 3, vi + 2));
                out.push(mk_face4(span, vi + 6, vi + 2, vi + 1, vi + 5));
                vi = vi + 8;
                proof {
                    assert(instrs_v(out@) =~= instrs_v(out_old) + cube_vertices(
                        span.line,
                        cc,
                    ) + cube_faces(span.line, vi_old as int));
                    assert forall|ext: Seq<(u32, u32)>| {
                        let p = #[trigger] compound(segv, k + 1, vi as int, ext);
                        let q = compound(segv, 0, 0, rings + ext);
                        &&& q.out == instrs_v(out@) + p.out
                        &&& q.used == rings.len() + p.used
                    } by {
                        let pk = compound(segv, k as int, vi_old as int, ext);
                        let p = compound(segv, k + 1, vi as int, ext);
                        assert(pk.out == cube_vertices(span.line, cc) + cube_faces(
                            span.line,
                            vi_old as int,
                        ) + p.out);
                        assert(instrs_v(out@) + p.out =~= instrs_v(out_old) + pk.out);
                    }
                }
            },
            InstructionData::Cylinder(c) => {
                let cy = *c;
                let n = cy.sides;
                let h2 = half_bits(cy.height);
                let nh2 = neg_bits(h2);
                let ghost out_mid0 = out@;
                let ghost mut newr: Seq<(u32, u32)> = Seq::empty();
                let mut i: u32 = 0;
                proof {
                    assert(instrs_v(out@) =~= instrs_v(out_mid0) + cyl_vertices(
                        span.line,
                        cy.height,
                        0,
                        newr,
                    ));
                }
                while i < n
                    invariant
                        i <= n,
                        newr.len() == 2 * i as int,
                        out@.len() == out_mid0.len() + 2 * i as int,
                        instrs_v(out@) == instrs_v(out_mid0) + cyl_vertices(
                            span.line,
                            cy.height,
                            i as int,
                            newr,
                        ),
                    decreases n - i,
                {
                    let t = ring_xz(n, i, cy.upper_radius);
                    let b = ring_xz(n, i, cy.lower_radius);
                    let ghost outb = out@;
                    out.push(mk_vertex(span, t.0, h2, t.1));
                    out.push(mk_vertex(span, b.0, nh2, b.1));
                    proof {
                        lemma_cyl_snoc(span.line, cy.height, i as int, newr, t, b);
                        let tv = synth_vertex(
                            span.line,
                            Vec3Bits { x: t.0, y: half_of(cy.height), z: t.1 },
                        );
                        let bv = synth_vertex(
                            span.line,
                            Vec3Bits { x: b.0, y: neg_bits_spec(half_of(cy.height)), z: b.1 },
                        );
                        assert(instrs_v(out@) =~= instrs_v(outb) + seq![tv, bv]);
                        newr = newr + seq![t, b];
                        assert(instrs_v(out@) =~= instrs_v(out_mid0) + cyl_vertices(
                            span.line,
                            cy.height,
                            i as int + 1,
                            newr,
                        ));
                    }
                    i = i + 1;
                }
                let split: u32 = if n == 0 {
                    0
                } else {
                    n - 1
                };
                let ghost out_mid1 = out@;
                let mut fidx: u32 = 0;
                proof {
                    assert(instrs_v(out@) =~= instrs_v(out_mid1) + cyl_faces(
                        span.line,
                        vi_old as int,
                        0,
                        0,
                    ));
                }
                while fidx < split
                    invariant
                        fidx <= split,
                        out@.len() == out_mid1.len() + 2 * fidx as int,
                        instrs_v(out@) == instrs_v(out_mid1) + cyl_faces(
                            span.line,
                            vi_old as int,
                            0,
                            fidx as int,
                        ),
                    decreases split - fidx,
                {
                    let ol = out.len();
                    proof {
                        assert(vi_old + 2 * (n as int) <= out_mid1.len() <= ol);
                        assert(2 * (fidx as int) + 4 <= 2 * (n as int));
                    }
                    let base = vi + 2 * (fidx as usize);
                    let ghost outb = out@;
                    out.push(mk_face4(span, base + 2, base + 3, base + 1, base));
                    out.push(mk_face4(span, vi, vi + 1, base + 1, base));
                    proof {
                        lemma_cyl_faces_snoc(span.line, vi_old as int, 0, fidx as int);
                        let f1 = synth_face(
                            span.line,
                            seq![
                                vi_old + 2 * (fidx as int) + 2,
                                vi_old + 2 * (fidx as int) + 3,
                                vi_old + 2 * (fidx as int) + 1,
                                vi_old + 2 * (fidx as int),
                            ],
                        );
                        let f2 = synth_face(
                            span.line,
                            seq![
                                vi_old as int,
                                vi_old + 1,
                                vi_old + 2 * (fidx as int) + 1,
                                vi_old + 2 * (fidx as int),
                            ],
                        );
                        assert(seq![base as int + 2, base as int + 3, base as int + 1, base as int]
                            =~= f1.data->AddFace_indexes);
                        assert(seq![vi as int, vi as int + 1, base as int + 1, base as int]
                            =~= f2.data->AddFace_indexes);
                        assert(instrs_v(out@) =~= instrs_v(outb) + seq![f1, f2]);
                        assert(instrs_v(out@) =~= instrs_v(out_mid1) + cyl_faces(
                            span.line,
                            vi_old as int,
                            0,
                            fidx as int + 1,
                        ));
                    }
                    fidx = fidx + 1;
                }
                let ol2 = out.len();
                proof {
                    assert(vi_old + 2 * (n as int) <= out_mid1.len() <= ol2);
                }
                vi = vi + 2 * (n as usize);
                proof {
                    rings = rings + newr;
                    assert forall|ext: Seq<(u32, u32)>| {
                        let p = #[trigger] compound(segv, k + 1, vi as int, ext);
                        let q = compound(segv, 0, 0, rings + ext);
                        &&& q.out == instrs_v(out@) + p.out
                        &&& q.used == rings.len() + p.used
                    } by {
                        assert(rings + ext =~= rings_old + (newr + ext));
                        let pk = compound(segv, k as int, vi_old as int, newr + ext);
                        let q = compound(segv, 0, 0, rings_old + (newr + ext));
                        assert(q.out == instrs_v(out_old) + pk.out && q.used == rings_old.len()
                            + pk.used);
                        lemma_cyl_append(span.line, cy.height, n as int, newr, ext);
                        assert((newr + ext).skip(2 * n as int) =~= ext);
                        let p = compound(segv, k + 1, vi as int, ext);
                        assert(pk.out == cyl_vertices(span.line, cy.height, n as int, newr)
                            + cyl_faces(span.line, vi_old as int, 0, if n == 0 {
                            0int
                        } else {
                            n as int - 1
                        }) + p.out);
                        assert(pk.used == 2 * n as int + p.used);
                        assert(instrs_v(out@) =~= instrs_v(out_mid1) + cyl_faces(
                            span.line,
                            vi_old as int,
                            0,
                            if n == 0 {
                                0int
                            } else {
                                n as int - 1
                            },
                        ));
                        assert(instrs_v(out@) + p.out =~= instrs_v(out_old) + pk.out);
                    }
                }
            },
            _ => {
                out.push(seg[k].duplicate());
                proof {
                    assert forall|ext: Seq<(u32, u32)>| {
                        let p = #[trigger] compound(segv, k + 1, vi as int, ext);
                        let q = compound(segv, 0, 0, rings + ext);
                        &&& q.out == instrs_v(out@) + p.out
                        &&& q.used == rings.len() + p.used
                    } by {
                        let pk = compound(segv, k as int, vi_old as int, ext);
                        let p = compound(segv, k + 1, vi as int, ext);
                        assert(pk.out == seq![segv[k as int]] + p.out);
                        assert(instrs_v(out@) =~= instrs_v(out_old).push(segv[k as int]));
                        assert(instrs_v(out@) + p.out =~= instrs_v(out_old) + pk.out);
                    }
                }
            },
        }
        k = k + 1;
    }
    proof {
        assert forall|ext: Seq<(u32, u32)>| {
            let q = #[trigger] compound(segv, 0, 0, rings + ext);
            &&& q.out == instrs_v(out@)
            &&& q.used == rings.len()
        } by {
            let p = compound(segv, k as int, vi as int, ext);
            assert(p.out == Seq::<InstrV>::empty() && p.used == 0);
            assert(instrs_v(out@) + p.out =~= instrs_v(out@));
        }
    }
    (out, Ghost(rings))
}

} // verus!

verus! {

/// Texture-coordinate folding of one expanded segment.
#[verifier::loop_isolation(false)]
#[verifier::rlimit(100)]
#[verifier::spinoff_prover]
fn merge_exec(seg: &Vec<Instruction>) -> (r: (Vec<Instruction>, Vec<MeshError>))
    ensures
        ({
            let (mo, me) = merge_tc(
                instrs_v(seg@),
                0,
                Seq::empty(),
                Seq::empty(),
                Seq::empty(),
            );
            &&& instrs_v(r.0@) == mo
            &&& mesh_errs_v(r.1@) == me
        }),
{
    let ghost segv = instrs_v(seg@);
    proof {
        assert(segv.len() == seg@.len());
    }
    let mut out: Vec<Instruction> = Vec::new();
    let mut vidx: Vec<usize> = Vec::new();
    let mut errs: Vec<MeshError> = Vec::new();
    let mut k: usize = 0;
    proof {
        assert(instrs_v(out@) =~= Seq::<InstrV>::empty());
        assert(idxs_v(vidx@) =~= Seq::<int>::empty());
        assert(mesh_errs_v(errs@) =~= Seq::<MeshErrV>::empty());
    }
    while k < seg.len()
        invariant
            k <= seg@.len(),
            forall|j: int| 0 <= j < vidx@.len() ==> #[trigger] vidx@[j] < out@.len(),
            merge_tc(segv, k as int, instrs_v(out@), idxs_v(vidx@), mesh_errs_v(errs@))
                == merge_tc(segv, 0, Seq::empty(), Seq::empty(), Seq::empty()),
        decreases seg@.len() - k,
    {
        let ghost out_old = out@;
        let ghost vidx_old = vidx@;
        let ghost errs_old = errs@;
        proof {
            assert(segv[k as int] == seg@[k as int]@);
        }
        match &seg[k].data {
            InstructionData::AddVertex(_) => {
                let pos = out.len();
                out.push(seg[k].duplicate());
                vidx.push(pos);
                proof {
                    assert(instrs_v(out@) =~= instrs_v(out_old).push(segv[k as int]));
                    assert(idxs_v(vidx@) =~= idxs_v(vidx_old).push(instrs_v(out_old).len() as int));
                }
            },
            InstructionData::SetTextureCoordinates(tc) => {
                let index = tc.index;
                let coords = tc.coords;
                if index < vidx.len() {
                    let p2 = vidx[index];
                    let updated = set_tc_exec(&out[p2], coords);
                    out.set(p2, updated);
                    proof {
                        assert(idxs_v(vidx@)[index as int] == p2 as int);
                        assert(instrs_v(out@) =~= instrs_v(out_old).update(
                            p2 as int,
                            set_tc(instrs_v(out_old)[p2 as int], coords),
                        ));
                    }
                } else {
                    errs.push(
                        MeshError {
                            location: seg[k].span,
                            kind: MeshErrorKind::OutOfBounds { idx: index },
                        },
                    );
                    proof {
                        assert(idxs_v(vidx@).len() == vidx@.len());
                        assert(mesh_errs_v(errs@) =~= mesh_errs_v(errs_old).push(
                            MeshErrV { line: segv[k as int].line, idx: index as int },
                        ));
                    }
                }
            },
            _ => {
                out.push(seg[k].duplicate());
                proof {
                    assert(instrs_v(out@) =~= instrs_v(out_old).push(segv[k as int]));
                }
            },
        }
        k = k + 1;
    }
    (out, errs)
}

/// What post-processing guarantees of the segments from `k` on, for any
/// extension of the ring oracle.
pub open spec fn post_holds(
    segs: Seq<Seq<InstrV>>,
    k: int,
    rings: Seq<(u32, u32)>,
    out: Seq<InstrV>,
    errs0: Seq<MeshErrV>,
    errs1: Seq<MeshErrV>,
) -> bool {
    forall|ext: Seq<(u32, u32)>|
        {
            let p = #[trigger] post_segs(segs, k, rings + ext);
            &&& out == p.out
            &&& p.used == rings.len()
            &&& errs1 == errs0 + p.errs
        }
}

/// Post-processing of the segments from `k` on.
#[verifier::rlimit(100)]
#[verifier::spinoff_prover]
fn post_from(
    segs: &Vec<Vec<Instruction>>,
    k: usize,
    errors: &mut Vec<MeshError>,
) -> (r: (Vec<Instruction>, Ghost<Seq<(u32, u32)>>))
    requires
        k <= segs@.len(),
    ensures
        post_holds(
            segs_v(segs@),
            k as int,
            r.1@,
            instrs_v(r.0@),
            mesh_errs_v(old(errors)@),
            mesh_errs_v(final(errors)@),
        ),
    decreases segs@.len() - k,
{
    let ghost sv = segs_v(segs@);
    proof {
        assert(sv.len() == segs@.len());
    }
    if k == segs.len() {
        let out: Vec<Instruction> = Vec::new();
        proof {
            assert forall|ext: Seq<(u32, u32)>| {
                let p = #[trigger] post_segs(sv, k as int, Seq::empty() + ext);
                &&& instrs_v(out@) == p.out
                &&& p.used == 0
                &&& mesh_errs_v(errors@) == mesh_errs_v(old(errors)@) + p.errs
            } by {
                assert(instrs_v(out@) =~= Seq::<InstrV>::empty());
                assert(mesh_errs_v(errors@) =~= mesh_errs_v(old(errors)@) + Seq::<
                    MeshErrV,
                >::empty());
            }
        }
        (out, Ghost(Seq::empty()))
    } else {
        proof {
            assert(sv[k as int] == instrs_v(segs@[k as int]@));
        }
        let (co, Ghost(cr)) = compound_exec(&segs[k]);
        let (mo, me) = merge_exec(&co);
        let mut mev = me;
        let ghost mevv = mev@;
        errors.append(&mut mev);
        let ghost emid = mesh_errs_v(errors@);
        let (rest, Ghost(rr)) = post_from(segs, k + 1, errors);
        let mut out: Vec<Instruction> = Vec::new();
        out.push(
            Instruction {
                span: Span { line: None },
                data: InstructionData::CreateMeshBuilder(CreateMeshBuilder),
            },
        );
        let ghost cmbv = out@;
        let mut mo2 = mo;
        let ghost mov = mo2@;
        out.append(&mut mo2);
        let mut rest2 = rest;
        let ghost restv = rest2@;
        out.append(&mut rest2);
        let ghost rings = cr + rr;
        proof {
            assert(out@ =~= cmbv + mov + restv);
            assert forall|ext: Seq<(u32, u32)>| {
                let p = #[trigger] post_segs(sv, k as int, rings + ext);
                &&& instrs_v(out@) == p.out
                &&& p.used == rings.len()
                &&& mesh_errs_v(errors@) == mesh_errs_v(old(errors)@) + p.errs
            } by {
                assert(rings + ext =~= cr + (rr + ext));
                let cp = compound(sv[k as int], 0, 0, cr + (rr + ext));
                assert(cp.out == instrs_v(co@) && cp.used == cr.len());
                assert((rings + ext).skip(cp.used as int) =~= rr + ext);
                let (mospec, mespec) = merge_tc(
                    cp.out,
                    0,
                    Seq::empty(),
                    Seq::empty(),
                    Seq::empty(),
                );
                assert(mospec == instrs_v(mov) && mespec == mesh_errs_v(mevv));
                let pr = post_segs(sv, k as int + 1, rr + ext);
                assert(instrs_v(restv) == pr.out && pr.used == rr.len());
                assert(mesh_errs_v(errors@) == emid + pr.errs);
                assert(instrs_v(cmbv) =~= seq![fresh_cmb()]);
                assert(instrs_v(out@) =~= instrs_v(cmbv) + instrs_v(mov) + instrs_v(restv));
                assert(emid =~= mesh_errs_v(old(errors)@) + mesh_errs_v(mevv));
                assert(mesh_errs_v(errors@) =~= mesh_errs_v(old(errors)@) + (mespec + pr.errs));
            }
        }
        (out, Ghost(rings))
    }
}

/// Prepares an instruction stream for execution: per segment, expands
/// `Cube` and `Cylinder` into explicit vertices and faces and folds
/// every `SetTextureCoordinates` into the vertex it names (an index
/// beyond the vertices seen so far in its segment is dropped with an
/// out-of-bounds diagnostic). Segments are reassembled behind fresh
/// `CreateMeshBuilder` separators, and the diagnostics found here are
/// appended to those already in the list. No Cube, Cylinder or
/// SetTextureCoordinates instruction survives post-processing.
pub fn post_process(instructions: InstructionList) -> (r: InstructionList)
    ensures
        exists|rings: Seq<(u32, u32)>|
            #![trigger post_segs(segments(instrs_v(instructions.instructions@)), 0, rings)]
            {
                let p = post_segs(segments(instrs_v(instructions.instructions@)), 0, rings);
                &&& instrs_v(r.instructions@) == p.out
                &&& p.used == rings.len()
                &&& mesh_errs_v(r.errors@) == mesh_errs_v(instructions.errors@) + p.errs
            },
        executable_stream(instrs_v(r.instructions@)),
{
    let segs = split_segments(&instructions.instructions);
    let mut errors = instructions.errors;
    let (out, Ghost(rings)) = post_from(&segs, 0, &mut errors);
    proof {
        assert(rings + Seq::<(u32, u32)>::empty() =~= rings);
        let p = post_segs(
            segments(instrs_v(instructions.instructions@)),
            0,
            rings + Seq::<(u32, u32)>::empty(),
        );
        assert(instrs_v(out@) == p.out && p.used == rings.len() && mesh_errs_v(errors@)
            == mesh_errs_v(instructions.errors@) + p.errs);
        lemma_post_clean(segments(instrs_v(instructions.instructions@)), 0, rings);
    }
    InstructionList { instructions: out, errors }
}

} // verus!
