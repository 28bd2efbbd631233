//! The typed instruction stream a mesh file compiles to. Scalars that
//! the renderer will read as single-precision floats are carried here as
//! their bit patterns, so the stream itself is plain data; the embedding
//! application converts at the boundary. Cube, Cylinder and
//! SetTextureCoordinates instructions cannot be executed and must be
//! eliminated by post-processing before the stream reaches an executor.

use crate::span::Span;
use vstd::prelude::*;

verus! {

/// A three-component vector of single-precision bit patterns.
#[derive(Debug, Clone, Copy, PartialEq, Eq, Structural)]
pub struct Vec3Bits {
    pub x: u32,
    pub y: u32,
    pub z: u32,
}

/// A two-component vector of single-precision bit patterns.
#[derive(Debug, Clone, Copy, PartialEq, Eq, Structural)]
pub struct Vec2Bits {
    pub x: u32,
    pub y: u32,
}

/// A three-component vector of booleans, as a mirror instruction uses.
#[derive(Debug, Clone, Copy, PartialEq, Eq, Structural)]
pub struct BVec3 {
    pub x: bool,
    pub y: bool,
    pub z: bool,
}

/// An RGB colour with one byte per channel.
#[derive(Debug, Clone, Copy, PartialEq, Eq, Structural)]
pub struct ColorU8RGB {
    pub r: u8,
    pub g: u8,
    pub b: u8,
}

/// An RGBA colour with one byte per channel.
#[derive(Debug, Clone, Copy, PartialEq, Eq, Structural)]
pub struct ColorU8RGBA {
    pub r: u8,
    pub g: u8,
    pub b: u8,
    pub a: u8,
}

/// The sign bit of a single-precision value.
pub const SIGN_BIT: u32 = 0x8000_0000;

/// Negation of a single-precision value on its bit pattern: the sign
/// bit flips and nothing else changes.
pub open spec fn neg_bits_spec(b: u32) -> u32 {
    b ^ SIGN_BIT
}

pub fn neg_bits(b: u32) -> (r: u32)
    ensures
        r == neg_bits_spec(b),
{
    b ^ SIGN_BIT
}

/// The bit pattern of positive zero.
pub const ZERO_BITS: u32 = 0;

impl Vec3Bits {
    pub fn new(x: u32, y: u32, z: u32) -> (r: Vec3Bits)
        ensures
            r == (Vec3Bits { x, y, z }),
    {
        Vec3Bits { x, y, z }
    }

    /// The zero vector.
    pub fn zero() -> (r: Vec3Bits)
        ensures
            r == (Vec3Bits { x: ZERO_BITS, y: ZERO_BITS, z: ZERO_BITS }),
    {
        Vec3Bits { x: ZERO_BITS, y: ZERO_BITS, z: ZERO_BITS }
    }
}

impl Vec2Bits {
    /// The zero vector.
    pub fn zero() -> (r: Vec2Bits)
        ensures
            r == (Vec2Bits { x: ZERO_BITS, y: ZERO_BITS }),
    {
        Vec2Bits { x: ZERO_BITS, y: ZERO_BITS }
    }
}

/// How faces blend with what is behind them.
#[derive(Debug, Clone, Copy, PartialEq, Eq, Structural)]
pub enum BlendMode {
    Normal,
    Additive,
}

/// How glow attenuates with distance.
#[derive(Debug, Clone, Copy, PartialEq, Eq, Structural)]
pub enum GlowAttenuationMode {
    DivideExponent2,
    DivideExponent4,
}

/// How many sides of a face are rendered.
#[derive(Debug, Clone, Copy, PartialEq, Eq, Structural)]
pub enum Sides {
    Unset,
    One,
    Two,
}

impl Default for Sides {
    fn default() -> (r: Self)
        ensures
            r == Sides::Unset,
    {
        Self::Unset
    }
}

/// Whether a transform applies to one mesh or to all of them.
#[derive(Debug, Clone, Copy, PartialEq, Eq, Structural)]
pub enum ApplyTo {
    Unset,
    SingleMesh,
    AllMeshes,
}

impl Default for ApplyTo {
    fn default() -> (r: Self)
        ensures
            r == ApplyTo::Unset,
    {
        Self::Unset
    }
}

/// The command kinds a mesh file's token stream can name.
#[derive(Debug, Clone, Copy, PartialEq, Eq, Structural)]
pub enum InstructionType {
    CreateMeshBuilder,
    AddVertex,
    AddFace,
    AddFace2,
    Cube,
    Cylinder,
    GenerateNormals,
    Texture,
    Translate,
    TranslateAll,
    Scale,
    ScaleAll,
    Rotate,
    RotateAll,
    Shear,
    ShearAll,
    Mirror,
    MirrorAll,
    SetColor,
    SetEmissiveColor,
    SetBlendMode,
    LoadTexture,
    SetDecalTransparentColor,
    SetTextureCoordinates,
}

/// Starts a new mesh; the instructions after it belong to the next
/// segment.
#[derive(Debug, Clone, Copy, PartialEq, Eq, Structural)]
pub struct CreateMeshBuilder;

#[derive(Debug, Clone, Copy, PartialEq, Eq, Structural)]
pub struct AddVertex {
    pub position: Vec3Bits,
    pub normal: Vec3Bits,
    /// Only meaningful after post-processing has folded
    /// `SetTextureCoordinates` into the vertex.
    pub texture_coord: Vec2Bits,
}

#[derive(Debug, Clone)]
pub struct AddFace {
    pub indexes: Vec<usize>,
    pub sides: Sides,
}

/// Cannot be executed; post-processing expands it into `AddVertex` and
/// `AddFace` instructions.
#[derive(Debug, Clone, Copy, PartialEq, Eq, Structural)]
pub struct Cube {
    pub half_dim: Vec3Bits,
}

/// Cannot be executed; post-processing expands it into `AddVertex` and
/// `AddFace` instructions.
#[derive(Debug, Clone, Copy, PartialEq, Eq, Structural)]
pub struct Cylinder {
    pub sides: u32,
    pub upper_radius: u32,
    pub lower_radius: u32,
    pub height: u32,
}

#[derive(Debug, Clone, Copy, PartialEq, Eq, Structural)]
pub struct Translate {
    pub value: Vec3Bits,
    pub application: ApplyTo,
}

#[derive(Debug, Clone, Copy, PartialEq, Eq, Structural)]
pub struct Scale {
    pub value: Vec3Bits,
    pub application: ApplyTo,
}

#[derive(Debug, Clone, Copy, PartialEq, Eq, Structural)]
pub struct Rotate {
    pub axis: Vec3Bits,
    pub angle: u32,
    pub application: ApplyTo,
}

#[derive(Debug, Clone, Copy, PartialEq, Eq, Structural)]
pub struct Shear {
    pub direction: Vec3Bits,
    pub shear: Vec3Bits,
    pub ratio: u32,
    pub application: ApplyTo,
}

#[derive(Debug, Clone, Copy, PartialEq, Eq, Structural)]
pub struct Mirror {
    pub directions: BVec3,
    pub application: ApplyTo,
}

#[derive(Debug, Clone, Copy, PartialEq, Eq, Structural)]
pub struct SetColor {
    pub color: ColorU8RGBA,
}

#[derive(Debug, Clone, Copy, PartialEq, Eq, Structural)]
pub struct SetEmissiveColor {
    pub color: ColorU8RGB,
}

#[derive(Debug, Clone, Copy, PartialEq, Eq, Structural)]
pub struct SetBlendMode {
    pub blend_mode: BlendMode,
    pub glow_half_distance: u16,
    pub glow_attenuation_mode: GlowAttenuationMode,
}

impl SetBlendMode {
    /// The blend mode a stream starts with.
    pub fn default_blend_mode() -> (r: Option<BlendMode>)
        ensures
            r == Some(BlendMode::Normal),
    {
        Some(BlendMode::Normal)
    }

    /// The glow attenuation a stream starts with.
    pub fn default_glow_attenuation_mode() -> (r: Option<GlowAttenuationMode>)
        ensures
            r == Some(GlowAttenuationMode::DivideExponent4),
    {
        Some(GlowAttenuationMode::DivideExponent4)
    }
}

#[derive(Debug, Clone)]
pub struct LoadTexture {
    pub daytime: String,
    pub nighttime: String,
}

#[derive(Debug, Clone, Copy, PartialEq, Eq, Structural)]
pub struct SetDecalTransparentColor {
    pub color: ColorU8RGB,
}

/// Cannot be executed; post-processing folds it into the `AddVertex`
/// instruction it refers to.
#[derive(Debug, Clone, Copy, PartialEq, Eq, Structural)]
pub struct SetTextureCoordinates {
    pub index: usize,
    pub coords: Vec2Bits,
}

/// The payload of one instruction.
#[derive(Debug, Clone)]
pub enum InstructionData {
    CreateMeshBuilder(CreateMeshBuilder),
    AddVertex(AddVertex),
    AddFace(AddFace),
    Cube(Cube),
    Cylinder(Cylinder),
    Translate(Translate),
    Scale(Scale),
    Rotate(Rotate),
    Shear(Shear),
    Mirror(Mirror),
    SetColor(SetColor),
    SetEmissiveColor(SetEmissiveColor),
    SetBlendMode(SetBlendMode),
    LoadTexture(LoadTexture),
    SetDecalTransparentColor(SetDecalTransparentColor),
    SetTextureCoordinates(SetTextureCoordinates),
}

/// One instruction with the source line it came from.
#[derive(Debug, Clone)]
pub struct Instruction {
    pub span: Span,
    pub data: InstructionData,
}

/// Mathematical image of an instruction's payload.
pub ghost enum InstrDataV {
    CreateMeshBuilder,
    AddVertex { v: AddVertex },
    AddFace { indexes: Seq<int>, sides: Sides },
    Cube { c: Cube },
    Cylinder { c: Cylinder },
    Translate { t: Translate },
    Scale { s: Scale },
    Rotate { r: Rotate },
    Shear { s: Shear },
    Mirror { m: Mirror },
    SetColor { c: SetColor },
    SetEmissiveColor { c: SetEmissiveColor },
    SetBlendMode { b: SetBlendMode },
    LoadTexture { daytime: Seq<char>, nighttime: Seq<char> },
    SetDecalTransparentColor { c: SetDecalTransparentColor },
    SetTextureCoordinates { index: int, coords: Vec2Bits },
}

/// Mathematical image of one instruction.
pub ghost struct InstrV {
    pub line: Option<u64>,
    pub data: InstrDataV,
}

impl View for Instruction {
    type V = InstrV;

    open spec fn view(&self) -> InstrV {
        InstrV {
            line: self.span.line,
            data: match self.data {
                InstructionData::CreateMeshBuilder(_) => InstrDataV::CreateMeshBuilder,
                InstructionData::AddVertex(v) => InstrDataV::AddVertex { v },
                InstructionData::AddFace(AddFace { indexes, sides }) => InstrDataV::AddFace {
                    indexes: indexes@.map_values(|i: usize| i as int),
                    sides,
                },
                InstructionData::Cube(c) => InstrDataV::Cube { c },
                InstructionData::Cylinder(c) => InstrDataV::Cylinder { c },
                InstructionData::Translate(t) => InstrDataV::Translate { t },
                InstructionData::Scale(s) => InstrDataV::Scale { s },
                InstructionData::Rotate(r) => InstrDataV::Rotate { r },
                InstructionData::Shear(s) => InstrDataV::Shear { s },
                InstructionData::Mirror(m) => InstrDataV::Mirror { m },
                InstructionData::SetColor(c) => InstrDataV::SetColor { c },
                InstructionData::SetEmissiveColor(c) => InstrDataV::SetEmissiveColor { c },
                InstructionData::SetBlendMode(b) => InstrDataV::SetBlendMode { b },
                InstructionData::LoadTexture(LoadTexture { daytime, nighttime }) => {
                    InstrDataV::LoadTexture { daytime: daytime@, nighttime: nighttime@ }
                },
                InstructionData::SetDecalTransparentColor(c) => {
                    InstrDataV::SetDecalTransparentColor { c }
                },
                InstructionData::SetTextureCoordinates(SetTextureCoordinates { index, coords }) => {
                    InstrDataV::SetTextureCoordinates { index: index as int, coords }
                },
            },
        }
    }
}

/// The images of a list of instructions.
pub open spec fn instrs_v(l: Seq<Instruction>) -> Seq<InstrV> {
    l.map_values(|i: Instruction| i@)
}

/// An anomaly met while post-processing a mesh's instruction stream.
#[derive(Debug, Clone, Copy)]
pub struct MeshError {
    pub location: Span,
    pub kind: MeshErrorKind,
}

#[derive(Debug, Clone, Copy)]
pub enum MeshErrorKind {
    /// A texture-coordinate index beyond the vertices of its segment.
    OutOfBounds { idx: usize },
}

/// Mathematical image of a mesh diagnostic.
pub ghost struct MeshErrV {
    pub line: Option<u64>,
    pub idx: int,
}

impl View for MeshError {
    type V = MeshErrV;

    open spec fn view(&self) -> MeshErrV {
        MeshErrV {
            line: self.location.line,
            idx: match self.kind {
                MeshErrorKind::OutOfBounds { idx } => idx as int,
            },
        }
    }
}

/// The images of a list of mesh diagnostics.
pub open spec fn mesh_errs_v(l: Seq<MeshError>) -> Seq<MeshErrV> {
    l.map_values(|e: MeshError| e@)
}

/// An instruction stream with the diagnostics gathered so far.
#[derive(Debug, Clone)]
pub struct InstructionList {
    pub instructions: Vec<Instruction>,
    pub errors: Vec<MeshError>,
}

impl InstructionList {
    /// An empty stream with no diagnostics.
    pub fn new() -> (r: InstructionList)
        ensures
            instrs_v(r.instructions@) == Seq::<InstrV>::empty(),
            mesh_errs_v(r.errors@) == Seq::<MeshErrV>::empty(),
    {
        let r = InstructionList { instructions: Vec::new(), errors: Vec::new() };
        proof {
            assert(instrs_v(r.instructions@) =~= Seq::<InstrV>::empty());
            assert(mesh_errs_v(r.errors@) =~= Seq::<MeshErrV>::empty());
        }
        r
    }
}

impl Instruction {
    /// A copy of the instruction.
    pub fn duplicate(&self) -> (r: Instruction)
        ensures
            r@ == self@,
    {
        let data = match &self.data {
            InstructionData::CreateMeshBuilder(_) => {
                InstructionData::CreateMeshBuilder(CreateMeshBuilder)
            },
            InstructionData::AddVertex(v) => InstructionData::AddVertex(*v),
            InstructionData::AddFace(f) => {
                let mut indexes: Vec<usize> = Vec::new();
                let mut k: usize = 0;
                while k < f.indexes.len()
                    invariant
                        k <= f.indexes@.len(),
                        indexes@ == f.indexes@.subrange(0, k as int),
                    decreases f.indexes@.len() - k,
                {
                    indexes.push(f.indexes[k]);
                    proof {
                        assert(indexes@ =~= f.indexes@.subrange(0, k as int + 1));
                    }
                    k = k + 1;
                }
                proof {
                    assert(indexes@ =~= f.indexes@);
                }
                InstructionData::AddFace(AddFace { indexes, sides: f.sides })
            },
            InstructionData::Cube(c) => InstructionData::Cube(*c),
            InstructionData::Cylinder(c) => InstructionData::Cylinder(*c),
            InstructionData::Translate(t) => InstructionData::Translate(*t),
            InstructionData::Scale(s) => InstructionData::Scale(*s),
            InstructionData::Rotate(r) => InstructionData::Rotate(*r),
            InstructionData::Shear(s) => InstructionData::Shear(*s),
            InstructionData::Mirror(m) => InstructionData::Mirror(*m),
            InstructionData::SetColor(c) => InstructionData::SetColor(*c),
            InstructionData::SetEmissiveColor(c) => InstructionData::SetEmissiveColor(*c),
            InstructionData::SetBlendMode(b) => InstructionData::SetBlendMode(*b),
            InstructionData::LoadTexture(t) => InstructionData::LoadTexture(
                LoadTexture { daytime: t.daytime.clone(), nighttime: t.nighttime.clone() },
            ),
            InstructionData::SetDecalTransparentColor(c) => {
                InstructionData::SetDecalTransparentColor(*c)
            },
            InstructionData::SetTextureCoordinates(t) => {
                InstructionData::SetTextureCoordinates(*t)
            },
        };
        Instruction { span: self.span, data }
    }
}

} // verus!
