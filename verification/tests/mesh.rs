//! Post-processing of the mesh-instruction stream: compound expansion,
//! texture-coordinate folding, and segment boundaries.

use bve::mesh::post_processing::post_process;
use bve::mesh::types::{AddVertex, Cube, Cylinder, Instruction, InstructionData, InstructionList,
    SetTextureCoordinates, Vec2Bits, Vec3Bits};
use bve::span::Span;

fn instr(data: InstructionData) -> Instruction {
    Instruction { span: Span::from_line(7), data }
}

fn vertex(x: f32, y: f32, z: f32) -> Instruction {
    instr(InstructionData::AddVertex(AddVertex {
        position: Vec3Bits { x: x.to_bits(), y: y.to_bits(), z: z.to_bits() },
        normal: Vec3Bits { x: 0, y: 0, z: 0 },
        texture_coord: Vec2Bits { x: 0, y: 0 },
    }))
}

fn list(instructions: Vec<Instruction>) -> InstructionList {
    InstructionList { instructions, errors: Vec::new() }
}

fn count_vertices(l: &InstructionList) -> usize {
    l.instructions
        .iter()
        .filter(|i| matches!(i.data, InstructionData::AddVertex(_)))
        .count()
}

fn count_faces(l: &InstructionList) -> usize {
    l.instructions
        .iter()
        .filter(|i| matches!(i.data, InstructionData::AddFace(_)))
        .count()
}

#[test]
fn cube_expands_to_eight_vertices_six_faces() {
    let half = Vec3Bits { x: 1.0f32.to_bits(), y: 1.0f32.to_bits(), z: 1.0f32.to_bits() };
    let out = post_process(list(vec![instr(InstructionData::Cube(Cube { half_dim: half }))]));
    assert_eq!(count_vertices(&out), 8);
    assert_eq!(count_faces(&out), 6);
    assert!(out.errors.is_empty());

    // The corner order is fixed: near face clockwise from (+x, +y, -z),
    // then the far face.
    let one = 1.0f32.to_bits();
    let neg = (-1.0f32).to_bits();
    let expected = [
        (one, one, neg),
        (one, neg, neg),
        (neg, neg, neg),
        (neg, one, neg),
        (one, one, one),
        (one, neg, one),
        (neg, neg, one),
        (neg, one, one),
    ];
    let vertices: Vec<&Instruction> = out
        .instructions
        .iter()
        .filter(|i| matches!(i.data, InstructionData::AddVertex(_)))
        .collect();
    for (v, e) in vertices.iter().zip(expected.iter()) {
        if let InstructionData::AddVertex(av) = &v.data {
            assert_eq!((av.position.x, av.position.y, av.position.z), *e);
            assert_eq!(v.span.line, Some(7));
        } else {
            unreachable!();
        }
    }

    // The first face references the first four corners in order.
    let faces: Vec<&Instruction> = out
        .instructions
        .iter()
        .filter(|i| matches!(i.data, InstructionData::AddFace(_)))
        .collect();
    if let InstructionData::AddFace(f) = &faces[0].data {
        assert_eq!(f.indexes, vec![0, 1, 2, 3]);
    } else {
        unreachable!();
    }
}

#[test]
fn cylinder_counts() {
    let cyl = Cylinder {
        sides: 8,
        upper_radius: 1.0f32.to_bits(),
        lower_radius: 1.0f32.to_bits(),
        height: 2.0f32.to_bits(),
    };
    let out = post_process(list(vec![instr(InstructionData::Cylinder(cyl))]));
    assert_eq!(count_vertices(&out), 16);
    assert_eq!(count_faces(&out), 14);
    assert!(out.errors.is_empty());
}

#[test]
fn texture_coordinates_fold_into_vertex() {
    let tc = SetTextureCoordinates {
        index: 1,
        coords: Vec2Bits { x: 0.5f32.to_bits(), y: 0.25f32.to_bits() },
    };
    let out = post_process(list(vec![
        vertex(0.0, 0.0, 0.0),
        vertex(1.0, 0.0, 0.0),
        instr(InstructionData::SetTextureCoordinates(tc)),
    ]));
    assert!(out.errors.is_empty());
    // No coordinate instruction survives.
    assert!(!out
        .instructions
        .iter()
        .any(|i| matches!(i.data, InstructionData::SetTextureCoordinates(_))));
    let vertices: Vec<&Instruction> = out
        .instructions
        .iter()
        .filter(|i| matches!(i.data, InstructionData::AddVertex(_)))
        .collect();
    assert_eq!(vertices.len(), 2);
    if let InstructionData::AddVertex(av) = &vertices[1].data {
        assert_eq!(av.texture_coord.x, 0.5f32.to_bits());
        assert_eq!(av.texture_coord.y, 0.25f32.to_bits());
    } else {
        unreachable!();
    }
    if let InstructionData::AddVertex(av) = &vertices[0].data {
        assert_eq!(av.texture_coord.x, 0);
    } else {
        unreachable!();
    }
}

#[test]
fn texture_coordinates_out_of_bounds() {
    let tc = SetTextureCoordinates { index: 5, coords: Vec2Bits { x: 0, y: 0 } };
    let out = post_process(list(vec![
        vertex(0.0, 0.0, 0.0),
        instr(InstructionData::SetTextureCoordinates(tc)),
    ]));
    // Exactly one out-of-bounds diagnostic; the instruction vanishes.
    assert_eq!(out.errors.len(), 1);
    assert!(!out
        .instructions
        .iter()
        .any(|i| matches!(i.data, InstructionData::SetTextureCoordinates(_))));
}

#[test]
fn texture_coordinate_indices_are_segment_scoped() {
    // Two meshes may each use index zero for their own first vertex.
    let tc0 = SetTextureCoordinates { index: 0, coords: Vec2Bits { x: 1, y: 2 } };
    let tc1 = SetTextureCoordinates { index: 0, coords: Vec2Bits { x: 3, y: 4 } };
    let out = post_process(list(vec![
        vertex(0.0, 0.0, 0.0),
        instr(InstructionData::SetTextureCoordinates(tc0)),
        instr(InstructionData::CreateMeshBuilder(bve::mesh::types::CreateMeshBuilder)),
        vertex(1.0, 0.0, 0.0),
        instr(InstructionData::SetTextureCoordinates(tc1)),
    ]));
    assert!(out.errors.is_empty(), "{:?}", out.errors);
    let vertices: Vec<&Instruction> = out
        .instructions
        .iter()
        .filter(|i| matches!(i.data, InstructionData::AddVertex(_)))
        .collect();
    assert_eq!(vertices.len(), 2);
    if let InstructionData::AddVertex(av) = &vertices[0].data {
        assert_eq!((av.texture_coord.x, av.texture_coord.y), (1, 2));
    } else {
        unreachable!();
    }
    if let InstructionData::AddVertex(av) = &vertices[1].data {
        assert_eq!((av.texture_coord.x, av.texture_coord.y), (3, 4));
    } else {
        unreachable!();
    }
}

#[test]
fn no_compound_instruction_survives() {
    let half = Vec3Bits { x: 1.0f32.to_bits(), y: 2.0f32.to_bits(), z: 3.0f32.to_bits() };
    let cyl = Cylinder {
        sides: 6,
        upper_radius: 1.0f32.to_bits(),
        lower_radius: 2.0f32.to_bits(),
        height: 4.0f32.to_bits(),
    };
    let tc = SetTextureCoordinates { index: 0, coords: Vec2Bits { x: 0, y: 0 } };
    let out = post_process(list(vec![
        instr(InstructionData::Cube(Cube { half_dim: half })),
        instr(InstructionData::CreateMeshBuilder(bve::mesh::types::CreateMeshBuilder)),
        instr(InstructionData::Cylinder(cyl)),
        vertex(0.0, 0.0, 0.0),
        instr(InstructionData::SetTextureCoordinates(tc)),
    ]));
    for i in &out.instructions {
        assert!(!matches!(i.data, InstructionData::Cube(_)));
        assert!(!matches!(i.data, InstructionData::Cylinder(_)));
        assert!(!matches!(i.data, InstructionData::SetTextureCoordinates(_)));
    }
}
