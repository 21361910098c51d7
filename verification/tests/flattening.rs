use scenemesh::flatten::{flatten, GlobalMeshBuffer};
use scenemesh::material::{ColorKey, MaterialTable};
use scenemesh::mesh::Tri;
use scenemesh::scene::{resolve_shape, Rgb, SceneNode, ShapeKind};

fn part(tag: usize, color: Option<Rgb>, alpha: u8, children: Vec<SceneNode>) -> SceneNode {
    SceneNode {
        class: String::from("Part"),
        shape: None,
        color,
        alpha,
        tag,
        children,
    }
}

fn assert_indices_below(buf: &GlobalMeshBuffer) {
    for c in &buf.chunks {
        for t in &c.faces {
            assert!(t.a < buf.vertex_count && t.b < buf.vertex_count && t.c < buf.vertex_count);
        }
    }
}

#[test]
fn resolve_shape_dispatch() {
    assert_eq!(
        resolve_shape(&String::from("Part"), &None),
        Some(ShapeKind::Block)
    );
    assert_eq!(
        resolve_shape(&String::from("Part"), &Some(0)),
        Some(ShapeKind::Ball)
    );
    assert_eq!(
        resolve_shape(&String::from("Part"), &Some(1)),
        Some(ShapeKind::Block)
    );
    assert_eq!(
        resolve_shape(&String::from("Part"), &Some(2)),
        Some(ShapeKind::Cylinder)
    );
    // an unrecognized selector falls back to the block
    assert_eq!(
        resolve_shape(&String::from("Part"), &Some(7)),
        Some(ShapeKind::Block)
    );
    assert_eq!(
        resolve_shape(&String::from("WedgePart"), &None),
        Some(ShapeKind::Wedge)
    );
    assert_eq!(
        resolve_shape(&String::from("CornerWedgePart"), &None),
        Some(ShapeKind::CornerWedge)
    );
    assert_eq!(resolve_shape(&String::from("Model"), &None), None);
}

#[test]
fn single_box_scene() {
    // one box of size (2,2,2) at the origin with default color and opacity:
    // 8 vertices, 12 faces, one white fully opaque material
    let roots = vec![part(0, None, 255, vec![])];
    let (buf, mats) = flatten(&roots).unwrap();
    assert_eq!(buf.chunks.len(), 1);
    assert_eq!(buf.vertex_count, 8);
    assert_eq!(buf.chunks[0].rules.len(), 8);
    assert_eq!(buf.chunks[0].faces.len(), 12);
    assert_eq!(buf.chunks[0].first_vertex, 0);
    assert_eq!(buf.chunks[0].material, 0);
    assert_eq!(buf.chunks[0].tag, 0);
    assert_eq!(mats.keys.len(), 1);
    assert_eq!(mats.keys[0], ColorKey { r: 255, g: 255, b: 255, a: 255 });
    assert_indices_below(&buf);
}

#[test]
fn two_sibling_boxes_share_material() {
    let roots = vec![part(0, None, 255, vec![]), part(1, None, 255, vec![])];
    let (buf, mats) = flatten(&roots).unwrap();
    assert_eq!(buf.chunks.len(), 2);
    assert_eq!(buf.vertex_count, 16);
    assert_eq!(buf.chunks[0].faces.len() + buf.chunks[1].faces.len(), 24);
    assert_eq!(mats.keys.len(), 1);
    assert_eq!(buf.chunks[0].material, buf.chunks[1].material);
    // the second chunk's triangles are offset by the first chunk's vertices
    assert_eq!(buf.chunks[1].first_vertex, 8);
    assert_eq!(buf.chunks[1].faces[0], Tri { a: 8, b: 10, c: 9 });
    assert_indices_below(&buf);
}

#[test]
fn unrecognized_class_still_traversed() {
    // an unrecognized instance produces no geometry but its children do
    let child = part(5, None, 255, vec![]);
    let roots = vec![SceneNode {
        class: String::from("Model"),
        shape: None,
        color: None,
        alpha: 255,
        tag: 0,
        children: vec![child],
    }];
    let (buf, mats) = flatten(&roots).unwrap();
    assert_eq!(buf.chunks.len(), 1);
    assert_eq!(buf.chunks[0].tag, 5);
    assert_eq!(buf.vertex_count, 8);
    assert_eq!(mats.keys.len(), 1);
}

#[test]
fn mixed_shapes_offsets() {
    // a ball, then a box child under it: 162 + 8 vertices
    let child = part(1, None, 255, vec![]);
    let ball = SceneNode {
        class: String::from("Part"),
        shape: Some(0),
        color: None,
        alpha: 255,
        tag: 0,
        children: vec![child],
    };
    let (buf, _) = flatten(&vec![ball]).unwrap();
    assert_eq!(buf.chunks.len(), 2);
    assert_eq!(buf.chunks[0].rules.len(), 162);
    assert_eq!(buf.chunks[0].faces.len(), 320);
    assert_eq!(buf.chunks[1].first_vertex, 162);
    assert_eq!(buf.vertex_count, 170);
    assert_indices_below(&buf);
}

#[test]
fn materials_differ_per_channel() {
    let red = Some(Rgb { r: 255, g: 0, b: 0 });
    let roots = vec![
        part(0, red, 255, vec![]),
        part(1, red, 255, vec![]),
        part(2, red, 128, vec![]),
        part(3, Some(Rgb { r: 254, g: 0, b: 0 }), 255, vec![]),
    ];
    let (buf, mats) = flatten(&roots).unwrap();
    // same color and opacity share one material, any differing channel
    // (alpha included) gets its own
    assert_eq!(mats.keys.len(), 3);
    assert_eq!(buf.chunks[0].material, 0);
    assert_eq!(buf.chunks[1].material, 0);
    assert_eq!(buf.chunks[2].material, 1);
    assert_eq!(buf.chunks[3].material, 2);
    assert_eq!(mats.keys[0], ColorKey { r: 255, g: 0, b: 0, a: 255 });
    assert_eq!(mats.keys[1], ColorKey { r: 255, g: 0, b: 0, a: 128 });
    assert_eq!(mats.keys[2], ColorKey { r: 254, g: 0, b: 0, a: 255 });
}

#[test]
fn material_table_dedup() {
    let mut mats = MaterialTable::new();
    let white = ColorKey { r: 255, g: 255, b: 255, a: 255 };
    let red = ColorKey { r: 255, g: 0, b: 0, a: 255 };
    assert_eq!(mats.material_for(white), 0);
    assert_eq!(mats.material_for(red), 1);
    assert_eq!(mats.material_for(white), 0);
    assert_eq!(mats.material_for(red), 1);
    assert_eq!(mats.keys.len(), 2);
}

#[test]
fn wedge_and_cylinder_in_scene() {
    let wedge = SceneNode {
        class: String::from("WedgePart"),
        shape: None,
        color: None,
        alpha: 255,
        tag: 0,
        children: vec![],
    };
    let cyl = SceneNode {
        class: String::from("Part"),
        shape: Some(2),
        color: None,
        alpha: 255,
        tag: 1,
        children: vec![],
    };
    let (buf, _) = flatten(&vec![wedge, cyl]).unwrap();
    assert_eq!(buf.chunks[0].rules.len(), 6);
    assert_eq!(buf.chunks[0].faces.len(), 8);
    assert_eq!(buf.chunks[1].rules.len(), 50);
    assert_eq!(buf.chunks[1].faces.len(), 96);
    assert_eq!(buf.vertex_count, 56);
    assert_indices_below(&buf);
}
