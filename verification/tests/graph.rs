use std::rc::Rc;
use three_d_asset::color::Color;
use three_d_asset::{Model, PbrMaterial, Scene, TriMesh};

fn material(id: u64, name: &str) -> Rc<PbrMaterial> {
    Rc::new(PbrMaterial {
        id,
        name: name.to_string(),
        albedo: Color::new_opaque(255, 0, 0),
    })
}

fn entry(name: &str, material: Option<&Rc<PbrMaterial>>) -> TriMesh {
    TriMesh {
        name: name.to_string(),
        material: material.map(Rc::clone),
    }
}

#[test]
fn dedup_order_and_uniqueness() {
    let mat_a = material(1, "A");
    let mat_b = material(2, "B");
    let model = Model {
        name: "m".to_string(),
        geometries: vec![
            entry("e1", Some(&mat_a)),
            entry("e2", Some(&mat_b)),
            entry("e3", Some(&mat_a)),
            entry("e4", None),
        ],
    };
    let mats = model.materials();
    assert_eq!(mats.len(), 2);
    assert!(Rc::ptr_eq(&mats[0], &mat_a));
    assert!(Rc::ptr_eq(&mats[1], &mat_b));
}

#[test]
fn dedup_identity_vs_equality() {
    // Two materials with identical field values but distinct identities must
    // both be kept.
    let first = material(1, "same");
    let second = material(2, "same");
    assert_eq!(first.name, second.name);
    assert_eq!(first.albedo, second.albedo);
    let model = Model {
        name: "m".to_string(),
        geometries: vec![entry("e1", Some(&first)), entry("e2", Some(&second))],
    };
    let mats = model.materials();
    assert_eq!(mats.len(), 2);
    assert!(Rc::ptr_eq(&mats[0], &first));
    assert!(Rc::ptr_eq(&mats[1], &second));
}

#[test]
fn empty_model_has_no_materials() {
    let model = Model {
        name: "m".to_string(),
        geometries: vec![entry("e1", None)],
    };
    assert!(model.materials().is_empty());
    let bare = Model {
        name: "bare".to_string(),
        geometries: vec![],
    };
    assert!(bare.materials().is_empty());
}

#[test]
fn scene_flattening() {
    // Two models with overlapping and disjoint materials: the scene returns
    // the union of distinct instances, ordered by model order, then by entry
    // order within each model.
    let mat_a = material(1, "A");
    let mat_b = material(2, "B");
    let mat_c = material(3, "C");
    let first = Model {
        name: "first".to_string(),
        geometries: vec![
            entry("e1", Some(&mat_a)),
            entry("e2", Some(&mat_b)),
        ],
    };
    let second = Model {
        name: "second".to_string(),
        geometries: vec![
            entry("e3", Some(&mat_b)),
            entry("e4", Some(&mat_c)),
            entry("e5", None),
            entry("e6", Some(&mat_a)),
        ],
    };
    let scene = Scene {
        animations: vec![],
        models: vec![first, second],
    };
    let mats = scene.materials();
    assert_eq!(mats.len(), 3);
    assert!(Rc::ptr_eq(&mats[0], &mat_a));
    assert!(Rc::ptr_eq(&mats[1], &mat_b));
    assert!(Rc::ptr_eq(&mats[2], &mat_c));
}

#[test]
fn model_materials_share_ownership() {
    let mat_a = material(7, "A");
    let model = Model {
        name: "m".to_string(),
        geometries: vec![entry("e1", Some(&mat_a))],
    };
    let mats = model.materials();
    // The query hands back handles to the same instances, not copies.
    assert_eq!(Rc::strong_count(&mat_a), 3);
    drop(model);
    drop(mats);
    assert_eq!(Rc::strong_count(&mat_a), 1);
}
