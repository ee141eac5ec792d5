use boson_rust::engine::BACKGROUND;
use boson_rust::engine::BosonEngine;
use boson_rust::engine::LUMA_INDEX;
use boson_rust::engine::Object3D;
use boson_rust::engine::get_luma;
use boson_rust::fixed::SCALE;
use boson_rust::linalg::Mat4x4;
use boson_rust::linalg::Vec3;

fn fx(v: f64) -> i64 {
    (v * SCALE as f64) as i64
}

fn tetrahedron_engine() -> BosonEngine<30, 30> {
    let vertices = vec![
        Vec3 {
            data: [fx(1.0), 0, 0],
        },
        Vec3 {
            data: [0, fx(1.0), 0],
        },
        Vec3 {
            data: [0, 0, fx(1.0)],
        },
        Vec3 { data: [0; 3] },
    ];
    let objects = vec![Object3D {
        mesh: vec![[0, 1, 2], [0, 1, 3], [0, 2, 3], [1, 2, 3]],
        model_matrix: Mat4x4::identity(),
    }];
    BosonEngine::new(vertices, objects, Mat4x4::identity())
}

#[test]
fn traversal_miss_leaves_background() {
    let mut engine: BosonEngine<8, 8> =
        BosonEngine::new(Vec::new(), Vec::new(), Mat4x4::identity());
    engine.raytrace();
    assert_eq!(engine.ibuffer.len(), 8);
    for row in &engine.ibuffer {
        assert_eq!(row.len(), 8);
        for &cell in row {
            assert_eq!(cell, BACKGROUND);
        }
    }
}

#[test]
fn end_to_end_scene() {
    let mut engine = tetrahedron_engine();
    engine.raytrace();
    let center = engine.ibuffer[15][15];
    assert!(center >= 0);
    assert!(center <= SCALE);
    assert_eq!(center, fx(0.5));
    for (i, j) in [(0usize, 0usize), (0, 29), (29, 0), (29, 29)] {
        assert_eq!(engine.ibuffer[i][j], BACKGROUND);
    }
}

#[test]
fn fresh_buffer_is_background() {
    let engine: BosonEngine<3, 5> = BosonEngine::new(Vec::new(), Vec::new(), Mat4x4::identity());
    assert_eq!(engine.ibuffer.len(), 5);
    for row in &engine.ibuffer {
        assert_eq!(row.len(), 3);
        for &cell in row {
            assert_eq!(cell, BACKGROUND);
        }
    }
}

#[test]
fn luma_blank_below_zero() {
    assert_eq!(get_luma(-1), ' ');
    assert_eq!(get_luma(BACKGROUND), ' ');
}

#[test]
fn luma_exact_glyphs() {
    assert_eq!(get_luma(0), '$');
    assert_eq!(get_luma(fx(0.5)), 'n');
    assert_eq!(get_luma(SCALE), '.');
    assert_eq!(get_luma(SCALE + 1), '.');
}

#[test]
fn luma_monotonic_samples() {
    let mut last: usize = 0;
    let mut b: i64 = 0;
    while b <= SCALE {
        let c = get_luma(b);
        let pos = LUMA_INDEX.find(c).expect("glyph comes from the ramp");
        assert!(pos >= last);
        last = pos;
        b += 1000;
    }
}

#[test]
fn display_renders_glyph_rows() {
    let mut engine: BosonEngine<2, 2> =
        BosonEngine::new(Vec::new(), Vec::new(), Mat4x4::identity());
    let rows = engine.display();
    assert_eq!(rows.len(), 2);
    for row in &rows {
        assert_eq!(row, &vec![' ', ' ']);
    }
    engine.ibuffer[0][0] = 0;
    engine.ibuffer[1][1] = SCALE;
    let rows = engine.display();
    assert_eq!(rows[0], vec!['$', ' ']);
    assert_eq!(rows[1], vec![' ', '.']);
}

#[test]
fn display_of_scene_hits_center() {
    let mut engine = tetrahedron_engine();
    engine.raytrace();
    let rows = engine.display();
    assert_eq!(rows.len(), 30);
    assert_eq!(rows[15].len(), 30);
    assert_eq!(rows[15][15], 'n');
    assert_eq!(rows[0][0], ' ');
}

/// A translated object is seen through `view * model`: rays toward it
/// report the shifted surface (the wide containment tolerance accepts a
/// distant triangle seen under a small angle), rays away from it miss.
#[test]
fn translated_object_moves_with_its_transform() {
    let vertices = vec![
        Vec3 {
            data: [fx(1.0), 0, 0],
        },
        Vec3 {
            data: [0, fx(1.0), 0],
        },
        Vec3 {
            data: [0, 0, fx(1.0)],
        },
        Vec3 { data: [0; 3] },
    ];
    let objects = vec![Object3D {
        mesh: vec![[0, 1, 2], [0, 1, 3], [0, 2, 3], [1, 2, 3]],
        model_matrix: Mat4x4 {
            data: [
                [fx(1.0), 0, 0, 0],
                [0, fx(1.0), 0, 0],
                [0, 0, fx(1.0), fx(10.0)],
                [0, 0, 0, fx(1.0)],
            ],
        },
    }];
    let mut engine: BosonEngine<10, 10> = BosonEngine::new(vertices, objects, Mat4x4::identity());
    engine.raytrace();
    assert_eq!(engine.ibuffer[5][5], 55938);
    assert_eq!(engine.ibuffer[0][0], BACKGROUND);
    for row in &engine.ibuffer {
        for &cell in row {
            assert!(cell == 55938 || cell == BACKGROUND);
        }
    }
}
