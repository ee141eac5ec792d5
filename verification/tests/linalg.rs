use boson_rust::fixed::SCALE;
use boson_rust::linalg::Mat4x4;
use boson_rust::linalg::Vec3;
use boson_rust::linalg::check_inside;
use boson_rust::linalg::get_rotx;
use boson_rust::linalg::get_roty;
use boson_rust::linalg::get_rotz;

fn fx(v: f64) -> i64 {
    (v * SCALE as f64) as i64
}

#[test]
fn linalg_vec4_add() {
    let v0 = Vec3 { data: [0; 3] };
    let v1 = Vec3 {
        data: [fx(0.0), fx(1.0), fx(2.0)],
    };
    assert_eq!(v0.add(v1), v1);
}

#[test]
fn linalg_mat4x4_vec4_mul() {
    let v0 = Vec3 {
        data: [fx(1.0), fx(0.0), fx(0.0)],
    };
    let mat = Mat4x4 {
        data: [
            [fx(1.0), 0, 0, 0],
            [0, fx(1.0), 0, 0],
            [0, 0, fx(1.0), fx(2.0)],
            [0, 0, 0, fx(1.0)],
        ],
    };
    assert_eq!(
        Mat4x4::identity().mul(mat).mul_vec(v0),
        Vec3 {
            data: [fx(1.0), fx(0.0), fx(2.0)]
        }
    );
}

#[test]
fn linalg_vec4_mag() {
    let v0 = Vec3 {
        data: [fx(3.0), fx(4.0), fx(0.0)],
    };
    assert_eq!(v0.get_magnitude(), fx(5.0));
}

#[test]
fn linalg_checkinside() {
    let v0 = Vec3 { data: [0; 3] };
    let v1 = Vec3 {
        data: [fx(3.0), 0, 0],
    };
    let v2 = Vec3 {
        data: [0, fx(4.0), 0],
    };
    let p = Vec3 {
        data: [fx(0.5), fx(0.5), 0],
    };
    assert!(check_inside(&v0, &v1, &v2, &p));
}

#[test]
fn linalg_rot_mat() {
    let pi = std::f64::consts::PI;
    let s = fx(pi.sin());
    let c = fx(pi.cos());
    let v0 = Vec3 {
        data: [fx(1.0), 0, 0],
    };
    let v1 = get_rotx(s, c).mul(get_roty(s, c)).mul(get_rotz(s, c)).mul_vec(v0);
    assert_eq!(v0.get_magnitude(), v1.get_magnitude());
}

#[test]
fn identity_matrix_on_vector() {
    let samples = [
        Vec3 { data: [0; 3] },
        Vec3 {
            data: [fx(1.0), fx(-2.5), fx(31.0)],
        },
        Vec3 {
            data: [-7, 13, -65537],
        },
    ];
    for v in samples {
        assert_eq!(Mat4x4::identity().mul_vec(v), v);
    }
}

#[test]
fn identity_matrix_on_matrix() {
    let m = Mat4x4 {
        data: [
            [fx(2.0), fx(-1.0), 0, fx(3.0)],
            [fx(0.5), fx(1.0), fx(4.0), 0],
            [0, fx(-0.25), fx(1.0), fx(-2.0)],
            [0, 0, 0, fx(1.0)],
        ],
    };
    assert_eq!(Mat4x4::identity().mul(m), m);
}

#[test]
fn unit_vector_magnitude() {
    let v = Vec3 {
        data: [fx(3.0), fx(4.0), fx(0.0)],
    };
    let m = v.get_unit().get_magnitude();
    assert!((m - SCALE).abs() <= 1);
    let w = Vec3 {
        data: [fx(1.0), 0, 0],
    };
    assert_eq!(w.get_unit().get_magnitude(), SCALE);
}

#[test]
fn rotation_preserves_length_scenarios() {
    let v0 = Vec3 {
        data: [fx(1.0), 0, 0],
    };
    let angle_sets: [[f64; 3]; 3] = [[0.5, 1.1, 2.3], [0.1, 0.2, 0.3], [1.0, 0.0, -2.0]];
    for angles in angle_sets {
        let rx = get_rotx(fx(angles[0].sin()), fx(angles[0].cos()));
        let ry = get_roty(fx(angles[1].sin()), fx(angles[1].cos()));
        let rz = get_rotz(fx(angles[2].sin()), fx(angles[2].cos()));
        let v1 = rx.mul(ry).mul(rz).mul_vec(v0);
        assert!((v1.get_magnitude() - v0.get_magnitude()).abs() <= 4);
    }
}

#[test]
fn checkinside_exterior() {
    let v0 = Vec3 { data: [0; 3] };
    let v1 = Vec3 {
        data: [fx(3.0), 0, 0],
    };
    let v2 = Vec3 {
        data: [0, fx(4.0), 0],
    };
    let p = Vec3 {
        data: [fx(10.0), fx(10.0), 0],
    };
    assert!(!check_inside(&v0, &v1, &v2, &p));
}

#[test]
fn checkinside_corner_is_permissive() {
    let v0 = Vec3 { data: [0; 3] };
    let v1 = Vec3 {
        data: [fx(3.0), 0, 0],
    };
    let v2 = Vec3 {
        data: [0, fx(4.0), 0],
    };
    assert!(check_inside(&v0, &v1, &v2, &v0));
}

#[test]
fn cross_of_axes() {
    let x = Vec3 {
        data: [fx(1.0), 0, 0],
    };
    let y = Vec3 {
        data: [0, fx(1.0), 0],
    };
    assert_eq!(
        x.cross(&y),
        Vec3 {
            data: [0, 0, fx(1.0)]
        }
    );
}

#[test]
fn dot_products() {
    let x = Vec3 {
        data: [fx(1.0), 0, 0],
    };
    let y = Vec3 {
        data: [0, fx(1.0), 0],
    };
    assert_eq!(x.dot(&y), 0);
    assert_eq!(x.dot(&x), fx(1.0));
}

#[test]
fn vector_scale_and_div() {
    let v = Vec3 {
        data: [fx(3.0), fx(-2.0), 0],
    };
    assert_eq!(
        v.scale(fx(0.5)),
        Vec3 {
            data: [fx(1.5), fx(-1.0), 0]
        }
    );
    assert_eq!(
        v.div(fx(2.0)),
        Vec3 {
            data: [fx(1.5), fx(-1.0), 0]
        }
    );
}

#[test]
fn vector_sub() {
    let a = Vec3 {
        data: [fx(3.0), fx(1.0), fx(-1.0)],
    };
    let b = Vec3 {
        data: [fx(1.0), fx(1.0), fx(1.0)],
    };
    assert_eq!(
        a.sub(b),
        Vec3 {
            data: [fx(2.0), 0, fx(-2.0)]
        }
    );
}

#[test]
fn matrix_add_scale_div() {
    let m = Mat4x4 {
        data: [
            [fx(1.0), 0, 0, 0],
            [0, fx(1.0), 0, 0],
            [0, 0, fx(1.0), 0],
            [0, 0, 0, fx(1.0)],
        ],
    };
    let sum = m.add(m);
    assert_eq!(sum.data[0][0], fx(2.0));
    assert_eq!(sum.data[0][1], 0);
    assert_eq!(m.scale(fx(2.0)).data[2][2], fx(2.0));
    assert_eq!(m.div(fx(2.0)).data[2][2], fx(0.5));
}

#[test]
fn rotation_matrix_entries() {
    let r = get_rotx(0, -SCALE);
    assert_eq!(
        r.data,
        [
            [SCALE, 0, 0, 0],
            [0, -SCALE, 0, 0],
            [0, 0, -SCALE, 0],
            [0, 0, 0, SCALE],
        ]
    );
    let half_turn = get_rotz(fx(1.0), 0);
    assert_eq!(half_turn.data[0][1], fx(-1.0));
    assert_eq!(half_turn.data[1][0], fx(1.0));
}
