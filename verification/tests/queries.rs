use meshprox::model::ModelBuilder;
use meshprox::queries::{collide, distance, distance_points, DistanceOptions};
use meshprox::ratio::Ratio;
use meshprox::rot::Rotation;
use meshprox::vec3::Vec3;
use meshprox::Model;

fn v(x: i64, y: i64, z: i64) -> Vec3 {
    Vec3::new(x, y, z)
}

fn make_model(coords: &[Vec3]) -> Model {
    let mut mb = ModelBuilder::default();
    let mut i = 0;
    while i + 3 <= coords.len() {
        mb.add_triangle(coords[i], coords[i + 1], coords[i + 2]);
        i += 3;
    }
    mb.build()
}

fn model_a() -> Model {
    make_model(&[v(10, 0, 0), v(0, 0, 1), v(0, 0, -1)])
}

fn rot_z_quarter() -> Rotation {
    Rotation::new(v(0, -1, 0), v(1, 0, 0), v(0, 0, 1), 1).unwrap()
}

fn rot_z_345() -> Rotation {
    Rotation::new(v(3, -4, 0), v(4, 3, 0), v(0, 0, 5), 5).unwrap()
}

fn rot_z_345_neg() -> Rotation {
    Rotation::new(v(3, 4, 0), v(-4, 3, 0), v(0, 0, 5), 5).unwrap()
}

fn ratio_f64(r: &Ratio) -> f64 {
    r.num as f64 / r.den as f64
}

fn close(x: f64, expect: f64, tol: f64) {
    assert!((x - expect).abs() < tol, "{} vs {}", x, expect);
}

#[test]
fn trivial_collision() {
    let model_a = model_a();
    let model_b = make_model(&[v(5, -10, -10), v(5, -10, 10), v(5, 10, 0)]);

    let rotation_none = Rotation::identity();
    let translation = v(0, 0, 0);

    assert!(collide(
        &model_a,
        &rotation_none,
        &translation,
        &model_b,
        &rotation_none,
        &translation
    ));

    assert!(!collide(
        &model_a,
        &rot_z_quarter(),
        &translation,
        &model_b,
        &rotation_none,
        &translation
    ));
}

#[test]
fn rotation_orientates_correctly() {
    let model_a = model_a();
    let model_b = make_model(&[v(5, 1, -10), v(5, 1, 10), v(5, 10, 0)]);

    let rotation_none = Rotation::identity();
    let translation = v(0, 0, 0);

    assert!(!collide(
        &model_a,
        &rotation_none,
        &translation,
        &model_b,
        &rotation_none,
        &translation
    ));

    assert!(collide(
        &model_a,
        &rot_z_345(),
        &translation,
        &model_b,
        &rotation_none,
        &translation
    ));

    assert!(!collide(
        &model_a,
        &rot_z_345_neg(),
        &translation,
        &model_b,
        &rotation_none,
        &translation
    ));
}

#[test]
fn translation_moves_correctly() {
    let model_a = model_a();
    let model_b = make_model(&[v(5, 1, -10), v(5, 1, 10), v(5, 10, 0)]);

    let rotation_none = Rotation::identity();
    let translation_none = v(0, 0, 0);

    assert!(!collide(
        &model_a,
        &rotation_none,
        &translation_none,
        &model_b,
        &rotation_none,
        &translation_none
    ));

    assert!(collide(
        &model_a,
        &rotation_none,
        &v(0, 2, 0),
        &model_b,
        &rotation_none,
        &translation_none
    ));

    assert!(collide(
        &model_a,
        &rotation_none,
        &v(0, 5, 0),
        &model_b,
        &rotation_none,
        &translation_none
    ));

    assert!(!collide(
        &model_a,
        &rotation_none,
        &v(0, 12, 0),
        &model_b,
        &rotation_none,
        &translation_none
    ));
}

#[test]
fn trivial_distance() {
    let model_a = model_a();
    let model_b = make_model(&[v(5, -10, -10), v(5, -10, 10), v(5, 10, 0)]);

    let rotation_none = Rotation::identity();
    let translation = v(0, 0, 0);

    assert!(distance(
        &model_a,
        &rotation_none,
        &translation,
        &model_b,
        &rotation_none,
        &translation,
        &DistanceOptions::default(),
    )
    .is_none());

    let d2 = distance(
        &model_a,
        &rot_z_quarter(),
        &translation,
        &model_b,
        &rotation_none,
        &translation,
        &DistanceOptions::default(),
    )
    .unwrap();
    close(ratio_f64(&d2).sqrt(), 5.0, 0.001);
}

#[test]
fn distance_is_right_with_translation() {
    let model_a = model_a();
    let model_b = make_model(&[v(5, 1, -10), v(5, 1, 10), v(5, 10, 0)]);

    let rotation_none = Rotation::identity();
    let translation_none = v(0, 0, 0);

    let d2 = distance(
        &model_a,
        &rotation_none,
        &translation_none,
        &model_b,
        &rotation_none,
        &translation_none,
        &DistanceOptions::default(),
    )
    .unwrap();
    close(ratio_f64(&d2).sqrt(), 1.0, 0.001);

    assert!(distance(
        &model_a,
        &rotation_none,
        &v(0, 2, 0),
        &model_b,
        &rotation_none,
        &translation_none,
        &DistanceOptions::default(),
    )
    .is_none());

    assert!(distance(
        &model_a,
        &rotation_none,
        &v(0, 5, 0),
        &model_b,
        &rotation_none,
        &translation_none,
        &DistanceOptions::default(),
    )
    .is_none());

    let d2 = distance(
        &model_a,
        &rotation_none,
        &v(0, 12, 0),
        &model_b,
        &rotation_none,
        &translation_none,
        &DistanceOptions::default(),
    )
    .unwrap();
    close(ratio_f64(&d2).sqrt(), 2.0, 0.001);
}

#[test]
fn collide_and_distance_are_symmetric() {
    let model_a = model_a();
    let model_b = make_model(&[v(5, 1, -10), v(5, 1, 10), v(5, 10, 0)]);
    let rotation_none = Rotation::identity();
    let t0 = v(0, 0, 0);
    let opts = DistanceOptions::default();

    assert_eq!(
        collide(&model_a, &rotation_none, &t0, &model_b, &rotation_none, &t0),
        collide(&model_b, &rotation_none, &t0, &model_a, &rotation_none, &t0)
    );
    let dab = distance(&model_a, &rotation_none, &t0, &model_b, &rotation_none, &t0, &opts)
        .unwrap();
    let dba = distance(&model_b, &rotation_none, &t0, &model_a, &rotation_none, &t0, &opts)
        .unwrap();
    close(ratio_f64(&dab), ratio_f64(&dba), 1e-9);
}

#[test]
fn distance_points_reports_witnesses() {
    let model_a = model_a();
    let model_b = make_model(&[v(5, 1, -10), v(5, 1, 10), v(5, 10, 0)]);
    let rotation_none = Rotation::identity();
    let pts = distance_points(
        &model_a,
        &rotation_none,
        &v(0, 12, 0),
        &model_b,
        &rotation_none,
        &v(0, 0, 0),
        &DistanceOptions::default(),
    )
    .unwrap();
    close(ratio_f64(&pts.distance).sqrt(), 2.0, 0.001);
    close(ratio_f64(&pts.point_a.x), 5.0, 1e-9);
    close(ratio_f64(&pts.point_a.y), 12.0, 1e-9);
    close(ratio_f64(&pts.point_a.z), 0.0, 1e-9);
    close(ratio_f64(&pts.point_b.x), 5.0, 1e-9);
    close(ratio_f64(&pts.point_b.y), 10.0, 1e-9);
    close(ratio_f64(&pts.point_b.z), 0.0, 1e-9);
}

#[test]
fn empty_models_collide_with_nothing() {
    let empty = ModelBuilder::new().build();
    let other = model_a();
    let r = Rotation::identity();
    let t = v(0, 0, 0);
    assert!(!collide(&empty, &r, &t, &other, &r, &t));
    assert!(distance(&empty, &r, &t, &other, &r, &t, &DistanceOptions::default()).is_none());
}

#[test]
fn rotation_constructor_checks_orthonormality() {
    assert!(Rotation::new(v(1, 0, 0), v(0, 1, 0), v(0, 0, 1), 1).is_some());
    assert!(Rotation::new(v(3, -4, 0), v(4, 3, 0), v(0, 0, 5), 5).is_some());
    // A reflection (determinant -1) must be rejected.
    assert!(Rotation::new(v(1, 0, 0), v(0, 1, 0), v(0, 0, -1), 1).is_none());
    // Rows of the wrong length must be rejected.
    assert!(Rotation::new(v(2, 0, 0), v(0, 1, 0), v(0, 0, 1), 1).is_none());
    // Denominators outside the accepted range must be rejected.
    assert!(Rotation::new(v(33, 0, 0), v(0, 33, 0), v(0, 0, 33), 33).is_none());
}

#[test]
fn touching_counts_as_collision() {
    // Two triangles sharing exactly one vertex.
    let a = make_model(&[v(0, 0, 0), v(1, 0, 0), v(0, 1, 0)]);
    let b = make_model(&[v(0, 0, 0), v(-1, 0, 0), v(0, -1, 0)]);
    let r = Rotation::identity();
    let t = v(0, 0, 0);
    assert!(collide(&a, &r, &t, &b, &r, &t));
    assert!(distance(&a, &r, &t, &b, &r, &t, &DistanceOptions::default()).is_none());
}

#[test]
fn distance_between_parallel_edges_is_exact() {
    // Parallel triangles three units apart: squared distance exactly 9.
    let a = make_model(&[v(0, 0, 0), v(4, 0, 0), v(0, 4, 0)]);
    let b = make_model(&[v(0, 0, 3), v(4, 0, 3), v(0, 4, 3)]);
    let r = Rotation::identity();
    let t = v(0, 0, 0);
    let d2 = distance(&a, &r, &t, &b, &r, &t, &DistanceOptions::default()).unwrap();
    assert_eq!(d2.num % d2.den, 0);
    assert_eq!(d2.num / d2.den, 9);
}

#[test]
fn multi_triangle_models_use_the_nearest_pair() {
    // Two triangles in each model; the closest pair is the second of each.
    let a = make_model(&[
        v(-40, 0, 0), v(-40, 4, 0), v(-40, 0, 4),
        v(0, 0, 0), v(0, 4, 0), v(0, 0, 4),
    ]);
    let b = make_model(&[
        v(45, 0, 0), v(45, 4, 0), v(45, 0, 4),
        v(7, 0, 0), v(7, 4, 0), v(7, 0, 4),
    ]);
    let r = Rotation::identity();
    let t = v(0, 0, 0);
    assert!(!collide(&a, &r, &t, &b, &r, &t));
    let d2 = distance(&a, &r, &t, &b, &r, &t, &DistanceOptions::default()).unwrap();
    close(ratio_f64(&d2).sqrt(), 7.0, 1e-9);
}
