use autonomousim::contact::{
    contact_class, needs_evaluation, rests, slides, ContactCache, ContactClass, Meeting, Support,
};
use autonomousim::dynamics::{
    is_free_root, joint_pivot, singular, DynamicsError, Integrator, JointType, LinkPass, MultibodyModel,
};
use autonomousim::frames::{bevy_to_enu_quat, bevy_to_enu_vec, enu_to_bevy_quat, enu_to_bevy_vec};
use autonomousim::geometry::{
    plane_crossing, HitKind, HitMask, NoObstacles, PlaneCrossing, RayHit, Region, TriangleTest,
};
use autonomousim::ieee;
use autonomousim::linalg::{exchange, pivot_row, spd_pivot, DenseMatrix, NotPositiveDefinite, SingularMatrix};
use autonomousim::material::{Material, MaterialId, MaterialTable, Soil};
use autonomousim::spline::{check_table, interval, Interval, KcTableSpec, TableError};
use autonomousim::time::Clock;
use glam::DVec3;

fn bits(v: &[f64]) -> Vec<u64> {
    v.iter().map(|x| x.to_bits()).collect()
}

#[test]
fn masks() {
    let m = HitMask(HitMask::TERRAIN) | HitMask(HitMask::SOLID);
    assert!(m.contains(HitMask(HitMask::TERRAIN)));
    assert!(!m.contains(HitMask(HitMask::FOLIAGE)));
    assert!(m.intersects(HitMask::of(HitKind::Solid(3))));
    assert_eq!(m, HitMask(HitMask::COLLIDABLE));
}

#[test]
fn every_kind_has_its_own_class() {
    let kinds =
        [HitKind::Terrain, HitKind::Water, HitKind::Solid(1), HitKind::Foliage(2), HitKind::Agent(3)];
    for (i, a) in kinds.iter().enumerate() {
        assert!(HitMask(HitMask::ALL).contains(HitMask::of(*a)));
        for (j, b) in kinds.iter().enumerate() {
            assert_eq!(HitMask::of(*a).intersects(HitMask::of(*b)), i == j);
        }
    }
    assert!(!HitMask(HitMask::NONE).intersects(HitMask(HitMask::ALL)));
}

#[test]
fn the_closest_hit_wins_in_any_order() {
    let hit = |t: f64, i| Some(RayHit { toi: t.to_bits(), kind: HitKind::Solid(i), material: 1 });
    let (a, b, c) = (hit(2.0, 0), hit(1.5, 1), hit(1.5, 2));
    assert_eq!(RayHit::closest(a, b), b);
    assert_eq!(RayHit::closest(b, c), b);
    assert_eq!(RayHit::closest(RayHit::closest(a, b), c), RayHit::closest(a, RayHit::closest(b, c)));
    assert_eq!(RayHit::closest(None, a), a);
    assert_eq!(RayHit::closest(a, None), a);
    assert!(NoObstacles.raycast(HitMask(HitMask::ALL)).is_none());
    let mut out = vec![7];
    NoObstacles.query_candidates(HitMask(HitMask::ALL), &mut out);
    assert_eq!(out, [7]);
}

fn closest_point_on_triangle(p: DVec3, a: DVec3, b: DVec3, c: DVec3) -> DVec3 {
    let (ab, ac) = (b - a, c - a);
    let (d1, d2) = (ab.dot(p - a), ac.dot(p - a));
    let (d3, d4) = (ab.dot(p - b), ac.dot(p - b));
    let (d5, d6) = (ab.dot(p - c), ac.dot(p - c));
    let (vc, vb, va) = (d1 * d4 - d3 * d2, d5 * d2 - d1 * d6, d3 * d6 - d5 * d4);
    let t = TriangleTest {
        ab_ap: d1.to_bits(),
        ac_ap: d2.to_bits(),
        ab_bp: d3.to_bits(),
        ac_bp: d4.to_bits(),
        ab_cp: d5.to_bits(),
        ac_cp: d6.to_bits(),
        va: va.to_bits(),
        vb: vb.to_bits(),
        vc: vc.to_bits(),
        from_b: (d4 - d3).to_bits(),
        from_c: (d5 - d6).to_bits(),
    };
    match t.region() {
        Region::A => a,
        Region::B => b,
        Region::C => c,
        Region::Ab => a + ab * (d1 / (d1 - d3)),
        Region::Ac => a + ac * (d2 / (d2 - d6)),
        Region::Bc => b + (c - b) * ((d4 - d3) / ((d4 - d3) + (d5 - d6))),
        Region::Face => {
            let denom = 1.0 / (va + vb + vc);
            a + ab * (vb * denom) + ac * (vc * denom)
        }
    }
}

#[test]
fn closest_point_regions() {
    let (a, b, c) = (DVec3::ZERO, DVec3::X, DVec3::Y);
    let cases = [
        (DVec3::new(0.2, 0.2, 1.0), DVec3::new(0.2, 0.2, 0.0)),  // face
        (DVec3::new(-1.0, -1.0, 0.0), a),                        // vertex a
        (DVec3::new(2.0, -0.5, 0.3), b),                         // vertex b
        (DVec3::new(-0.5, 3.0, 0.0), c),                         // vertex c
        (DVec3::new(0.5, -1.0, 0.0), DVec3::new(0.5, 0.0, 0.0)), // edge ab
        (DVec3::new(1.0, 1.0, 0.0), DVec3::new(0.5, 0.5, 0.0)),  // edge bc
        (DVec3::new(-1.0, 0.5, 2.0), DVec3::new(0.0, 0.5, 0.0)), // edge ca
    ];
    for (p, want) in cases {
        let got = closest_point_on_triangle(p, a, b, c);
        assert!((got - want).length() < 1e-12, "{p} -> {got}, want {want}");
    }
}

#[test]
fn rays_meet_planes_from_above() {
    let all = HitMask(HitMask::ALL);
    let at = |h: f64, r: f64| plane_crossing(all, h.to_bits(), r.to_bits());
    assert_eq!(at(1.0, -1.0), PlaneCrossing::Ahead);
    assert_eq!(at(1.0, 0.0), PlaneCrossing::Misses);
    assert_eq!(at(-0.5, 1.0), PlaneCrossing::AtStart);
    assert_eq!(at(0.0, 1.0), PlaneCrossing::AtStart);
    assert_eq!(
        plane_crossing(HitMask(HitMask::WATER), 1.0f64.to_bits(), (-1.0f64).to_bits()),
        PlaneCrossing::Misses
    );
}

#[test]
fn enu_axes_map_to_bevy_axes() {
    let to_bevy = |v: [f32; 3]| enu_to_bevy_vec(v.map(f32::to_bits)).map(f32::from_bits);
    assert_eq!(to_bevy([0.0, 0.0, 1.0]), [0.0, 1.0, 0.0]); // up is +y
    assert_eq!(to_bevy([0.0, 1.0, 0.0]), [0.0, 0.0, -1.0]); // north is forward (-z)
    assert_eq!(to_bevy([1.0, 0.0, 0.0]), [1.0, 0.0, 0.0]); // east is right (+x)
}

#[test]
fn frames_round_trip() {
    let v = [1.5f32, -2.25, 3.75].map(f32::to_bits);
    assert_eq!(bevy_to_enu_vec(enu_to_bevy_vec(v)), v);
    let q = [0.1f32, -0.2, 0.3, 0.9];
    let r = enu_to_bevy_quat(q.map(f32::to_bits));
    assert_eq!(r.map(f32::from_bits), [0.1, 0.3, 0.2, 0.9]);
    assert_eq!(bevy_to_enu_quat(r), q.map(f32::to_bits));
}

#[test]
fn dividers() {
    let c = Clock::new(500);
    assert_eq!(c.divider("policy", 50).unwrap(), 10);
    assert_eq!(c.divider("imu", 500).unwrap(), 1);
    assert!(c.divider("bad", 30).is_err());
    assert!(c.divider("zero", 0).is_err());
    assert!(c.divider("too fast", 1000).is_err());
}

#[test]
fn time_is_exact() {
    let mut c = Clock::new(500);
    for _ in 0..1_000_000 {
        c.advance();
    }
    assert_eq!(c.tick as f64 / c.physics_hz as f64, 2000.0);
}

#[test]
fn rates_that_divide_stay_aligned() {
    let mut c = Clock::new(12);
    let (slow, fast) = (c.divider("slow", 2).unwrap(), c.divider("fast", 4).unwrap());
    assert_eq!((slow, fast), (6, 3));
    for _ in 0..50 {
        assert!(!c.is_due(slow) || c.is_due(fast));
        c.advance();
    }
    assert!(c.divider("odd", 5).is_err_and(|e| e.message().contains("odd")));
    // Whichever tick a second starts at, it holds as many runs as the rate says.
    for tick in 0..30 {
        let due = |d: u32| (tick..tick + 12).filter(|&tick| Clock { physics_hz: 12, tick }.is_due(d)).count();
        assert_eq!((due(slow), due(fast)), (2, 4));
    }
    let e = c.divider("odd", 5).unwrap_err();
    assert_eq!(e.clone(), e);
}

#[test]
fn dimensions() {
    assert_eq!((JointType::Free.nq(), JointType::Free.nv()), (7, 6));
    assert_eq!((JointType::Spherical.nq(), JointType::Spherical.nv()), (4, 3));
    assert_eq!((JointType::Fixed.nq(), JointType::Fixed.nv()), (0, 0));
}

#[test]
fn models_number_their_coordinates() {
    let mut m = MultibodyModel::new();
    let base = m.add_link("base", None, JointType::Free);
    let arm = m.add_link("arm", Some(base), JointType::Revolute);
    let tip = m.add_link("tip", Some(arm), JointType::Fixed);
    let ball = m.add_link("ball", Some(arm), JointType::Spherical);
    assert_eq!((m.nq(), m.nv(), m.num_links()), (12, 10, 4));
    assert_eq!(m.q_slice(ball), (8, 12));
    assert_eq!(m.v_slice(ball), (7, 10));
    assert_eq!((m.q_offset(tip), m.v_offset(tip)), (8, 7));
    assert_eq!(m.find_link("tip"), Some(tip));
    assert_eq!(m.find_link("toe"), None);
    assert_eq!(m.ancestors(ball), [arm, base]);
    assert_eq!(m.neutral_state(), [0, 0, 0, 0, 0, 0, 1, 0, 0, 0, 0, 1]);
    assert!(!m.is_single_free_body());
    m.set_prescribed(arm, true);
    assert_eq!(
        m.passes(),
        [LinkPass::FreeRoot, LinkPass::Prescribed, LinkPass::Rigid, LinkPass::Articulated]
    );
    assert!(is_free_root(m.link(base)) && !is_free_root(m.link(arm)));
    assert_eq!(m.link(ball).pass(), LinkPass::Articulated);
    let mut one = MultibodyModel::new();
    one.add_link("body", None, JointType::Free);
    assert!(one.is_single_free_body());
}

#[test]
fn singular_links_are_reported() {
    assert_eq!(joint_pivot(3, 0.5f64.to_bits()), Ok(()));
    for d in [0.0, -1.0, f64::NAN, f64::INFINITY] {
        assert_eq!(joint_pivot(3, d.to_bits()), Err(DynamicsError::Singular(3)));
    }
    assert_eq!(
        singular(2, NotPositiveDefinite).message(),
        "singular joint-space inertia at link 2 (massless subtree or bad parameters)"
    );
    assert_eq!(Integrator::default().evaluations(), 1);
    assert!(JointType::KcTravel.configuration_dependent() && !JointType::Free.configuration_dependent());
}

#[test]
fn standard_ids_match_names() {
    let t = MaterialTable::standard();
    for (id, name) in [
        (MaterialId::ROCK, "rock"),
        (MaterialId::WATER, "water"),
        (MaterialId::FOREST_FLOOR, "forest_floor"),
        (MaterialId::FOLIAGE, "foliage"),
        (MaterialId::METAL, "metal"),
    ] {
        assert_eq!(t.get(MaterialId(id)).name, name);
        assert_eq!(t.find(name), Some(MaterialId(id)));
    }
    let r = MaterialTable::rural();
    assert_eq!(r.len(), t.len() + 3);
    for (id, name) in [(MaterialId::MEADOW, "meadow"), (MaterialId::CROP, "crop"), (MaterialId::PLOWED, "plowed")] {
        assert_eq!(r.find(name), Some(MaterialId(id)));
    }
}

#[test]
fn soft_materials_have_soils_that_survive_serialization() {
    let r = MaterialTable::rural();
    let soft = ["snow", "sand", "mud", "meadow", "crop", "plowed"];
    let mut rigid: Vec<Material> = Vec::new();
    for i in 0..r.len() {
        let m = r.get(MaterialId(i as u8));
        assert_eq!(m.soil.is_some(), soft.contains(&m.name.as_str()), "{}", m.name);
        rigid.push(Material {
            name: m.name.clone(),
            friction: m.friction,
            rolling_resistance: m.rolling_resistance,
            stiffness_scale: m.stiffness_scale,
            reflectivity: m.reflectivity,
            color: m.color,
            soil: None,
        });
    }
    assert_eq!(MaterialTable::restored(rigid), r);
    let mut t = MaterialTable::empty();
    assert!(t.is_empty());
    let ice = [0.05f64, 0.01, 1.0, 0.7].map(f64::to_bits);
    let id = t.push(Material::new("ice", ice[0], ice[1], ice[2], ice[3], [1, 2, 3]));
    assert_eq!((id, t.len(), t.find("snow")), (MaterialId(0), 1, None));
    assert_eq!((t.get(id).clone().friction, t.get(id).soil), (0.05f64.to_bits(), None));
    assert_eq!(MaterialTable::default(), MaterialTable::standard());
    assert_ne!(MaterialTable::default(), r.clone());
    assert!(MaterialId::default() == MaterialId(0) && MaterialId(1) < MaterialId(2));
}

#[test]
fn materials_have_their_properties() {
    let rows = [
        ("rock", [0.7, 0.015, 1.0, 0.35], [120, 116, 110]),
        ("scree", [0.55, 0.04, 0.8, 0.3], [145, 138, 128]),
        ("snow", [0.25, 0.06, 0.4, 0.8], [235, 238, 242]),
        ("sand", [0.5, 0.15, 0.5, 0.45], [214, 196, 150]),
        ("mud", [0.35, 0.12, 0.3, 0.15], [96, 78, 58]),
        ("grass", [0.45, 0.05, 0.7, 0.4], [92, 128, 60]),
        ("forest_floor", [0.55, 0.06, 0.6, 0.25], [78, 70, 48]),
        ("water", [0.05, 0.3, 0.1, 0.05], [52, 92, 130]),
        ("asphalt", [0.8, 0.013, 1.0, 0.1], [60, 60, 64]),
        ("concrete", [0.75, 0.012, 1.0, 0.4], [170, 168, 160]),
        ("gravel", [0.6, 0.02, 0.8, 0.35], [150, 142, 130]),
        ("dirt", [0.6, 0.03, 0.7, 0.25], [126, 100, 72]),
        ("wood", [0.5, 0.02, 1.0, 0.3], [104, 78, 52]),
        ("foliage", [0.3, 0.1, 1.0, 0.5], [60, 110, 50]),
        ("metal", [0.4, 0.01, 1.0, 0.6], [180, 182, 188]),
        ("meadow", [0.45, 0.06, 0.6, 0.4], [118, 150, 72]),
        ("crop", [0.45, 0.08, 0.5, 0.45], [196, 176, 92]),
        ("plowed", [0.5, 0.14, 0.3, 0.2], [112, 86, 62]),
    ];
    let r = MaterialTable::rural();
    assert_eq!(r.len(), rows.len());
    for (i, (name, n, color)) in rows.iter().enumerate() {
        let m = r.get(MaterialId(i as u8));
        let held = [m.friction, m.rolling_resistance, m.stiffness_scale, m.reflectivity].map(f64::from_bits);
        assert_eq!((m.name.as_str(), held, m.color), (*name, *n, *color));
    }
}

/// Soils in kN, kPa and degrees.
const SOILS: [(&str, [f64; 7]); 6] = [
    ("sand", [1.1, 0.99, 1528.43, 1.04, 28.0, 0.025, 1600.0]),
    ("mud", [0.5, 13.19, 692.15, 4.14, 13.0, 0.025, 1800.0]),
    ("snow", [1.6, 4.37, 196.72, 1.03, 19.7, 0.04, 300.0]),
    ("meadow", [1.01, 0.06, 5880.0, 3.1, 29.8, 0.01, 1500.0]),
    ("crop", [0.66, 6.9, 752.0, 3.7, 30.2, 0.015, 1500.0]),
    ("plowed", [1.1, 74.6, 2080.0, 3.3, 33.7, 0.025, 1300.0]),
];

#[test]
fn soils_are_in_si_units() {
    for (name, [n, k_c, k_phi, c, phi, k, rho]) in SOILS {
        let s = Soil::of_material(name).unwrap();
        let held = [s.n, s.k_c, s.k_phi, s.cohesion, s.friction_angle, s.shear_modulus, s.density].map(f64::from_bits);
        assert_eq!(held, [n, k_c * 1e3, k_phi * 1e3, c * 1e3, phi.to_radians(), k, rho], "{name}");
    }
    assert_eq!(Soil::of_material("rock"), None);
}

#[test]
fn soil_laws() {
    let s = Soil::of_material("plowed").unwrap();
    let [n, k_c, k_phi] = [s.n, s.k_c, s.k_phi].map(f64::from_bits);
    let [cohesion, phi, density] = [s.cohesion, s.friction_angle, s.density].map(f64::from_bits);
    let modulus = |b: f64| k_c / b + k_phi;
    let sinkage = |p: f64, b: f64| (p.max(0.0) / modulus(b)).powf(1.0 / n);
    let compaction = |b: f64, z0: f64, z: f64| {
        let e = n + 1.0;
        b * modulus(b) * (z.max(0.0).powf(e) - z0.max(0.0).powf(e)).max(0.0) / e
    };
    let bulldozing = |b: f64, z: f64, g: f64| {
        let kp = (std::f64::consts::FRAC_PI_4 + 0.5 * phi).tan().powi(2);
        b * (2.0 * cohesion * z * kp.sqrt() + 0.5 * density * g * z * z * kp)
    };
    let (b, p) = (0.38, 70e3);
    let z = sinkage(p, b);
    assert!((modulus(b) * z.powf(n) / p - 1.0).abs() < 1e-12);
    // The compaction work is the integral of the pressure over the sinkage.
    let steps = 100_000;
    let dz = z / steps as f64;
    let work: f64 = (0..steps).map(|k| b * modulus(b) * ((k as f64 + 0.5) * dz).powf(n) * dz).sum();
    assert!((compaction(b, 0.0, z) / work - 1.0).abs() < 1e-6);
    assert!((compaction(b, 0.5 * z, z) + compaction(b, 0.0, 0.5 * z) - work).abs() < 1e-6 * work);
    assert!(bulldozing(b, 0.0, 9.81) == 0.0 && bulldozing(b, 0.1, 9.81) > 0.0);
}

#[test]
fn contacts_are_tracked_while_they_last() {
    let mut c = ContactCache::new();
    assert!(c.is_empty());
    c.begin(2);
    let i = c.touch(0, HitKind::Terrain);
    assert_eq!(c.deflection(i), [0, 0, 0]);
    c.set_deflection(i, bits(&[0.1, 0.2, 0.3]).try_into().unwrap());
    let j = c.touch(1, HitKind::Solid(4));
    assert_ne!(i, j);
    c.finish();
    assert_eq!(c.len(), 2);
    c.begin(2);
    let i = c.touch(0, HitKind::Terrain);
    assert_eq!(c.deflection(i)[0], 0.1f64.to_bits());
    c.finish();
    assert_eq!(c.len(), 1);
    c.clear();
    assert!(c.is_empty());
    assert_eq!(contact_class(HitKind::Foliage(1)), ContactClass::Foliage);
    assert_eq!(contact_class(HitKind::Agent(1)), ContactClass::Solid);
    assert!(needs_evaluation(true, 0) && needs_evaluation(false, 1) && !needs_evaluation(false, 0));
    let s = |kind, f: f64| Support { kind, normal_force: f.to_bits() };
    assert!(rests(&vec![s(HitKind::Water, 1.0), s(HitKind::Terrain, 0.5)]));
    assert!(!rests(&vec![s(HitKind::Foliage(0), 1.0), s(HitKind::Terrain, 0.0)]));
}

#[test]
fn contacts_live_while_they_are_met() {
    let met = |collider, kind, depth: f64| Meeting { collider, kind, depth: depth.to_bits() };
    let mut c = ContactCache::new();
    let step = vec![
        met(0, HitKind::Terrain, 0.1),
        met(1, HitKind::Terrain, -0.1),
        met(1, HitKind::Solid(7), 0.2),
        met(0, HitKind::Foliage(2), 0.0),
    ];
    let places = c.evaluate(2, &step);
    assert_eq!(places.iter().map(|p| p.is_some()).collect::<Vec<_>>(), [true, false, true, false]);
    c.set_deflection(places[0].unwrap(), [1, 2, 3]);
    c.finish();
    assert_eq!(c.len(), 2);
    let places = c.evaluate(2, &vec![met(0, HitKind::Terrain, f64::NAN), met(1, HitKind::Terrain, 0.1)]);
    assert_eq!(c.deflection(places[0].unwrap()), [1, 2, 3]);
    assert_eq!(c.deflection(places[1].unwrap()), [0, 0, 0]);
    c.finish();
    assert_eq!(c.len(), 2);
    let places = c.evaluate(0, &vec![]);
    c.finish();
    assert!(places.is_empty() && c.is_empty());
    assert!(slides(4.1f64.to_bits(), 4.0f64.to_bits()) && !slides(4.0f64.to_bits(), 4.0f64.to_bits()));
}

#[test]
fn pivots_must_be_positive() {
    assert_eq!(spd_pivot(1.0f64.to_bits()), Ok(()));
    assert_eq!(spd_pivot((-1.0f64).to_bits()), Err(NotPositiveDefinite));
    assert_eq!(spd_pivot(f64::NAN.to_bits()), Err(NotPositiveDefinite));
    assert_eq!(pivot_row(&bits(&[9.0, -3.0, 2.0, 3.0]), 1), Ok(1));
    assert_eq!(pivot_row(&bits(&[9.0, 0.0, 0.0]), 1), Err(SingularMatrix));
    let mut b = bits(&[1.0, 2.0, 3.0]);
    exchange(&mut b, &vec![2, 2]);
    assert_eq!(b, bits(&[3.0, 1.0, 2.0]));
    assert!(!NotPositiveDefinite.message().is_empty() && !SingularMatrix.message().is_empty());
    let mut m = DenseMatrix::identity(3);
    assert_eq!((m.get(1, 1), m.get(1, 2)), (1.0f64.to_bits(), 0));
    m.set(1, 2, 5.0f64.to_bits());
    assert_eq!((m.get(1, 2), m.get(2, 1)), (5.0f64.to_bits(), 0));
    assert_eq!(DenseMatrix::zeros(2, 3).get(1, 2), 0);
}

type Mat6 = [[f64; 6]; 6];

fn cholesky6(a: &mut Mat6, k: usize) -> Result<(), NotPositiveDefinite> {
    for j in 0..k {
        let d = (0..j).fold(a[j][j], |d, p| d - a[j][p] * a[j][p]);
        spd_pivot(d.to_bits())?;
        a[j][j] = d.sqrt();
        for i in j + 1..k {
            let s = (0..j).fold(a[i][j], |s, p| s - a[i][p] * a[j][p]);
            a[i][j] = s / a[j][j];
        }
    }
    Ok(())
}

fn lu_solve6(a: &mut Mat6, b: &mut [f64; 6]) -> Result<(), SingularMatrix> {
    let mut piv = Vec::new();
    for c in 0..6 {
        let p = pivot_row(&bits(&a.map(|row| row[c])), c)?;
        piv.push(p);
        a.swap(c, p);
        for r in c + 1..6 {
            let m = a[r][c] / a[c][c];
            a[r][c] = m;
            for k in c + 1..6 {
                a[r][k] -= m * a[c][k];
            }
        }
    }
    let mut x = bits(b);
    exchange(&mut x, &piv);
    for r in 0..6 {
        b[r] = (0..r).fold(f64::from_bits(x[r]), |s, c| s - a[r][c] * b[c]);
    }
    for r in (0..6).rev() {
        b[r] = (r + 1..6).fold(b[r], |s, c| s - a[r][c] * b[c]) / a[r][r];
    }
    Ok(())
}

#[test]
fn lu_solve6_general() {
    let mut a = [[0.0; 6]; 6];
    for r in 0..6 {
        for c in 0..6 {
            a[r][c] = ((r * 7 + c * 3) % 11) as f64 - 5.0 + if r == c { 12.0 } else { 0.0 };
        }
    }
    let x = [1.0, -2.0, 3.0, 0.5, -0.25, 4.0];
    let mut b = [0.0; 6];
    for r in 0..6 {
        b[r] = (0..6).map(|c| a[r][c] * x[c]).sum();
    }
    // The rows in another order make every column exchange rows.
    let (mut turned, mut rhs) = (a, b);
    turned.reverse();
    rhs.reverse();
    for (mut lu, mut b) in [(a, b), (turned, rhs)] {
        lu_solve6(&mut lu, &mut b).unwrap();
        for r in 0..6 {
            assert!((b[r] - x[r]).abs() < 1e-12);
        }
    }
}

#[test]
fn rejects_indefinite() {
    let mut a = [[0.0; 6]; 6];
    a[0][0] = 1.0;
    a[1][1] = -1.0;
    assert_eq!(cholesky6(&mut a, 2), Err(NotPositiveDefinite));
}

struct Spline {
    x: Vec<f64>,
    y: Vec<f64>,
    m: Vec<f64>,
}

impl Spline {
    fn new(x: Vec<f64>, y: Vec<f64>) -> Result<Self, TableError> {
        check_table(&bits(&x), &bits(&y))?;
        let n = x.len();
        let (mut m, mut diag, mut rhs) = (vec![0.0; n], vec![0.0; n], vec![0.0; n]);
        for i in 1..n - 1 {
            let (h0, h1) = (x[i] - x[i - 1], x[i + 1] - x[i]);
            diag[i] = 2.0 * (h0 + h1);
            rhs[i] = 6.0 * ((y[i + 1] - y[i]) / h1 - (y[i] - y[i - 1]) / h0);
        }
        for i in 2..n - 1 {
            let w = (x[i] - x[i - 1]) / diag[i - 1];
            diag[i] -= w * (x[i] - x[i - 1]);
            rhs[i] -= w * rhs[i - 1];
        }
        for i in (1..n - 1).rev() {
            let upper = if i + 1 < n - 1 { (x[i + 1] - x[i]) * m[i + 1] } else { 0.0 };
            m[i] = (rhs[i] - upper) / diag[i];
        }
        Ok(Self { x, y, m })
    }

    fn slope(&self, i: usize, b: f64) -> f64 {
        let (x, y, m) = (&self.x, &self.y, &self.m);
        let (h, a) = (x[i + 1] - x[i], 1.0 - b);
        (y[i + 1] - y[i]) / h + ((3.0 * b * b - 1.0) * m[i + 1] - (3.0 * a * a - 1.0) * m[i]) * h / 6.0
    }

    fn eval(&self, t: f64) -> (f64, f64, f64) {
        let (x, y, m) = (&self.x, &self.y, &self.m);
        let n = x.len();
        match interval(&bits(x), t.to_bits()) {
            Interval::Before => {
                let d = self.slope(0, 0.0);
                (y[0] + d * (t - x[0]), d, 0.0)
            }
            Interval::Behind => {
                let d = self.slope(n - 2, 1.0);
                (y[n - 1] + d * (t - x[n - 1]), d, 0.0)
            }
            Interval::Inside(i) => {
                let h = x[i + 1] - x[i];
                let (a, b) = ((x[i + 1] - t) / h, (t - x[i]) / h);
                let bend = (a * a * a - a) * m[i] + (b * b * b - b) * m[i + 1];
                (a * y[i] + b * y[i + 1] + bend * h * h / 6.0, self.slope(i, b), a * m[i] + b * m[i + 1])
            }
        }
    }
}

#[test]
fn reproduces_cubics_with_zero_end_curvature_and_lines_exactly() {
    let line = Spline::new(vec![-1.0, 0.5, 2.0, 3.0], vec![-2.0, 1.0, 4.0, 6.0]).unwrap();
    for t in [-3.0, -1.0, 0.0, 1.7, 3.0, 5.0] {
        let (v, d, dd) = line.eval(t);
        assert!((v - 2.0 * t).abs() < 1e-12 && (d - 2.0).abs() < 1e-12 && dd.abs() < 1e-12, "{t}");
    }
    // sin on a fine grid: close to the function and its derivatives inside.
    let x: Vec<f64> = (0..=60).map(|k| k as f64 * 0.05).collect();
    let y: Vec<f64> = x.iter().map(|t| t.sin()).collect();
    let s = Spline::new(x, y).unwrap();
    for t in [0.4, 1.0, 1.73, 2.5] {
        let (v, d, dd) = s.eval(t);
        assert!((v - t.sin()).abs() < 1e-5 && (d - t.cos()).abs() < 1e-3 && (dd + t.sin()).abs() < 2e-2, "{t}");
    }
}

#[test]
fn derivatives_are_consistent_and_continuous() {
    let s = Spline::new(vec![0.0, 1.0, 1.5, 4.0], vec![1.0, -2.0, 0.5, 3.0]).unwrap();
    let h = 1e-6;
    for t in [-0.5, 0.0, 0.3, 1.0, 1.2, 1.5, 3.9, 4.0, 6.0] {
        let (_, d, dd) = s.eval(t);
        let fd = (s.eval(t + h).0 - s.eval(t - h).0) / (2.0 * h);
        let fdd = (s.eval(t + h).1 - s.eval(t - h).1) / (2.0 * h);
        assert!((fd - d).abs() < 1e-6, "{t}: {fd} vs {d}");
        // The second derivative is continuous inside; at the end knots it goes to 0.
        assert!((fdd - dd).abs() < 1e-4 || t == 0.0 || t == 4.0, "{t}: {fdd} vs {dd}");
    }
    assert!(Spline::new(vec![0.0, 0.0], vec![1.0, 2.0]).is_err());
    assert!(Spline::new(vec![0.0], vec![1.0]).is_err());
}

#[test]
fn tables_are_checked_and_searched() {
    let x = bits(&[-0.1, -0.03, 0.0, 0.05, 0.1]);
    assert!(check_table(&x, &x).is_ok());
    assert!(check_table(&x, &bits(&[1.0])).is_err());
    assert!(check_table(&bits(&[0.0, 0.0]), &bits(&[1.0, 2.0])).is_err());
    assert!(check_table(&bits(&[0.0, f64::NAN]), &bits(&[1.0, 2.0])).is_err());
    let at = |t: f64| interval(&x, t.to_bits());
    assert_eq!(at(-0.2), Interval::Before);
    assert_eq!(at(-0.03), Interval::Inside(1));
    assert_eq!(at(0.01), Interval::Inside(2));
    assert_eq!(at(0.1), Interval::Behind);
    assert_eq!(at(f64::NAN), Interval::Inside(0));
    assert_eq!(at(-f64::NAN), Interval::Inside(0));
    let spec = |toe: &[f64]| KcTableSpec {
        travel: bits(&[0.0, 0.1]),
        x: Vec::new(),
        y: Vec::new(),
        z: Vec::new(),
        toe: bits(toe),
        camber: Vec::new(),
    };
    assert!(spec(&[0.0, 0.1]).check().is_ok());
    assert!(spec(&[0.0]).check().is_err_and(|e| !e.message().is_empty()));
}

#[test]
fn bits_order_as_numbers() {
    let v = [f64::NEG_INFINITY, -2.0, -0.0, 0.0, 1e-300, 3.5, f64::INFINITY];
    for a in v {
        for b in v {
            assert_eq!(ieee::is_le64(a.to_bits(), b.to_bits()), a <= b);
            assert_eq!(ieee::is_lt64(a.to_bits(), b.to_bits()), a < b);
            assert_eq!(ieee::is_lt32((a as f32).to_bits(), (b as f32).to_bits()), (a as f32) < (b as f32));
            assert_eq!(ieee::ordered64(a.to_bits()) < ieee::ordered64(b.to_bits()), a.total_cmp(&b).is_lt());
        }
        assert_eq!(ieee::from_ordered64(ieee::ordered64(a.to_bits())), a.to_bits());
        assert!(!ieee::is_le64(a.to_bits(), f64::NAN.to_bits()));
        assert_eq!(ieee::is_finite64(a.to_bits()), a.is_finite());
    }
    for a in [-2.0, 0.5, f64::NAN] {
        for b in [-1.0, 3.0, f64::NAN] {
            let (p, q) = (ieee::max64(f64::to_bits(a), f64::to_bits(b)), ieee::min64(f64::to_bits(a), f64::to_bits(b)));
            assert_eq!((f64::from_bits(p).to_string(), f64::from_bits(q).to_string()), (a.max(b).to_string(), a.min(b).to_string()));
        }
    }
    for x in [-3.0f64, -1.0, 0.25, 2.0, f64::INFINITY] {
        assert_eq!(ieee::clamp64(x.to_bits(), (-1.0f64).to_bits(), 1.0f64.to_bits()), x.clamp(-1.0, 1.0).to_bits());
    }
    assert!(ieee::is_nan64(f64::NAN.to_bits()) && ieee::is_nan32(f32::NAN.to_bits()));
    assert!(ieee::is_le32(1.0f32.to_bits(), 1.0f32.to_bits()));
    assert_eq!(ieee::from_ordered(ieee::ordered(2.5f32.to_bits())), 2.5f32.to_bits());
}
