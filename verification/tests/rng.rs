use autonomousim::fraction::fraction_bits;
use autonomousim::rng::{ziggurat, Seed, SimRng, Ziggurat};
use autonomousim::shuffle::shuffle;

const ZIG_LAYERS: usize = 128;
const ZIG_R: f64 = 3.442619855899;
const ZIG_V: f64 = 9.91256303526217e-3;

struct Layers {
    x: [f64; ZIG_LAYERS + 1],
    ratio: [f64; ZIG_LAYERS],
}

fn layers() -> Layers {
    let mut x = [0.0; ZIG_LAYERS + 1];
    let mut f = libm::exp(-0.5 * ZIG_R * ZIG_R);
    x[0] = ZIG_V / f;
    x[1] = ZIG_R;
    for i in 2..ZIG_LAYERS {
        x[i] = libm::sqrt(-2.0 * libm::log(ZIG_V / x[i - 1] + f));
        f = libm::exp(-0.5 * x[i] * x[i]);
    }
    let mut ratio = [0.0; ZIG_LAYERS];
    for i in 0..ZIG_LAYERS {
        ratio[i] = x[i + 1] / x[i];
    }
    Layers { x, ratio }
}

fn uniform(r: &mut SimRng) -> f64 {
    f64::from_bits(r.uniform())
}

fn normal(r: &mut SimRng, z: &Layers) -> f64 {
    loop {
        let (layer, numerator) = r.layer();
        let i = layer as usize;
        let u = (numerator as f64 + 0.5) * (2.0 / (1u64 << 53) as f64) - 1.0;
        match ziggurat(layer, u.abs().to_bits(), z.ratio[i].to_bits()) {
            Ziggurat::Inside => return u * z.x[i],
            Ziggurat::Tail => loop {
                let x = libm::log(1.0 - uniform(r)) / ZIG_R;
                let y = libm::log(1.0 - uniform(r));
                if -2.0 * y >= x * x {
                    return if u < 0.0 { x - ZIG_R } else { ZIG_R - x };
                }
            },
            Ziggurat::Wedge => {
                let x = u * z.x[i];
                let f0 = libm::exp(-0.5 * (z.x[i] * z.x[i] - x * x));
                let f1 = libm::exp(-0.5 * (z.x[i + 1] * z.x[i + 1] - x * x));
                if f1 + uniform(r) * (f0 - f1) < 1.0 {
                    return x;
                }
            }
        }
    }
}

#[test]
fn streams_are_deterministic_and_independent() {
    let root = Seed::from_u64(42);
    assert_eq!(root, Seed::from_u64(42));
    assert_ne!(root, Seed::from_u64(43));
    let a = root.child("map");
    let b = root.child("env");
    assert_ne!(a, b);
    assert_ne!(root.child_index(0), root.child_index(1));
    let mut r1 = a.rng();
    let mut r2 = a.rng();
    for _ in 0..100 {
        assert_eq!(r1.next_u64(), r2.next_u64());
    }
}

#[test]
fn golden_sequence() {
    let z = layers();
    let mut r = Seed::from_u64(0).child("golden").rng();
    let v: Vec<u64> = (0..3).map(|_| r.next_u64()).collect();
    assert_eq!(v, [11976232826472119315, 16308739944226381452, 8629888788220003697]);
    let g: Vec<f64> = (0..3).map(|_| normal(&mut r, &z)).collect();
    assert_eq!(g, [-1.4580511184362677, 0.01958514432056501, -0.6415467078733578]);
}

#[test]
fn uniform_and_normal_moments() {
    let z = layers();
    let mut r = Seed::from_u64(7).rng();
    let n = 200_000;
    let (mut s, mut s2, mut g, mut g2) = (0.0, 0.0, 0.0, 0.0);
    for _ in 0..n {
        let u = uniform(&mut r);
        assert!((0.0..1.0).contains(&u));
        s += u;
        s2 += u * u;
        let x = normal(&mut r, &z);
        g += x;
        g2 += x * x;
    }
    let nf = n as f64;
    assert!((s / nf - 0.5).abs() < 0.005);
    assert!((s2 / nf - 1.0 / 3.0).abs() < 0.005);
    assert!((g / nf).abs() < 0.01);
    assert!((g2 / nf - 1.0).abs() < 0.01);
}

/// The ziggurat's layers, wedges and tail reproduce the normal CDF, including far out.
#[test]
fn normal_matches_the_cdf() {
    let z = layers();
    let mut r = Seed::from_u64(11).rng();
    let n = 4_000_000;
    let edges = [-4.0, -3.442619855899, -3.0, -2.0, -1.0, -0.5, 0.0, 0.5, 1.0, 2.0, 3.0, 3.442619855899, 4.0];
    let mut below = vec![0u64; edges.len()];
    let (mut m3, mut m4) = (0.0, 0.0);
    for _ in 0..n {
        let x = normal(&mut r, &z);
        for (c, e) in below.iter_mut().zip(edges) {
            *c += u64::from(x < e);
        }
        m3 += x * x * x;
        m4 += x * x * x * x;
    }
    let phi = |x: f64| 0.5 * libm::erfc(-x / std::f64::consts::SQRT_2);
    for (c, e) in below.iter().zip(edges) {
        let p = phi(e);
        let sigma = (p * (1.0 - p) / n as f64).sqrt();
        let got = *c as f64 / n as f64;
        assert!((got - p).abs() < 4.0 * sigma + 1e-9, "P(x < {e}) = {got}, expected {p}");
    }
    assert!((m3 / n as f64).abs() < 0.01 && (m4 / n as f64 - 3.0).abs() < 0.03);
}

#[test]
fn below_is_in_range_and_unbiased() {
    let mut r = Seed::from_u64(3).rng();
    let mut counts = [0u32; 7];
    for _ in 0..70_000 {
        counts[r.below(7) as usize] += 1;
    }
    for c in counts {
        assert!((c as i64 - 10_000).abs() < 500, "{counts:?}");
    }
}

#[test]
fn giving_up_leaves_the_stream_alone() {
    let mut r = Seed::from_u64(5).rng();
    assert_eq!(r.try_below(1 << 63, 0), None);
    let mut same = Seed::from_u64(5).rng();
    assert_eq!(r.next_u64(), same.next_u64());
    assert_eq!(r.try_below(10, 100), Some(same.below(10)));
}

#[test]
fn words_are_the_low_half_first() {
    let seed = Seed::from_u64(9);
    let (mut a, mut b) = (seed.rng(), seed.rng());
    let (lo, hi) = (a.next_u32() as u64, a.next_u32() as u64);
    assert_eq!(b.next_u64(), hi << 32 | lo);
    assert_eq!(seed.short(), u64::from_le_bytes(seed.0[..8].try_into().unwrap()));
}

#[test]
fn uniform_numbers_are_exact() {
    for x in [0u64, 1, 2, 3, 1 << 52, (1 << 53) - 1, 0x1234_5678_9abc] {
        let want = x as f64 * (1.0 / (1u64 << 53) as f64);
        assert_eq!(f64::from_bits(fraction_bits(x)), want);
    }
    let (mut a, mut b) = (Seed::from_u64(1).rng(), Seed::from_u64(1).rng());
    for _ in 0..50 {
        let x = b.next_u64() >> 11;
        assert_eq!(uniform(&mut a), x as f64 * (1.0 / (1u64 << 53) as f64));
    }
    let mut heads = 0;
    for _ in 0..10_000 {
        heads += u32::from(a.chance(0.25f64.to_bits()));
    }
    assert!((2300..2700).contains(&heads), "{heads}");
    assert_eq!(Seed::from_u64(1).rng().uniform_bits(), Seed::from_u64(1).rng().next_u64() >> 11);
}

#[test]
fn shuffles_permute() {
    let mut v: Vec<usize> = (0..5).collect();
    shuffle(&mut v, &vec![0, 0, 2, 1, 4]);
    assert_eq!(v, [3, 0, 2, 1, 4]);
    let mut orders = Vec::new();
    for a in 0..2 {
        for b in 0..3 {
            let mut v = vec![10, 20, 30];
            shuffle(&mut v, &vec![0, a, b]);
            assert!(!orders.contains(&v));
            orders.push(v);
        }
    }
    assert_eq!(orders.len(), 6);
}

#[test]
fn clones_go_on_as_their_streams_do() {
    let mut a = Seed::from_u64(3).rng();
    a.next_u64();
    a.next_u32();
    let mut c = a.clone();
    let next: Vec<u64> = (0..40).map(|_| a.next_u64()).collect();
    assert_eq!(next, (0..40).map(|_| c.next_u64()).collect::<Vec<u64>>());
    assert_ne!(next[0], next[1]);
}
