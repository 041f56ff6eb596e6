use autonomousim::cache::{Generator, MapCache, Origin};
use autonomousim::config::{
    vertices, ErosionConfig, ProcgenError, RoadsConfig, RuralConfig, RuralPreset, ScatterConfig, TreesConfig, WildConfig,
    WildPreset, RURAL_VERSION, WILD_VERSION,
};
use autonomousim::drainage::accumulation;
use autonomousim::farmland::{
    all_beyond, boundary, edge_number, gate, keep_clear, locate, neighbours, parcel_kind, site_fits,
    tree_line, Boundary, Place, RoadGap, Sides, Sites,
};
use autonomousim::flood::{priority_flood, OUTLET};
use autonomousim::grid::neighbour_of;
use autonomousim::json::{merge, overlay_toml, plain, Json};
use autonomousim::lakes::{depressions, forms, lake_level, lakes, Lakes};
use autonomousim::landcover::{
    in_place, material_counts, parcels_shown, tally, ParcelKind, RuralCell, RuralLimits, WildCell, WildLimits,
};
use autonomousim::material::{MaterialId, MaterialTable};
use autonomousim::network::Network;
use autonomousim::noise::{gradient, octave_seed, second_corner, Fractal};
use autonomousim::preview::{mark, Image, Mark, Shape, Tag};
use autonomousim::report::{count_tags, obstacle_list, road_list, wet_cells};
use autonomousim::rng::{Seed, SimRng};
use autonomousim::roads::{
    along_x, count_class, leg_of, nearest_first, ramp, shares, wants_road, NodeKind, RoadClass,
};
use autonomousim::routing::RouteGrid;
use autonomousim::scatter::{rock_lies, SpatialHash, TreeSite};
use autonomousim::search::Search;
use autonomousim::shore::nearby_water;
use autonomousim::terrain::{
    blur_source, brush, coarse, droplet, offset, slide, source, Droplet, LineSeeds, Slide, Source, TerrainSeeds,
};

fn b(x: f64) -> u64 {
    x.to_bits()
}

fn bits32(v: &[f32]) -> Vec<u32> {
    v.iter().map(|x| x.to_bits()).collect()
}

/// A 9×9 bowl (depth 2 at the centre) with a 1-deep notch in its east rim.
fn bowl() -> (Vec<f32>, usize) {
    let w = 9;
    let mut h = vec![3.0f32; w * w];
    for y in 1..8 {
        for x in 1..8 {
            let r = ((x as f32 - 4.0).abs()).max((y as f32 - 4.0).abs());
            h[y * w + x] = 1.0 + 0.5 * r;
        }
    }
    h[4 * w + 8] = 2.5; // spill point
    (h, w)
}

fn fill(h: &[u32], filled: &[u32], acc: &[u32], w: usize, min_depth: f32, min_vertices: usize, max_share: f64) -> Lakes {
    let ds = depressions(h, filled, acc, w, w);
    let limits: Vec<usize> = ds.iter().map(|d| (max_share * d.catchment as f64) as usize).collect();
    let shallow: Vec<bool> = ds
        .iter()
        .zip(&limits)
        .map(|(d, &limit)| {
            let l = lake_level(h, filled, &d.members, limit);
            f32::from_bits(l.level) - f32::from_bits(l.lowest) < min_depth
        })
        .collect();
    lakes(h, filled, &ds, &limits, &shallow, min_vertices, w, w)
}

#[test]
fn flood_fills_to_the_spill_level_and_drains_everything() {
    let (h, w) = bowl();
    let h = bits32(&h);
    let d = priority_flood(&h, w, w);
    assert_eq!(d.order.len(), w * w);
    // Inside the rim everything is raised to the spill level 2.5 (the rim ring at r = 3
    // is at 2.5 too).
    for y in 1..8 {
        for x in 1..8 {
            assert_eq!(f32::from_bits(d.filled[y * w + x]), 2.5, "{x} {y}");
        }
    }
    let acc = accumulation(&d);
    // All 7×7 inner vertices drain through the spill vertex.
    assert!(acc[4 * w + 8] >= 49, "{}", acc[4 * w + 8]);
    let total: u32 = (0..w * w).filter(|&i| d.parent[i] == OUTLET).map(|i| acc[i]).sum();
    assert_eq!(total as usize, w * w);

    let l = fill(&h, &d.filled, &acc, w, 0.3, 4, 1.0);
    assert_eq!(l.count, 1);
    assert!(l.water.iter().flatten().all(|&v| f32::from_bits(v) == 2.5));
    assert_eq!(l.cells, 36);
    let none = fill(&h, &d.filled, &acc, w, 5.0, 4, 1.0);
    assert_eq!((none.count, none.cells), (0, 0));
    // A small catchment share lowers the level below the spill point; all pools share it.
    let low = fill(&h, &d.filled, &acc, w, 0.3, 1, 9.0 / acc[4 * w + 8] as f64);
    assert!(low.cells > 0 && low.cells < 36, "{}", low.cells);
    let lvl = f32::from_bits(low.water.iter().flatten().next().copied().unwrap());
    assert!(lvl < 2.5 && low.water.iter().flatten().all(|&v| f32::from_bits(v) == lvl));
}

#[test]
fn lakes_are_level() {
    // Two pits in a plain at 12 m, which drain through channels at 10 m and 9 m.
    let w = 17;
    let mut h = vec![12.0f32; w * w];
    for (c, floor) in [(4, 7.0), (12, 5.0)] {
        for y in c - 2..=c + 2 {
            for x in c - 2..=c + 2 {
                h[y * w + x] = floor;
            }
        }
    }
    for k in 0..2 {
        h[4 * w + k] = 10.0;
        h[12 * w + 15 + k] = 9.0;
    }
    let bits = bits32(&h);
    let d = priority_flood(&bits, w, w);
    let l = fill(&bits, &d.filled, &accumulation(&d), w, 0.3, 4, 1.0);
    assert_eq!(l.count, 2);
    let level = |x: usize, y: usize| l.water[y * (w - 1) + x].map(f32::from_bits);
    let corners = |x: usize, y: usize| [(x, y), (x + 1, y), (x, y + 1), (x + 1, y + 1)];
    let mut levels = Vec::new();
    for y in 0..w - 1 {
        for x in 0..w - 1 {
            let Some(z) = level(x, y) else { continue };
            let below: Vec<_> = corners(x, y).into_iter().filter(|&(i, j)| h[j * w + i] < z).collect();
            assert!(!below.is_empty());
            for (i, j) in [(x + 1, y), (x, y + 1), (x + 1, y + 1)] {
                if i < w - 1 && j < w - 1 && corners(i, j).iter().any(|c| below.contains(c)) {
                    assert!(level(i, j).is_none_or(|other| other == z));
                }
            }
            levels.push(z);
        }
    }
    assert!(levels.contains(&10.0) && levels.contains(&9.0));
}

#[test]
fn small_or_shallow_lakes_do_not_form() {
    assert!(forms(4, 4, false) && !forms(3, 4, false) && !forms(4, 4, true) && !forms(0, 0, false));
}

#[test]
fn every_path_in_crosses_the_spill_level() {
    let h = bits32(&[5.0, 5.0, 5.0, 5.0, 1.0, 4.0, 5.0, 5.0, 5.0]);
    let d = priority_flood(&h, 3, 3);
    assert_eq!(f32::from_bits(d.filled[4]), 4.0);
    assert_eq!(d.parent[4], 5);
    assert_eq!(d.parent[5], OUTLET);
    assert_eq!(accumulation(&d)[5], 2);
}

#[test]
fn keys_separate_configs_and_seeds() {
    let config = |spacing: f64| format!("{{\"size\":512.0,\"trees\":{{\"min_spacing\":{spacing:?}}}}}");
    let (a, c) = (config(3.0), config(3.5));
    let k = |c: &str, s| MapCache::key("wild", WILD_VERSION, c, s);
    assert_eq!(k(&a, 1), k(&a.clone(), 1));
    assert_ne!(k(&a, 1), k(&a, 2));
    assert_ne!(k(&a, 1), k(&c, 1));
    assert_ne!(k(&a, 1), MapCache::key("wild", WILD_VERSION + 1, &a, 1));
    assert_eq!(k(&a, 1).len(), 64);
}

#[test]
fn keys_are_hashes_of_their_parts() {
    let mut h = blake3::Hasher::new();
    h.update(b"autonomousim map cache v1\0");
    h.update(b"rural");
    h.update(&[0]);
    h.update(&RURAL_VERSION.to_le_bytes());
    h.update(b"{}");
    h.update(&[0]);
    h.update(&7u64.to_le_bytes());
    assert_eq!(MapCache::key("rural", RURAL_VERSION, "{}", 7), h.finalize().to_hex().to_string());
}

#[test]
fn the_cache_directory_follows_the_variables() {
    let s = |x: &str| Some(x.to_owned());
    let dir = MapCache::default_dir;
    assert_eq!(dir(s("/maps"), s("/xdg"), s("/home/a")), s("/maps"));
    assert_eq!(dir(s(""), s("/xdg"), s("/home/a")), s("/xdg/autonomousim/maps"));
    assert_eq!(dir(None, None, s("/home/a/")), s("/home/a/.cache/autonomousim/maps"));
    assert_eq!(dir(None, s(""), None), None);
    assert!(MapCache::user(None, None, None).is_none());
    assert_eq!(MapCache::user(s("/maps"), None, None).unwrap().dir(), "/maps");
    let c = MapCache::new("/maps".to_owned());
    let key = MapCache::key("rural", RURAL_VERSION, "{}", 7);
    assert_eq!(c.entry(Generator::Rural, "{}", 7), format!("/maps/{key}.map"));
    assert_ne!(c.entry(Generator::Wild, "{}", 7), c.entry(Generator::Rural, "{}", 7));
    assert_eq!(Origin::of_entry(true, true).describe("/m"), "loaded from /m");
    assert_eq!(Origin::of_entry(true, false).describe("/m"), "generated, cached at /m");
    assert_eq!(Origin::of_entry(false, false), Origin::Cached);
    assert_eq!(Origin::Generated.describe("/m"), "generated (cache disabled)");
    assert_eq!(c.path("abc"), "/maps/abc.map");
    assert_eq!(c.path("/abc"), "/abc.map");
    assert_eq!(MapCache::new(String::new()).path("abc"), "abc.map");
}

#[test]
fn presets_are_valid_and_parsed() {
    for (p, n) in [(WildPreset::Training, 512), (WildPreset::Showcase, 2048), (WildPreset::Offroad, 512)] {
        assert_eq!(p.config().validate(Some(n)), Ok(()));
        assert_eq!(f64::from_bits(p.config().size), n as f64);
    }
    for (p, n) in [(RuralPreset::Training, 512), (RuralPreset::Showcase, 2048)] {
        assert_eq!(p.config().validate(Some(n), true, 4, b(0.4 + 0.3)), Ok(()));
    }
    assert_eq!(WildPreset::parse("training"), Ok(WildPreset::Training));
    assert_eq!(RuralPreset::parse("showcase"), Ok(RuralPreset::Showcase));
    assert_eq!(WildPreset::parse("offroad"), Ok(WildPreset::Offroad));
    assert_eq!(f64::from_bits(WildPreset::Offroad.config().size), 512.0);
    assert!(f64::from_bits(WildPreset::Offroad.config().terrain.relief) < 100.0);
    assert_eq!(
        WildPreset::parse("tr\"ial"),
        Err("unknown preset \"tr\\\"ial\" (training, showcase, offroad)".to_owned())
    );
    assert_eq!(RuralPreset::parse("offroad"), Err("unknown preset \"offroad\" (training, showcase)".to_owned()));
    assert_eq!(WildConfig::default(), WildConfig::training());
    assert_eq!(RuralConfig::default(), RuralConfig::training());
    assert_eq!(f64::from_bits(WildConfig::training().terrain.warp_strength), 40.0);
    assert_eq!(f64::from_bits(RuralConfig::showcase().farms.spacing), 260.0);
    assert_eq!(f64::from_bits(RoadsConfig::default().class(RoadClass::Gravel).max_grade), 0.12);
    assert_eq!(vertices(512), 513);
}

#[test]
fn bad_configurations_are_refused() {
    let wild = WildConfig::training();
    let err = |c: WildConfig, n| c.validate(n).unwrap_err();
    assert_eq!(err(wild, Some(255)), "size / cell must be an even integer in [64, 16384]");
    assert_eq!(err(wild, Some(16)), "size / cell must be an even integer in [64, 16384]");
    assert_eq!(err(wild, None), "size / cell must be an even integer in [64, 16384]");
    assert_eq!(err(WildConfig { cell: 0, ..wild }, Some(512)), "cell must be in [0.25, 8] m");
    let mut c = wild;
    c.terrain.relief = b(-1.0);
    assert_eq!(err(c, Some(512)), "terrain.relief must be positive");
    let mut c = wild;
    c.terrain.hills.octaves = 17;
    assert_eq!(err(c, Some(512)), "terrain fractals need 1–16 octaves, lacunarity > 1 and 0 < gain < 1");
    let mut c = wild;
    c.erosion.thermal_rate = b(0.1);
    assert_eq!(err(c, Some(512)), "erosion.thermal_rate must be in (0, 1/16]");
    let mut c = wild;
    c.materials.snow_max_slope_deg = b(90.0);
    assert_eq!(err(c, Some(512)), "materials.snow_max_slope_deg must be in (0, 90)");
    let mut c = wild;
    c.rocks.sunk = b(0.5);
    assert_eq!(err(c, Some(512)), "rocks.sunk must be in [0, 0.5)");
    let mut c = wild;
    c.water.min_depth = b(f64::NAN);
    assert_eq!(err(c, Some(512)), "water: need min_depth, min_area ≥ 0 and max_catchment_share in [0, 1]");
    let trees = TreesConfig { min_spacing: b(0.4), ..TreesConfig::default() };
    assert_eq!(trees.validate(), Err("trees.min_spacing must be at least 0.5 m".to_owned()));
    let rural = RuralConfig::training();
    let err = |c: RuralConfig| c.validate(Some(512), true, 4, b(0.7)).unwrap_err();
    assert_eq!(
        rural.validate(Some(512), false, 4, b(0.7)),
        Err("size must be a multiple of roads.route_cell".to_owned())
    );
    assert_eq!(
        rural.validate(Some(512), true, 0, b(0.7)),
        Err("roads.route_cell must be a whole multiple of the map cell".to_owned())
    );
    let mut c = rural;
    c.roads.gravel.width = 0;
    assert_eq!(err(c), "roads.gravel: width, max_grade and min_radius must be positive");
    let mut c = rural;
    c.fields.meadow = 0;
    c.fields.crop = b(-0.0);
    c.fields.plowed = 0;
    assert_eq!(err(c), "fields: meadow, crop and plowed shares must be ≥ 0 and not all 0");
    let mut c = rural;
    c.farms.yard.1 = 0;
    assert_eq!(err(c), "farms: spacing and yard must be positive, max_relief, margin and pad ≥ 0");
    let s = ScatterConfig::default();
    assert_eq!(s.validate(b(1.1)), Err("scatter: hedge and fence shares in [0, 1], at most 1 together".to_owned()));
    assert_eq!(ProcgenError::Config("x".to_owned()).message(), "invalid generator config: x");
    assert_eq!(ProcgenError::MapFile("y".to_owned()).message(), "y");
    assert_eq!(ProcgenError::Io("z".to_owned()).message(), "map cache: z");
}

fn number(s: &str) -> Json {
    Json::Number(s.to_owned())
}

fn object(e: Vec<(&str, Json)>) -> Json {
    Json::Object(e.into_iter().map(|(k, v)| (k.to_owned(), v)).collect())
}

fn show(j: &Json) -> String {
    match j {
        Json::Null => "null".to_owned(),
        Json::Bool(v) => format!("{v}"),
        Json::Number(s) => s.clone(),
        Json::Text(s) => format!("{s:?}"),
        Json::List(l) => format!("[{}]", l.iter().map(show).collect::<Vec<_>>().join(",")),
        Json::Object(o) => {
            let mut parts: Vec<String> = o.iter().map(|(k, v)| format!("{k}:{}", show(v))).collect();
            parts.sort();
            format!("{{{}}}", parts.join(","))
        }
    }
}

#[test]
fn overlays_merge_key_by_key() {
    let base = object(vec![
        ("size", number("512")),
        ("roads", object(vec![("paved", object(vec![("width", number("6")), ("max_grade", number("0.08"))]))])),
    ]);
    let top = object(vec![
        ("roads", object(vec![("paved", object(vec![("width", number("7"))]))])),
        ("sise", Json::Bool(true)),
    ]);
    assert_eq!(show(&merge(base, top)), "{roads:{paved:{max_grade:0.08,width:7}},sise:true,size:512}");
    assert_eq!(show(&merge(object(vec![("a", Json::Null)]), Json::List(vec![number("1")]))), "[1]");
    assert_eq!(show(&merge(Json::Text("x".to_owned()), object(vec![]))), "{}");
    assert_eq!(show(&merge(object(vec![("a", number("1"))]), object(vec![]))), "{a:1}");
}

#[test]
fn values_are_opened() {
    let v: serde_json::Value =
        serde_json::from_str(r#"{"a": [null, true, 1, -2.5, "x\"y"], "b": {"c": {}, "d": []}, "e": 0.25}"#).unwrap();
    assert_eq!(show(&plain(v)), r#"{a:[null,true,1,-2.5,"x\"y"],b:{c:{},d:[]},e:0.25}"#);
    assert_eq!(show(&plain(serde_json::Value::from(u64::MAX))), "18446744073709551615");
    assert_eq!(show(&plain(serde_json::Value::Null)), "null");
}

#[test]
fn files_overlay_configurations() {
    let base = || {
        object(vec![
            ("size", number("512.0")),
            ("roads", object(vec![("paved", object(vec![("width", number("6.0")), ("max_grade", number("0.08"))]))])),
        ])
    };
    let text = "# wider\nname = \"x\"\n[roads.paved]\nwidth = 7.5\n[farms]\nyard = [40, 30]\n";
    let merged = overlay_toml(base(), text).unwrap();
    assert_eq!(show(&merged), "{farms:{yard:[40,30]},name:\"x\",roads:{paved:{max_grade:0.08,width:7.5}},size:512.0}");
    assert_eq!(show(&overlay_toml(base(), "").unwrap()), show(&base()));
    assert!(overlay_toml(base(), "[roads").is_err_and(|e| e.contains("TOML parse error at line 1")));
    assert!(overlay_toml(base(), "size = 1\nsize = 2").is_err_and(|e| e.contains("duplicate key")));
}

const F2: f64 = 0.366_025_403_784_438_6;
const G2: f64 = 0.211_324_865_405_187_1;
const NORM: f64 = 99.836_854_463_036_47;
const A: f64 = 0.991_444_861_373_810_4;
const B: f64 = 0.130_526_192_220_051_57;
const C: f64 = 0.923_879_532_511_286_7;
const D: f64 = 0.382_683_432_365_089_8;
const E: f64 = 0.793_353_340_291_235_2;
const F: f64 = 0.608_761_429_008_720_7;
const QUARTER: [[f64; 2]; 6] = [[A, B], [C, D], [E, F], [F, E], [D, C], [B, A]];

fn direction(k: usize) -> [f64; 2] {
    match k {
        0..=5 => QUARTER[k],
        6..=11 => [-QUARTER[11 - k][0], QUARTER[11 - k][1]],
        12..=17 => [-QUARTER[k - 12][0], -QUARTER[k - 12][1]],
        _ => [QUARTER[23 - k][0], -QUARTER[23 - k][1]],
    }
}

fn corner(seed: u64, i: i64, j: i64, x: f64, y: f64) -> f64 {
    let t = 0.5 - x * x - y * y;
    if t <= 0.0 {
        return 0.0;
    }
    let g = direction(gradient(seed, i, j));
    let t2 = t * t;
    t2 * t2 * (g[0] * x + g[1] * y)
}

fn simplex2(seed: u64, x: f64, y: f64) -> f64 {
    let s = (x + y) * F2;
    let (i, j) = ((x + s).floor(), (y + s).floor());
    let t = (i + j) * G2;
    let (x0, y0) = (x - (i - t), y - (j - t));
    let (i1, j1) = second_corner(b(x0), b(y0));
    let (x1, y1) = (x0 - i1 as f64 + G2, y0 - j1 as f64 + G2);
    let (x2, y2) = (x0 - 1.0 + 2.0 * G2, y0 - 1.0 + 2.0 * G2);
    let (i, j) = (i as i64, j as i64);
    let n = corner(seed, i, j, x0, y0) + corner(seed, i + i1, j + j1, x1, y1) + corner(seed, i + 1, j + 1, x2, y2);
    (n * NORM).clamp(-1.0, 1.0)
}

fn fbm(seed: u64, x: f64, y: f64, f: &Fractal) -> f64 {
    let (mut sum, mut norm, mut amp) = (0.0, 0.0, 1.0);
    let (mut x, mut y) = (x, y);
    for o in 0..f.octaves {
        let (rx, ry) = (0.8 * x - 0.6 * y, 0.6 * x + 0.8 * y);
        sum += amp * simplex2(octave_seed(seed, o), rx, ry);
        norm += amp;
        amp *= f64::from_bits(f.gain);
        x = rx * f64::from_bits(f.lacunarity);
        y = ry * f64::from_bits(f.lacunarity);
    }
    sum / norm
}

fn ridged(seed: u64, x: f64, y: f64, f: &Fractal) -> f64 {
    let (mut sum, mut norm, mut amp, mut weight) = (0.0, 0.0, 1.0, 1.0);
    let (mut x, mut y) = (x, y);
    for o in 0..f.octaves {
        let (rx, ry) = (0.8 * x - 0.6 * y, 0.6 * x + 0.8 * y);
        let r = 1.0 - simplex2(octave_seed(seed, o), rx, ry).abs();
        let signal: f64 = r * r * weight;
        weight = (2.0 * signal).clamp(0.0, 1.0);
        sum += amp * signal;
        norm += amp;
        amp *= f64::from_bits(f.gain);
        x = rx * f64::from_bits(f.lacunarity);
        y = ry * f64::from_bits(f.lacunarity);
    }
    sum / norm
}

fn smoothstep(lo: f64, hi: f64, x: f64) -> f64 {
    let t = ((x - lo) / (hi - lo)).clamp(0.0, 1.0);
    t * t * (3.0 - 2.0 * t)
}

#[test]
fn fractals_are_bounded() {
    let f = Fractal::new(6);
    for k in 0..20_000 {
        let (x, y) = ((k % 200) as f64 * 0.31, (k / 200) as f64 * 0.29);
        let v = fbm(5, x, y, &f);
        let r = ridged(5, x, y, &f);
        assert!((-1.0..=1.0).contains(&v) && (0.0..=1.0).contains(&r), "{v} {r}");
    }
    assert_eq!(smoothstep(0.0, 1.0, 0.5), 0.5);
    assert_eq!(smoothstep(0.0, 1.0, -3.0), 0.0);
}

#[test]
fn golden_values() {
    // Fixed values guard the noise against accidental changes (they feed the map hashes).
    let v = [simplex2(0, 0.25, 0.5), simplex2(42, -13.7, 8.1), fbm(9, 3.3, -1.2, &Fractal::new(4))];
    let bits = v.map(f64::to_bits);
    assert_eq!(bits, [4603638946825985774, 13810383131601483048, 13822188526255662516], "{v:?}");
}

#[test]
fn simplex_range_mean_and_continuity() {
    let (mut lo, mut hi, mut sum, mut sq) = (0.0f64, 0.0f64, 0.0, 0.0);
    let n = 400_000;
    for k in 0..n {
        let x = (k % 1000) as f64 * 0.137 - 50.0;
        let y = (k / 1000) as f64 * 0.173 + 20.0;
        let v = simplex2(7, x, y);
        lo = lo.min(v);
        hi = hi.max(v);
        sum += v;
        sq += v * v;
        // Lipschitz: the kernel's gradient is bounded.
        let d = (simplex2(7, x + 1e-4, y) - v).abs();
        assert!(d < 1e-4 * 20.0, "{x} {y}: {d}");
    }
    let mean = sum / n as f64;
    let std = (sq / n as f64 - mean * mean).sqrt();
    assert!(lo > -1.0 && hi < 1.0 && lo < -0.6 && hi > 0.6, "{lo} {hi}");
    // The quartic kernel gives a broad, nearly flat distribution over (−0.95, 0.95).
    assert!(mean.abs() < 0.01 && (0.45..0.6).contains(&std), "{mean} {std}");
    // Seeds give different fields; lattice points are zero.
    assert_ne!(simplex2(1, 0.3, 0.7), simplex2(2, 0.3, 0.7));
    assert_eq!(simplex2(3, 0.0, 0.0), 0.0);
}

#[test]
fn octaves_have_their_own_seeds() {
    let mut seeds: Vec<u64> = (0..16).map(|o| octave_seed(u64::MAX - 3, o)).collect();
    seeds.sort();
    seeds.dedup();
    assert_eq!(seeds.len(), 16);
    assert_eq!(octave_seed(5, 1), 5u64.wrapping_add(0x9E37_79B9_7F4A_7C15));
    let f = Fractal::default();
    assert!(f.is_valid() && f.octaves == 5);
    assert!(!Fractal::new(0).is_valid() && !Fractal { gain: b(1.0), ..f }.is_valid());
}

fn midpoint(a: f64, b: f64, c: f64, d: f64) -> f64 {
    (9.0 * (b + c) - (a + d)) * (1.0 / 16.0)
}

fn upsample2(f: &dyn Fn(usize, usize) -> f64, w: usize, h: usize) -> Vec<f64> {
    let (w2, h2) = (2 * w - 1, 2 * h - 1);
    let row = |ix: usize, iy: usize| match source(ix, w) {
        Source::Kept(k) => f(k, iy),
        Source::Between(p, q, r, s) => midpoint(f(p, iy), f(q, iy), f(r, iy), f(s, iy)),
    };
    let mut out = Vec::new();
    for iy in 0..h2 {
        for ix in 0..w2 {
            out.push(match source(iy, h) {
                Source::Kept(k) => row(ix, k),
                Source::Between(p, q, r, s) => midpoint(row(ix, p), row(ix, q), row(ix, r), row(ix, s)),
            });
        }
    }
    out
}

#[test]
fn upsample_keeps_coarse_samples_and_is_exact_for_cubics() {
    let f = |ix: usize, iy: usize| {
        let (x, y) = (ix as f64, iy as f64);
        0.3 * x * x - 0.1 * x * y + 2.0 * y + 0.01 * y * y * y
    };
    let g = upsample2(&f, 9, 7);
    assert_eq!(g.len(), 17 * 13);
    let at = |x: usize, y: usize| g[y * 17 + x];
    for iy in 0..7 {
        for ix in 0..9 {
            assert_eq!(at(2 * ix, 2 * iy), f(ix, iy));
        }
    }
    // Interior midpoints of a cubic polynomial are reproduced exactly (Catmull–Rom is
    // exact for quadratics; the cubic term is separable here).
    let (x, y) = (7.0 / 2.0, 7.0 / 2.0);
    let expect = 0.3 * x * x - 0.1 * x * y + 2.0 * y + 0.01 * y * y * y;
    assert!((at(7, 7) - expect).abs() < 0.01, "{} {expect}", at(7, 7));
    assert_eq!((source(1, 9), source(15, 9)), (Source::Between(0, 0, 1, 2), Source::Between(6, 7, 8, 8)));
    assert_eq!(coarse(513), 257);
    assert_eq!((blur_source(0, 0, 8, 20), blur_source(19, 16, 8, 20), blur_source(10, 8, 8, 20)), (0, 19, 10));
}

struct Field {
    w: usize,
    h: usize,
    data: Vec<f64>,
}

impl Field {
    fn at(&self, x: usize, y: usize) -> f64 {
        self.data[y * self.w + x]
    }
}

fn cone(n: usize) -> Field {
    let c = (n - 1) as f64 / 2.0;
    let r = |i: usize| ((i % n) as f64 - c).powi(2) + ((i / n) as f64 - c).powi(2);
    Field { w: n, h: n, data: (0..n * n).map(|i| (1.0 - r(i).sqrt() / c).max(0.0)).collect() }
}

fn thermal_erosion(f: &mut Field, cell: f64, c: &ErosionConfig) {
    let talus = f64::from_bits(c.talus_deg).to_radians().tan() * cell;
    let rate = f64::from_bits(c.thermal_rate);
    for _ in 0..c.thermal_iterations {
        let cur = f.data.clone();
        for i in 0..cur.len() {
            for k in 0..8 {
                let Some(j) = neighbour_of(i, k, f.w, f.h) else { continue };
                let diagonal = j % f.w != i % f.w && j / f.w != i / f.w;
                let t = if diagonal { talus * std::f64::consts::SQRT_2 } else { talus };
                let d = cur[i] - cur[j];
                match slide(b(d), b(-d), b(t)) {
                    Slide::Gives => f.data[i] -= rate * (d - t),
                    Slide::Gets => f.data[i] += rate * (-d - t),
                    Slide::Rests => {}
                }
            }
        }
    }
}

#[test]
fn thermal_erosion_conserves_mass_and_flattens() {
    let mut f = cone(33);
    f.data[16 * 33 + 16] += 20.0; // a spike far above the talus slope
    let before: f64 = f.data.iter().sum();
    let c = ErosionConfig { thermal_iterations: 200, ..Default::default() };
    thermal_erosion(&mut f, 1.0, &c);
    let after: f64 = f.data.iter().sum();
    assert!((before - after).abs() < 1e-9, "{before} {after}");
    let talus = (f64::from_bits(c.talus_deg).to_radians()).tan();
    let steepest =
        (0..32).flat_map(|y| (0..32).map(move |x| (x, y))).map(|(x, y)| (f.at(x + 1, y) - f.at(x, y)).abs());
    assert!(steepest.fold(0.0, f64::max) < 1.05 * talus);
}

fn height_gradient(f: &Field, x: f64, y: f64) -> (f64, f64, f64) {
    let (ix, iy) = (x as usize, y as usize);
    let (u, v) = (x - ix as f64, y - iy as f64);
    let (p, q, r, s) = (f.at(ix, iy), f.at(ix + 1, iy), f.at(ix, iy + 1), f.at(ix + 1, iy + 1));
    let height = p * (1.0 - u) * (1.0 - v) + q * u * (1.0 - v) + r * (1.0 - u) * v + s * u * v;
    (height, (q - p) * (1.0 - v) + (s - r) * v, (r - p) * (1.0 - u) + (s - q) * u)
}

fn hydraulic_erosion(f: &mut Field, c: &ErosionConfig, rng: &mut SimRng) {
    let num = f64::from_bits;
    let offsets = brush(c.radius);
    let weight = |d: &(i64, i64)| c.radius as f64 - ((d.0 * d.0 + d.1 * d.1) as f64).sqrt();
    let total: f64 = offsets.iter().map(weight).sum();
    let (xmax, ymax) = ((f.w - 1) as f64, (f.h - 1) as f64);
    let mut uniform = || rng.uniform_bits() as f64 / (1u64 << 53) as f64;
    for _ in 0..(num(c.droplets_per_cell) * xmax * ymax).round() as u64 {
        let (mut x, mut y) = (uniform() * xmax, uniform() * ymax);
        let (mut dx, mut dy) = (0.0, 0.0);
        let (mut speed, mut water, mut sediment): (f64, f64, f64) = (1.0, 1.0, 0.0);
        for _ in 0..c.lifetime {
            let (ix, iy) = (x as usize, y as usize);
            let (u, v) = (x - ix as f64, y - iy as f64);
            let (height, gx, gy) = height_gradient(f, x, y);
            dx = dx * num(c.inertia) - gx * (1.0 - num(c.inertia));
            dy = dy * num(c.inertia) - gy * (1.0 - num(c.inertia));
            let len = (dx * dx + dy * dy).sqrt();
            if len == 0.0 {
                break;
            }
            (dx, dy) = (dx / len, dy / len);
            (x, y) = (x + dx, y + dy);
            if !(0.0..xmax).contains(&x) || !(0.0..ymax).contains(&y) {
                break;
            }
            let dh = height_gradient(f, x, y).0 - height;
            let capacity = (-dh * speed * water * num(c.capacity)).max(num(c.min_capacity));
            let amount = match droplet(b(sediment), b(capacity), b(dh)) {
                Droplet::Fill => dh.min(sediment),
                Droplet::Deposit => (sediment - capacity) * num(c.deposit_rate),
                Droplet::Erode => {
                    let amount = ((capacity - sediment) * num(c.erode_rate)).min(-dh);
                    for d in &offsets {
                        if let Some(i) = offset(ix, iy, d.0, d.1, f.w, f.h) {
                            f.data[i] -= amount * weight(d) / total;
                            sediment += amount * weight(d) / total;
                        }
                    }
                    0.0
                }
            };
            sediment -= amount;
            let i = iy * f.w + ix;
            f.data[i] += amount * (1.0 - u) * (1.0 - v);
            f.data[i + 1] += amount * u * (1.0 - v);
            f.data[i + f.w] += amount * (1.0 - u) * v;
            f.data[i + f.w + 1] += amount * u * v;
            speed = (speed * speed - dh * num(c.gravity)).max(0.0).sqrt();
            water *= 1.0 - num(c.evaporation);
        }
    }
}

#[test]
fn hydraulic_erosion_moves_material_downhill() {
    let mut f = cone(65);
    let before = cone(65);
    let mut rng = Seed::from_u64(1).rng();
    let c = ErosionConfig { droplets_per_cell: b(2.0), ..Default::default() };
    // The cone slope is 1/32 per cell: similar to real terrain in relief units.
    hydraulic_erosion(&mut f, &c, &mut rng);
    let centre = |g: &Field| g.at(32, 32);
    let rim: f64 = (0..65).map(|i| f.at(i, 2) - before.at(i, 2)).sum();
    assert!(centre(&f) <= centre(&before) && f.data.iter().all(|v| v.is_finite()));
    let changed = f.data.iter().zip(&before.data).filter(|(a, b)| a != b).count();
    assert!(changed > 1000, "{changed}");
    assert!(rim.is_finite());
}

#[test]
fn droplets_and_slides() {
    let d = brush(3);
    assert_eq!(d.len(), 25);
    assert!(d.contains(&(0, 0)) && d.contains(&(-2, 2)) && !d.contains(&(3, 0)));
    assert!(brush(0).is_empty());
    assert_eq!(droplet(b(1.0), b(0.5), b(-0.1)), Droplet::Deposit);
    assert_eq!(droplet(b(0.1), b(0.5), b(0.1)), Droplet::Fill);
    assert_eq!(droplet(b(0.1), b(0.5), b(-0.1)), Droplet::Erode);
    assert_eq!(offset(0, 0, -1, 0, 5, 4), None);
    assert_eq!(offset(4, 3, -1, -2, 5, 4), Some(8));
    for above in [-2.0, -0.5, 0.0, 0.5, 2.0] {
        let here = slide(b(above), b(-above), b(1.0));
        let there = slide(b(-above), b(above), b(1.0));
        assert_eq!(here == Slide::Gives, there == Slide::Gets);
        assert_eq!(here == Slide::Rests, there == Slide::Rests);
    }
    assert_eq!(slide(b(2.0), b(-2.0), b(1.0)), Slide::Gives);
}

#[test]
fn layers_have_their_own_seeds() {
    let root = Seed::from_u64(1).child("map/wild");
    let t = TerrainSeeds::new(&root);
    assert_eq!(t.hills, root.child("terrain").child("hills").short());
    assert_eq!(t.mask, root.child("terrain").child("mask").short());
    assert_eq!(t.mountains, root.child("terrain").child("mountains").short());
    assert_eq!(t.detail, root.child("terrain").child("detail").short());
    assert_eq!(t.warp[3], root.child("terrain").child("warp").child_index(3).short());
    let l = LineSeeds::new(&root);
    assert_eq!(l.snowline, root.child("lines").child("snowline").short());
    assert_ne!(l.treeline, l.forest);
}

#[test]
fn water_is_near_within_reach() {
    let (w, h) = (7, 5);
    let mut water = vec![None; w * h];
    water[2 * w + 1] = Some(1.5f32.to_bits());
    water[2 * w + 3] = Some(2.5f32.to_bits());
    let near = nearby_water(&water, w, h, 2);
    for y in 0..h {
        for x in 0..w {
            let want = if x.abs_diff(3) <= 2 {
                Some(2.5f32)
            } else if x.abs_diff(1) <= 2 {
                Some(1.5)
            } else {
                None
            };
            assert_eq!(near[y * w + x].map(f32::from_bits), want, "{x} {y}");
        }
    }
    assert_eq!(nearby_water(&water, w, h, 0), water);
    assert_eq!(wet_cells(&water), 2);
}

fn wild_cell() -> WildCell {
    WildCell {
        depth: None,
        z: b(10.0),
        slope: b(0.1),
        snowline: b(70.0),
        treeline: b(50.0),
        shore: None,
        moisture: b(0.2),
        forest: b(-0.5),
    }
}

#[test]
fn wild_cells_follow_the_rules() {
    let m = WildLimits {
        rock: b(0.9),
        scree: b(0.6),
        snow_max: b(0.8),
        marsh_moisture: b(0.85),
        forest_threshold: b(-0.1),
    };
    let id = |c: WildCell| c.material(&m).0;
    let c = wild_cell();
    assert_eq!(id(c), MaterialId::GRASS);
    assert_eq!(id(WildCell { forest: b(0.0), ..c }), MaterialId::FOREST_FLOOR);
    assert_eq!(id(WildCell { depth: Some(b(0.4)), slope: b(2.0), ..c }), MaterialId::SAND);
    assert_eq!(id(WildCell { depth: Some(b(0.5)), ..c }), MaterialId::MUD);
    assert_eq!(id(WildCell { slope: b(1.0), ..c }), MaterialId::ROCK);
    assert_eq!(id(WildCell { z: b(80.0), ..c }), MaterialId::SNOW);
    assert_eq!(id(WildCell { z: b(80.0), slope: b(0.85), ..c }), MaterialId::SCREE);
    assert_eq!(id(WildCell { z: b(60.0), ..c }), MaterialId::GRASS);
    assert_eq!(id(WildCell { shore: Some(b(10.5)), ..c }), MaterialId::SAND);
    assert_eq!(id(WildCell { shore: Some(b(10.0)), ..c }), MaterialId::GRASS);
    assert_eq!(id(WildCell { moisture: b(0.9), slope: b(0.01), ..c }), MaterialId::MUD);
}

#[test]
fn rural_cells_follow_the_rules() {
    let m = RuralLimits { rock: b(0.7), marsh_moisture: b(0.85), headland: b(2.0) };
    let c = RuralCell {
        depth: None,
        z: b(1.0),
        slope: b(0.1),
        shore: None,
        moisture: b(0.1),
        yard: false,
        pad: false,
        road: None,
        parcel: ParcelKind::Crop,
        edge: b(10.0),
    };
    let id = |c: RuralCell| c.material(&m).0;
    assert_eq!(id(c), MaterialId::CROP);
    assert_eq!(id(RuralCell { edge: b(1.0), ..c }), MaterialId::GRASS);
    assert_eq!(id(RuralCell { edge: b(1.0), parcel: ParcelKind::Woods, ..c }), MaterialId::FOREST_FLOOR);
    assert_eq!(id(RuralCell { parcel: ParcelKind::Meadow, ..c }), MaterialId::MEADOW);
    assert_eq!(id(RuralCell { parcel: ParcelKind::Plowed, ..c }), MaterialId::PLOWED);
    assert_eq!(id(RuralCell { pad: true, ..c }), MaterialId::GRASS);
    assert_eq!(id(RuralCell { yard: true, ..c }), MaterialId::CONCRETE);
    assert_eq!(id(RuralCell { road: Some((RoadClass::Paved, b(0.0))), slope: b(2.0), ..c }), MaterialId::ASPHALT);
    assert_eq!(id(RuralCell { road: Some((RoadClass::Gravel, b(-1.0))), ..c }), MaterialId::GRAVEL);
    assert_eq!(id(RuralCell { road: Some((RoadClass::Track, b(-1.0))), ..c }), MaterialId::DIRT);
    assert_eq!(id(RuralCell { road: Some((RoadClass::Track, b(1.0))), ..c }), MaterialId::GRASS);
    assert_eq!(id(RuralCell { road: Some((RoadClass::Track, b(3.0))), ..c }), MaterialId::CROP);
    assert_eq!(id(RuralCell { depth: Some(b(2.0)), yard: true, ..c }), MaterialId::MUD);
    assert_eq!(id(RuralCell { slope: b(1.0), ..c }), MaterialId::ROCK);
    assert_eq!(id(RuralCell { shore: Some(b(1.5)), ..c }), MaterialId::SAND);
    assert_eq!(id(RuralCell { moisture: b(0.9), slope: b(0.0), ..c }), MaterialId::MUD);
}

#[test]
fn materials_are_counted() {
    let cells: Vec<MaterialId> = [5, 0, 5, 200, 5].map(MaterialId).to_vec();
    assert_eq!(tally(&cells)[5], 3);
    let counts = material_counts(&MaterialTable::standard(), &cells);
    assert_eq!(counts, [("rock".to_owned(), 1), ("grass".to_owned(), 3), ("#200".to_owned(), 1)]);
    assert_eq!(counts.iter().map(|c| c.1).sum::<usize>(), cells.len());
    let field: Vec<MaterialId> = [MaterialId::CROP, MaterialId::GRASS, MaterialId::MEADOW, MaterialId::CROP].map(MaterialId).to_vec();
    assert_eq!(parcels_shown(&field, &vec![0, 1, 2, 2], 4), 2);
    let slopes = bits32(&[0.5, 0.1, 0.9, 0.3]);
    assert_eq!(f32::from_bits(in_place(&slopes, 2)), 0.5);
}

#[test]
fn parcels_are_chosen_and_located() {
    let kind = |uw: f64, slope: f64, u: f64| parcel_kind(b(uw), b(0.08), b(slope), b(0.3), b(u), b(0.35), b(0.75));
    assert_eq!(kind(0.05, 0.0, 0.1), ParcelKind::Woods);
    assert_eq!(kind(0.5, 0.4, 0.1), ParcelKind::Woods);
    assert_eq!(kind(0.5, 0.1, 0.1), ParcelKind::Meadow);
    assert_eq!(kind(0.5, 0.1, 0.35), ParcelKind::Crop);
    assert_eq!(kind(0.5, 0.1, 0.75), ParcelKind::Plowed);
    assert_eq!(neighbours(0, 0, 4), [0, 1, 2, 4, 5, 6, 8, 9, 10]);
    assert_eq!(neighbours(2, 3, 4), [4, 5, 6, 7, 8, 9, 10, 11, 12, 13, 14, 15]);
    assert!(neighbours(-3, 0, 4).is_empty());
    assert_eq!(locate(&vec![7, 3, 5], &vec![b(2.0), b(1.0), b(1.0)]), Some(1));
    assert_eq!(locate(&vec![7, 5, 3], &vec![b(2.0), b(1.0), b(1.0)]), Some(2));
    assert_eq!(locate(&vec![7, 5], &vec![b(f64::NAN), b(f64::INFINITY)]), Some(1));
    assert_eq!(locate(&vec![7], &vec![b(f64::NAN)]), None);
    assert_eq!(edge_number(2, 3, 10), 23);
}

#[test]
fn edges_and_roads_are_lined() {
    let at = |u: f64| boundary(ParcelKind::Crop, ParcelKind::Woods, b(u), b(0.4), b(0.7));
    assert_eq!((at(0.1), at(0.4), at(0.7)), (Boundary::Hedge, Boundary::Fence, Boundary::Open));
    assert_eq!(boundary(ParcelKind::Woods, ParcelKind::Woods, b(0.1), b(0.4), b(0.7)), Boundary::Open);
    let line = |u: f64, s: f64| tree_line(b(u), b(0.35), b(s));
    assert_eq!(line(0.35, 0.1), Sides::Neither);
    assert_eq!((line(0.1, 0.3), line(0.1, 0.5), line(0.1, 0.7)), (Sides::Both, Sides::Left, Sides::Right));
    let far = vec![b(90.0), b(80.0)];
    assert!(gate(ParcelKind::Crop, b(10.0), b(20.0), b(100.0), &far, b(50.0)));
    assert!(!gate(ParcelKind::Woods, b(10.0), b(20.0), b(100.0), &far, b(50.0)));
    assert!(!gate(ParcelKind::Crop, b(100.0), b(20.0), b(100.0), &far, b(50.0)));
    assert!(!gate(ParcelKind::Crop, b(10.0), b(20.0), b(100.0), &far, b(80.0)));
    assert!(all_beyond(&far, b(50.0)) && !all_beyond(&far, b(85.0)));
}

#[test]
fn obstacles_keep_clear() {
    let place = || Place {
        footprint: [b(1.0), b(1.0), b(2.0), b(2.0)],
        map: [b(0.0), b(0.0), b(10.0), b(10.0)],
        wet: false,
        road: None,
        yards: vec![b(5.0)],
        keep: b(1.5),
    };
    assert!(place().allows());
    assert!(!Place { wet: true, ..place() }.allows());
    assert!(!Place { footprint: [b(-0.5), b(1.0), b(2.0), b(2.0)], ..place() }.allows());
    assert!(!Place { footprint: [b(1.0), b(1.0), b(2.0), b(11.0)], ..place() }.allows());
    assert!(!Place { yards: vec![b(5.0), b(1.0)], ..place() }.allows());
    let gap = |d: f64, bottom: f64| {
        Some(RoadGap { distance: b(d), keep: b(3.0), bottom: b(bottom), ceiling: b(4.5) })
    };
    assert!(!Place { road: gap(2.0, 0.0), ..place() }.allows());
    assert!(Place { road: gap(2.0, 5.0), ..place() }.allows());
    assert!(Place { road: gap(3.0, 0.0), ..place() }.allows());
    assert_eq!(keep_clear(&vec![vec![true, true], vec![true, false], vec![], vec![true]]), [0, 2, 3]);
}

#[test]
fn farms_keep_their_distance() {
    assert!(site_fits(false, &vec![false, false], b(2.0), b(5.0)));
    assert!(!site_fits(true, &vec![], b(2.0), b(5.0)));
    assert!(!site_fits(false, &vec![false, true], b(2.0), b(5.0)));
    assert!(!site_fits(false, &vec![], b(5.5), b(5.0)));
    let x = [0.0f64, 3.0, 1.0, 7.0, 10.0];
    let choose = |spacing: f64, fit: [bool; 5]| {
        let mut s = Sites::new();
        for (p, fit) in x.iter().zip(fit) {
            let near = s.chosen().iter().map(|&c| b((p - x[c]).abs())).collect();
            let before = s.chosen().len();
            assert_eq!(s.offer(&near, b(spacing), fit), s.chosen().len() > before);
        }
        s.chosen().clone()
    };
    assert_eq!(choose(3.0, [true; 5]), [0, 1, 3, 4]);
    assert_eq!(choose(3.5, [true; 5]), [0, 3]);
    assert_eq!(choose(3.0, [false, true, true, true, true]), [1, 3, 4]);
}

#[test]
fn buckets_find_neighbours() {
    let mut s = SpatialHash::new(4, 3);
    assert_eq!(s.insert(0, 0), 0);
    assert_eq!(s.insert(3, 2), 1);
    assert_eq!(s.insert(0, 0), 2);
    assert_eq!(s.insert(-5, 99), 3);
    assert_eq!(s.len(), 4);
    assert_eq!(s.nearby(0, 0, 0), [2, 0]);
    assert_eq!(s.nearby(1, 1, 1), [2, 0, 3]);
    assert_eq!(s.nearby(0, 0, 9), [2, 0, 3, 1]);
    assert_eq!(s.nearby(3, 1, 1), [1]);
    assert!(s.nearby(-3, 0, 1).is_empty());
}

#[test]
fn trees_and_rocks_follow_the_ground() {
    let t = TreeSite {
        wet: false,
        material: MaterialId(MaterialId::FOREST_FLOOR),
        slope: b(0.1),
        z: b(10.0),
        treeline: b(50.0),
        draw: b(100.0),
    };
    let grows = |t: TreeSite| t.grows(b(0.7), b(350.0), b(6.0));
    assert!(grows(t));
    assert!(!grows(TreeSite { wet: true, ..t }));
    assert!(!grows(TreeSite { slope: b(0.8), ..t }));
    assert!(!grows(TreeSite { z: b(50.0), ..t }));
    assert!(!grows(TreeSite { draw: b(350.0), ..t }));
    assert!(!grows(TreeSite { material: MaterialId(MaterialId::GRASS), ..t }));
    assert!(grows(TreeSite { material: MaterialId(MaterialId::GRASS), draw: b(5.0), ..t }));
    assert!(!grows(TreeSite { material: MaterialId(MaterialId::ROCK), draw: 0, ..t }));
    assert!(rock_lies(false, MaterialId(MaterialId::SCREE), b(120.0), b(2.0), b(50.0)));
    assert!(!rock_lies(false, MaterialId(MaterialId::GRASS), b(120.0), b(2.0), b(50.0)));
    assert!(!rock_lies(true, MaterialId(MaterialId::ROCK), b(120.0), b(2.0), b(50.0)));
}

/// The cheapest path over unit costs, by the length of each move.
fn route(g: &RouteGrid, start: usize, goal: usize) -> Option<Vec<usize>> {
    let mut ws = Search::new(g);
    ws.begin(g, start, 0);
    while let Some((f, s)) = ws.pop(g) {
        let cost = f64::from_bits(ws.cost(s));
        if f64::from_bits(f) > cost + 1e-9 {
            continue;
        }
        let v = s / 16;
        if v == goal && v != start {
            return Some(ws.path(g, s));
        }
        for m in g.successors(s) {
            let w = m.state / 16;
            let d = |a: usize, c: usize| (a % g.m).abs_diff(c % g.m).pow(2) + (a / g.m).abs_diff(c / g.m).pow(2);
            let next = cost + (d(v, w) as f64).sqrt() + (m.turn * m.turn) as f64 * 0.01;
            if ws.offer(g, s, m.state, b(next)) {
                ws.push(g, m.state, b(next));
            }
        }
    }
    None
}

#[test]
fn routes_avoid_what_is_blocked() {
    let m = 9;
    let mut blocked = vec![false; m * m];
    for y in 0..8 {
        blocked[y * m + 4] = true;
    }
    let g = RouteGrid::new(m, blocked.clone());
    let p = route(&g, 0, 8).expect("there is a way round");
    assert_eq!((p[0], *p.last().unwrap()), (0, 8));
    assert!(p.iter().all(|&v| !blocked[v]));
    assert!(p.iter().any(|&v| v / m == 8));
    blocked[8 * m + 4] = true;
    assert!(route(&RouteGrid::new(m, blocked), 0, 8).is_none());
    let open = RouteGrid::new(m, vec![false; m * m]);
    assert_eq!(route(&open, 0, 8).unwrap(), [0, 1, 2, 3, 4, 5, 6, 7, 8]);
    assert_eq!(open.step(0, 8), None);
    assert_eq!(open.step(0, 0), Some(1));
}

#[test]
fn pads_are_avoided_by_other_roads() {
    let mut g = RouteGrid::new(2, vec![false; 4]);
    g.mark_pad(4, &vec![true, false, true, false]);
    g.mark_pad(7, &vec![true, true, false, false]);
    assert_eq!(g.pad, [5, 8, 5, 0]);
    assert!(g.avoids(0, 0) && !g.avoids(0, 5) && !g.avoids(3, 0));
    assert_eq!(leg_of(RoadClass::Gravel, 4), (NodeKind::Yard, 5));
    assert_eq!(leg_of(RoadClass::Track, 4), (NodeKind::Gate, 0));
}

#[test]
fn networks_are_connected() {
    let mut n = Network::new(9);
    n.add_main(vec![3, 4, 5]);
    n.connect(2, RoadClass::Gravel, vec![1, 4]);
    n.connect(0, RoadClass::Track, vec![7, 4]);
    assert_eq!(n.on_road, [false, true, false, true, true, true, false, true, false]);
    assert_eq!(n.farms, [(2, 2)]);
    assert_eq!(n.plan.len(), 5);
    assert_eq!(n.plan.count(NodeKind::Junction), 1);
    assert_eq!(n.plan.count(NodeKind::Gate), 1);
    assert_eq!(n.plan.kind(2), NodeKind::Yard);
    let pieces: Vec<_> = n.paths.iter().flat_map(|p| n.plan.split(p)).collect();
    let ends: Vec<(u32, u32)> = pieces.iter().map(|p| (p.start, p.end)).collect();
    assert_eq!(ends, [(0, 3), (3, 1), (2, 3), (4, 3)]);
    assert_eq!(pieces[1].vertices, [4, 5]);
    assert_eq!(count_class(&pieces, RoadClass::Paved), 2);
    assert_eq!(count_class(&pieces, RoadClass::Track), 1);
    // From the farm's node the pieces lead to both ends of the main road.
    let mut reached = vec![n.farms[0].1];
    for _ in 0..pieces.len() {
        for &(a, z) in &ends {
            for (from, to) in [(a, z), (z, a)] {
                if reached.contains(&from) && !reached.contains(&to) {
                    reached.push(to);
                }
            }
        }
    }
    assert!(reached.contains(&0) && reached.contains(&1));
}

#[test]
fn roads_are_ordered_and_graded() {
    assert_eq!(nearest_first(&vec![b(3.0), b(1.0), b(2.0), b(1.0)]), [1, 3, 2, 0]);
    assert!(wants_road(false, false, b(5.0), b(5.0)) && !wants_road(false, false, b(4.0), b(5.0)));
    assert!(!wants_road(true, false, b(5.0), b(0.0)) && !wants_road(false, true, b(5.0), b(0.0)));
    assert!(along_x(0, 0) && !along_x(1, 0) && !along_x(0, 1) && along_x(1, 3));
    let (t, f) = (true, false);
    assert_eq!(ramp(&vec![t, t, f, f, f], &vec![f, f, f, f, t]), (1, 5));
    assert_eq!(ramp(&vec![f, f, f], &vec![f, f, f]), (0, 3));
    assert_eq!(ramp(&vec![t, t, t], &vec![f, f, f]), (0, 3));
    assert_eq!(shares(false, false), Some((1, 1)));
    assert_eq!((shares(true, false), shares(false, true), shares(true, true)), (Some((0, 2)), Some((2, 0)), None));
}

#[test]
fn previews_are_north_up() {
    let mut i = Image::new(7, 4, 2);
    i.paint(0, 0, (1, 2, 3));
    i.dot(2, 1, (4, 5, 6));
    i.dot(3, 0, (9, 9, 9));
    i.dot(-1, 0, (9, 9, 9));
    let want: Vec<u8> = b"P6\n3 2\n255\n"
        .iter()
        .copied()
        .chain([0, 0, 0, 0, 0, 0, 4, 5, 6, 1, 2, 3, 0, 0, 0, 0, 0, 0])
        .collect();
    assert_eq!(i.to_ppm(), want);
    let mut i = Image::new(4, 4, 1);
    i.stamp(0, 3, 1, (7, 7, 7));
    let p = i.to_ppm();
    assert_eq!(p.iter().filter(|&&v| v == 7).count(), 12);
    assert_eq!(&p[p.len() - 48..p.len() - 42], [7, 7, 7, 7, 7, 7]);
}

#[test]
fn obstacles_are_marked_and_listed() {
    assert_eq!(mark(Tag::Hedge, Shape::Cuboid, false), Mark::Footprint((40, 90, 35)));
    assert_eq!(mark(Tag::Hedge, Shape::Cuboid, true), Mark::Nothing);
    assert_eq!(mark(Tag::Silo, Shape::Cylinder, true), Mark::Footprint((200, 200, 205)));
    assert_eq!(mark(Tag::Silo, Shape::Cuboid, true), Mark::Nothing);
    assert_eq!(mark(Tag::Rock, Shape::Other, true), Mark::Square((150, 150, 150), 0));
    assert_eq!(mark(Tag::Trunk, Shape::Other, true), Mark::Nothing);
    assert_eq!(count_tags(&vec![9, 2, 9, 9]), [(2, 1), (9, 3)]);
    assert_eq!(obstacle_list(&vec![]), "none");
    assert_eq!(
        obstacle_list(&vec![(Tag::CanopyBroadleaf, 3), (Tag::Other(77), 1)]),
        "3 broadleaf crowns, 1 tag 77"
    );
    assert_eq!(road_list(true, 0, 0, 0, "", "", "", 0), "none");
    assert_eq!(
        road_list(false, 2, 0, 10, "1.25", "0.00", "3.50", 14),
        "2 paved (1.25 km), 10 track (3.50 km), 14 nodes"
    );
}
