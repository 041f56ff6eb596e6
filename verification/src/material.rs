//! Surface materials shared by contacts, sensors and previews.
//!
//! Properties are the bits of numbers, so that the table is exact.

use vstd::prelude::*;

use crate::text;

verus! {

/// Index into a [`MaterialTable`]. The constants are the indices of the built-in materials.
#[derive(Clone, Copy, Debug, Default, PartialEq, Eq, Structural, PartialOrd, Ord, Hash)]
pub struct MaterialId(pub u8);

impl MaterialId {
    pub const ROCK: u8 = 0;

    pub const SCREE: u8 = 1;

    pub const SNOW: u8 = 2;

    pub const SAND: u8 = 3;

    pub const MUD: u8 = 4;

    pub const GRASS: u8 = 5;

    pub const FOREST_FLOOR: u8 = 6;

    pub const WATER: u8 = 7;

    pub const ASPHALT: u8 = 8;

    pub const CONCRETE: u8 = 9;

    pub const GRAVEL: u8 = 10;

    pub const DIRT: u8 = 11;

    pub const WOOD: u8 = 12;

    pub const FOLIAGE: u8 = 13;

    pub const METAL: u8 = 14;

    /// Farmland, in the rural table only.
    pub const MEADOW: u8 = 15;

    pub const CROP: u8 = 16;

    /// Freshly plowed soil: loose and soft.
    pub const PLOWED: u8 = 17;
}

/// Bekker–Wong parameters of a deformable soil, as the bits of numbers.
#[derive(Clone, Copy, Debug, PartialEq, Eq, Structural)]
pub struct Soil {
    /// Exponent of the pressure–sinkage law.
    pub n: u64,
    /// Cohesive and frictional moduli of the law (N/m^(n+1) and N/m^(n+2)).
    pub k_c: u64,
    pub k_phi: u64,
    /// Cohesion (Pa).
    pub cohesion: u64,
    /// Angle of internal friction (rad).
    pub friction_angle: u64,
    /// Shear deformation modulus (m).
    pub shear_modulus: u64,
    /// Bulk density (kg/m³).
    pub density: u64,
}

/// The soil of a built-in material, by name.
pub open spec fn soil_of(name: Seq<char>) -> Option<Soil> {
    if name == "sand"@ {
        Some(sand())
    } else if name == "mud"@ {
        Some(mud())
    } else if name == "snow"@ {
        Some(snow())
    } else if name == "meadow"@ {
        Some(meadow())
    } else if name == "crop"@ {
        Some(crop())
    } else if name == "plowed"@ {
        Some(plowed())
    } else {
        None
    }
}

/// Dry sand:
/// n = 1.1, k_c = 0.99 kN, k_φ = 1528.43 kN, c = 1.04 kPa, φ = 28°, K = 0.025 m, ρ = 1600 kg/m³.
pub open spec fn sand() -> Soil {
    Soil {
        n: 0x3ff199999999999a,
        k_c: 0x408ef00000000000,
        k_phi: 0x4137526e00000000,
        cohesion: 0x4090400000000000,
        friction_angle: 0x3fdf46bb9c109324,
        shear_modulus: 0x3f9999999999999a,
        density: 0x4099000000000000,
    }
}

/// Remoulded clayey soil, weak in friction:
/// n = 0.5, k_c = 13.19 kN, k_φ = 692.15 kN, c = 4.14 kPa, φ = 13°, K = 0.025 m, ρ = 1800 kg/m³.
pub open spec fn mud() -> Soil {
    Soil {
        n: 0x3fe0000000000000,
        k_c: 0x40c9c30000000000,
        k_phi: 0x41251f6c00000000,
        cohesion: 0x40b02c0000000000,
        friction_angle: 0x3fcd0ad2c7c63f7d,
        shear_modulus: 0x3f9999999999999a,
        density: 0x409c200000000000,
    }
}

/// Snow:
/// n = 1.6, k_c = 4.37 kN, k_φ = 196.72 kN, c = 1.03 kPa, φ = 19.7°, K = 0.04 m, ρ = 300 kg/m³.
pub open spec fn snow() -> Soil {
    Soil {
        n: 0x3ff999999999999a,
        k_c: 0x40b1120000000000,
        k_phi: 0x4108038000000000,
        cohesion: 0x4090180000000000,
        friction_angle: 0x3fd6014ef7dc1e61,
        shear_modulus: 0x3fa47ae147ae147b,
        density: 0x4072c00000000000,
    }
}

/// Grenville loam:
/// n = 1.01, k_c = 0.06 kN, k_φ = 5880 kN, c = 3.1 kPa, φ = 29.8°, K = 0.01 m, ρ = 1500 kg/m³.
pub open spec fn meadow() -> Soil {
    Soil {
        n: 0x3ff028f5c28f5c29,
        k_c: 0x404e000000000000,
        k_phi: 0x41566e3000000000,
        cohesion: 0x40a8380000000000,
        friction_angle: 0x3fe0a4b9c729bc04,
        shear_modulus: 0x3f847ae147ae147b,
        density: 0x4097700000000000,
    }
}

/// Rubicon sandy loam:
/// n = 0.66, k_c = 6.9 kN, k_φ = 752 kN, c = 3.7 kPa, φ = 30.2°, K = 0.015 m, ρ = 1500 kg/m³.
pub open spec fn crop() -> Soil {
    Soil {
        n: 0x3fe51eb851eb851f,
        k_c: 0x40baf40000000000,
        k_phi: 0x4126f30000000000,
        cohesion: 0x40ace80000000000,
        friction_angle: 0x3fe0ddeaa9312ac7,
        shear_modulus: 0x3f8eb851eb851eb8,
        density: 0x4097700000000000,
    }
}

/// Upland sandy loam, loosened:
/// n = 1.1, k_c = 74.6 kN, k_φ = 2080 kN, c = 3.3 kPa, φ = 33.7°, K = 0.025 m, ρ = 1300 kg/m³.
pub open spec fn plowed() -> Soil {
    Soil {
        n: 0x3ff199999999999a,
        k_c: 0x40f2368000000000,
        k_phi: 0x413fbd0000000000,
        cohesion: 0x40a9c80000000000,
        friction_angle: 0x3fe2d25662f233fa,
        shear_modulus: 0x3f9999999999999a,
        density: 0x4094500000000000,
    }
}

impl Soil {
    /// The soil of a built-in material, by name; the others are rigid.
    pub fn of_material(name: &str) -> (r: Option<Soil>)
        ensures
            r == soil_of(name@),
    {
        if text::same(name, "sand") {
            Some(
                Soil {
                    n: 0x3ff199999999999a,
                    k_c: 0x408ef00000000000,
                    k_phi: 0x4137526e00000000,
                    cohesion: 0x4090400000000000,
                    friction_angle: 0x3fdf46bb9c109324,
                    shear_modulus: 0x3f9999999999999a,
                    density: 0x4099000000000000,
                },
            )
        } else if text::same(name, "mud") {
            Some(
                Soil {
                    n: 0x3fe0000000000000,
                    k_c: 0x40c9c30000000000,
                    k_phi: 0x41251f6c00000000,
                    cohesion: 0x40b02c0000000000,
                    friction_angle: 0x3fcd0ad2c7c63f7d,
                    shear_modulus: 0x3f9999999999999a,
                    density: 0x409c200000000000,
                },
            )
        } else if text::same(name, "snow") {
            Some(
                Soil {
                    n: 0x3ff999999999999a,
                    k_c: 0x40b1120000000000,
                    k_phi: 0x4108038000000000,
                    cohesion: 0x4090180000000000,
                    friction_angle: 0x3fd6014ef7dc1e61,
                    shear_modulus: 0x3fa47ae147ae147b,
                    density: 0x4072c00000000000,
                },
            )
        } else if text::same(name, "meadow") {
            Some(
                Soil {
                    n: 0x3ff028f5c28f5c29,
                    k_c: 0x404e000000000000,
                    k_phi: 0x41566e3000000000,
                    cohesion: 0x40a8380000000000,
                    friction_angle: 0x3fe0a4b9c729bc04,
                    shear_modulus: 0x3f847ae147ae147b,
                    density: 0x4097700000000000,
                },
            )
        } else if text::same(name, "crop") {
            Some(
                Soil {
                    n: 0x3fe51eb851eb851f,
                    k_c: 0x40baf40000000000,
                    k_phi: 0x4126f30000000000,
                    cohesion: 0x40ace80000000000,
                    friction_angle: 0x3fe0ddeaa9312ac7,
                    shear_modulus: 0x3f8eb851eb851eb8,
                    density: 0x4097700000000000,
                },
            )
        } else if text::same(name, "plowed") {
            Some(
                Soil {
                    n: 0x3ff199999999999a,
                    k_c: 0x40f2368000000000,
                    k_phi: 0x413fbd0000000000,
                    cohesion: 0x40a9c80000000000,
                    friction_angle: 0x3fe2d25662f233fa,
                    shear_modulus: 0x3f9999999999999a,
                    density: 0x4094500000000000,
                },
            )
        } else {
            None
        }
    }
}

/// Physical and visual properties of a surface; the numbers by their bits.
#[derive(Clone, Debug, PartialEq)]
pub struct Material {
    pub name: String,
    /// Coulomb friction coefficient.
    pub friction: u64,
    /// Rolling-resistance coefficient for pneumatic tyres.
    pub rolling_resistance: u64,
    /// Scale on the contact natural frequency.
    pub stiffness_scale: u64,
    /// Diffuse reflectivity.
    pub reflectivity: u64,
    /// Albedo in previews.
    pub color: [u8; 3],
    /// Deformable soil under tracks, if it is not rigid.
    pub soil: Option<Soil>,
}

/// The row of a material in a table: name, friction, rolling resistance, stiffness scale,
/// reflectivity and colour.
pub struct Row {
    pub name: Seq<char>,
    pub friction: u64,
    pub rolling_resistance: u64,
    pub stiffness_scale: u64,
    pub reflectivity: u64,
    pub color: (u8, u8, u8),
}

pub open spec fn row(
    name: Seq<char>,
    friction: u64,
    rolling_resistance: u64,
    stiffness_scale: u64,
    reflectivity: u64,
    color: (u8, u8, u8),
) -> Row {
    Row { name, friction, rolling_resistance, stiffness_scale, reflectivity, color }
}

impl View for Material {
    type V = Row;

    open spec fn view(&self) -> Row {
        row(
            self.name@,
            self.friction,
            self.rolling_resistance,
            self.stiffness_scale,
            self.reflectivity,
            (self.color@[0], self.color@[1], self.color@[2]),
        )
    }
}

/// The built-in materials: those of any map, then farmland.
pub open spec fn builtin(i: int) -> Row {
    if i == 0 {
        // 0.7, 0.015, 1, 0.35
        row("rock"@, 0x3fe6666666666666, 0x3f8eb851eb851eb8, 0x3ff0000000000000, 0x3fd6666666666666, (120, 116, 110))
    } else if i == 1 {
        // 0.55, 0.04, 0.8, 0.3
        row("scree"@, 0x3fe199999999999a, 0x3fa47ae147ae147b, 0x3fe999999999999a, 0x3fd3333333333333, (145, 138, 128))
    } else if i == 2 {
        // 0.25, 0.06, 0.4, 0.8
        row("snow"@, 0x3fd0000000000000, 0x3faeb851eb851eb8, 0x3fd999999999999a, 0x3fe999999999999a, (235, 238, 242))
    } else if i == 3 {
        // 0.5, 0.15, 0.5, 0.45
        row("sand"@, 0x3fe0000000000000, 0x3fc3333333333333, 0x3fe0000000000000, 0x3fdccccccccccccd, (214, 196, 150))
    } else if i == 4 {
        // 0.35, 0.12, 0.3, 0.15
        row("mud"@, 0x3fd6666666666666, 0x3fbeb851eb851eb8, 0x3fd3333333333333, 0x3fc3333333333333, (96, 78, 58))
    } else if i == 5 {
        // 0.45, 0.05, 0.7, 0.4
        row("grass"@, 0x3fdccccccccccccd, 0x3fa999999999999a, 0x3fe6666666666666, 0x3fd999999999999a, (92, 128, 60))
    } else if i == 6 {
        // 0.55, 0.06, 0.6, 0.25
        row("forest_floor"@, 0x3fe199999999999a, 0x3faeb851eb851eb8, 0x3fe3333333333333, 0x3fd0000000000000, (78, 70, 48))
    } else if i == 7 {
        // 0.05, 0.3, 0.1, 0.05
        row("water"@, 0x3fa999999999999a, 0x3fd3333333333333, 0x3fb999999999999a, 0x3fa999999999999a, (52, 92, 130))
    } else if i == 8 {
        // 0.8, 0.013, 1, 0.1
        row("asphalt"@, 0x3fe999999999999a, 0x3f8a9fbe76c8b439, 0x3ff0000000000000, 0x3fb999999999999a, (60, 60, 64))
    } else if i == 9 {
        // 0.75, 0.012, 1, 0.4
        row("concrete"@, 0x3fe8000000000000, 0x3f889374bc6a7efa, 0x3ff0000000000000, 0x3fd999999999999a, (170, 168, 160))
    } else if i == 10 {
        // 0.6, 0.02, 0.8, 0.35
        row("gravel"@, 0x3fe3333333333333, 0x3f947ae147ae147b, 0x3fe999999999999a, 0x3fd6666666666666, (150, 142, 130))
    } else if i == 11 {
        // 0.6, 0.03, 0.7, 0.25
        row("dirt"@, 0x3fe3333333333333, 0x3f9eb851eb851eb8, 0x3fe6666666666666, 0x3fd0000000000000, (126, 100, 72))
    } else if i == 12 {
        // 0.5, 0.02, 1, 0.3
        row("wood"@, 0x3fe0000000000000, 0x3f947ae147ae147b, 0x3ff0000000000000, 0x3fd3333333333333, (104, 78, 52))
    } else if i == 13 {
        // 0.3, 0.1, 1, 0.5
        row("foliage"@, 0x3fd3333333333333, 0x3fb999999999999a, 0x3ff0000000000000, 0x3fe0000000000000, (60, 110, 50))
    } else if i == 14 {
        // 0.4, 0.01, 1, 0.6
        row("metal"@, 0x3fd999999999999a, 0x3f847ae147ae147b, 0x3ff0000000000000, 0x3fe3333333333333, (180, 182, 188))
    } else if i == 15 {
        // 0.45, 0.06, 0.6, 0.4
        row("meadow"@, 0x3fdccccccccccccd, 0x3faeb851eb851eb8, 0x3fe3333333333333, 0x3fd999999999999a, (118, 150, 72))
    } else if i == 16 {
        // 0.45, 0.08, 0.5, 0.45
        row("crop"@, 0x3fdccccccccccccd, 0x3fb47ae147ae147b, 0x3fe0000000000000, 0x3fdccccccccccccd, (196, 176, 92))
    } else {
        // 0.5, 0.14, 0.3, 0.2
        row("plowed"@, 0x3fe0000000000000, 0x3fc1eb851eb851ec, 0x3fd3333333333333, 0x3fc999999999999a, (112, 86, 62))
    }
}

impl Material {
    /// A material, with the soil that belongs to its name.
    pub fn new(
        name: &str,
        friction: u64,
        rolling_resistance: u64,
        stiffness_scale: u64,
        reflectivity: u64,
        color: [u8; 3],
    ) -> (m: Material)
        ensures
            m@ == row(
                name@,
                friction,
                rolling_resistance,
                stiffness_scale,
                reflectivity,
                (color@[0], color@[1], color@[2]),
            ),
            m.soil == soil_of(name@),
    {
        Material {
            name: name.to_owned(),
            friction,
            rolling_resistance,
            stiffness_scale,
            reflectivity,
            color,
            soil: Soil::of_material(name),
        }
    }
}

/// Materials indexed by [`MaterialId`].
#[derive(Clone, Debug, PartialEq)]
pub struct MaterialTable {
    materials: Vec<Material>,
}

impl View for MaterialTable {
    type V = Seq<Material>;

    closed spec fn view(&self) -> Seq<Material> {
        self.materials@
    }
}

/// Whether a table starts with the first `n` built-in materials, each with its soil.
pub open spec fn starts_builtin(t: Seq<Material>, n: int) -> bool {
    &&& t.len() >= n
    &&& forall|i: int|
        0 <= i < n ==> (#[trigger] t[i])@ == builtin(i) && t[i].soil == soil_of(builtin(i).name)
}

impl MaterialTable {
    /// Ids are bytes.
    pub open spec fn wf(&self) -> bool {
        self@.len() <= 256
    }

    /// A table without materials.
    pub fn empty() -> (t: MaterialTable)
        ensures
            t@ == Seq::<Material>::empty(),
    {
        MaterialTable { materials: Vec::new() }
    }

    /// The built-in table; indices match the [`MaterialId`] constants.
    pub fn standard() -> (t: MaterialTable)
        ensures
            t.wf(),
            t@.len() == 15,
            starts_builtin(t@, 15),
    {
        let mut t = MaterialTable::empty();
        // 0.7, 0.015, 1, 0.35
        let _ = t.push(Material::new("rock", 0x3fe6666666666666, 0x3f8eb851eb851eb8, 0x3ff0000000000000, 0x3fd6666666666666, [120, 116, 110]));
        // 0.55, 0.04, 0.8, 0.3
        let _ = t.push(Material::new("scree", 0x3fe199999999999a, 0x3fa47ae147ae147b, 0x3fe999999999999a, 0x3fd3333333333333, [145, 138, 128]));
        // 0.25, 0.06, 0.4, 0.8
        let _ = t.push(Material::new("snow", 0x3fd0000000000000, 0x3faeb851eb851eb8, 0x3fd999999999999a, 0x3fe999999999999a, [235, 238, 242]));
        // 0.5, 0.15, 0.5, 0.45
        let _ = t.push(Material::new("sand", 0x3fe0000000000000, 0x3fc3333333333333, 0x3fe0000000000000, 0x3fdccccccccccccd, [214, 196, 150]));
        // 0.35, 0.12, 0.3, 0.15
        let _ = t.push(Material::new("mud", 0x3fd6666666666666, 0x3fbeb851eb851eb8, 0x3fd3333333333333, 0x3fc3333333333333, [96, 78, 58]));
        // 0.45, 0.05, 0.7, 0.4
        let _ = t.push(Material::new("grass", 0x3fdccccccccccccd, 0x3fa999999999999a, 0x3fe6666666666666, 0x3fd999999999999a, [92, 128, 60]));
        // 0.55, 0.06, 0.6, 0.25
        let _ = t.push(Material::new("forest_floor", 0x3fe199999999999a, 0x3faeb851eb851eb8, 0x3fe3333333333333, 0x3fd0000000000000, [78, 70, 48]));
        // 0.05, 0.3, 0.1, 0.05
        let _ = t.push(Material::new("water", 0x3fa999999999999a, 0x3fd3333333333333, 0x3fb999999999999a, 0x3fa999999999999a, [52, 92, 130]));
        // 0.8, 0.013, 1, 0.1
        let _ = t.push(Material::new("asphalt", 0x3fe999999999999a, 0x3f8a9fbe76c8b439, 0x3ff0000000000000, 0x3fb999999999999a, [60, 60, 64]));
        // 0.75, 0.012, 1, 0.4
        let _ = t.push(Material::new("concrete", 0x3fe8000000000000, 0x3f889374bc6a7efa, 0x3ff0000000000000, 0x3fd999999999999a, [170, 168, 160]));
        // 0.6, 0.02, 0.8, 0.35
        let _ = t.push(Material::new("gravel", 0x3fe3333333333333, 0x3f947ae147ae147b, 0x3fe999999999999a, 0x3fd6666666666666, [150, 142, 130]));
        // 0.6, 0.03, 0.7, 0.25
        let _ = t.push(Material::new("dirt", 0x3fe3333333333333, 0x3f9eb851eb851eb8, 0x3fe6666666666666, 0x3fd0000000000000, [126, 100, 72]));
        // 0.5, 0.02, 1, 0.3
        let _ = t.push(Material::new("wood", 0x3fe0000000000000, 0x3f947ae147ae147b, 0x3ff0000000000000, 0x3fd3333333333333, [104, 78, 52]));
        // 0.3, 0.1, 1, 0.5
        let _ = t.push(Material::new("foliage", 0x3fd3333333333333, 0x3fb999999999999a, 0x3ff0000000000000, 0x3fe0000000000000, [60, 110, 50]));
        // 0.4, 0.01, 1, 0.6
        let _ = t.push(Material::new("metal", 0x3fd999999999999a, 0x3f847ae147ae147b, 0x3ff0000000000000, 0x3fe3333333333333, [180, 182, 188]));
        t
    }

    /// The standard table and farmland.
    pub fn rural() -> (t: MaterialTable)
        ensures
            t.wf(),
            t@.len() == 18,
            starts_builtin(t@, 18),
    {
        let mut t = MaterialTable::standard();
        // 0.45, 0.06, 0.6, 0.4
        let _ = t.push(Material::new("meadow", 0x3fdccccccccccccd, 0x3faeb851eb851eb8, 0x3fe3333333333333, 0x3fd999999999999a, [118, 150, 72]));
        // 0.45, 0.08, 0.5, 0.45
        let _ = t.push(Material::new("crop", 0x3fdccccccccccccd, 0x3fb47ae147ae147b, 0x3fe0000000000000, 0x3fdccccccccccccd, [196, 176, 92]));
        // 0.5, 0.14, 0.3, 0.2
        let _ = t.push(Material::new("plowed", 0x3fe0000000000000, 0x3fc1eb851eb851ec, 0x3fd3333333333333, 0x3fc999999999999a, [112, 86, 62]));
        t
    }

    /// The table of stored materials: soils are not stored but belong to the names.
    pub fn restored(materials: Vec<Material>) -> (t: MaterialTable)
        requires
            materials@.len() <= 256,
        ensures
            t.wf(),
            t@.len() == materials@.len(),
            forall|i: int|
                0 <= i < materials@.len() ==> (#[trigger] t@[i])@ == materials@[i]@ && t@[i].soil
                    == soil_of(materials@[i].name@),
    {
        let mut t = MaterialTable { materials };
        let n: usize = t.materials.len();
        let mut i: usize = 0;
        while i < n
            invariant
                i <= n == t.materials@.len() == materials@.len(),
                forall|j: int|
                    0 <= j < n ==> (#[trigger] t.materials@[j])@ == materials@[j]@
                        && t.materials@[j].name == materials@[j].name,
                forall|j: int|
                    0 <= j < i ==> (#[trigger] t.materials@[j]).soil == soil_of(
                        materials@[j].name@,
                    ),
            decreases n - i,
        {
            let soil = Soil::of_material(t.materials[i].name.as_str());
            t.materials[i].soil = soil;
            i += 1;
        }
        t
    }

    pub fn get(&self, id: MaterialId) -> (m: &Material)
        requires
            id.0 < self@.len(),
        ensures
            *m == self@[id.0 as int],
    {
        &self.materials[id.0 as usize]
    }

    /// The first material with a name.
    pub fn find(&self, name: &str) -> (r: Option<MaterialId>)
        requires
            self.wf(),
        ensures
            r is None <==> forall|i: int| 0 <= i < self@.len() ==> (#[trigger] self@[i]).name@ != name@,
            r matches Some(id) ==> {
                &&& id.0 < self@.len()
                &&& self@[id.0 as int].name@ == name@
                &&& forall|i: int| 0 <= i < id.0 ==> (#[trigger] self@[i]).name@ != name@
            },
    {
        let mut i: usize = 0;
        while i < self.materials.len()
            invariant
                i <= self.materials@.len() <= 256,
                forall|j: int| 0 <= j < i ==> (#[trigger] self.materials@[j]).name@ != name@,
            decreases self.materials@.len() - i,
        {
            if text::same(self.materials[i].name.as_str(), name) {
                return Some(MaterialId(i as u8));
            }
            i += 1;
        }
        None
    }

    pub fn len(&self) -> (n: usize)
        ensures
            n == self@.len(),
    {
        self.materials.len()
    }

    pub fn is_empty(&self) -> (r: bool)
        ensures
            r == (self@.len() == 0),
    {
        self.materials.len() == 0
    }

    /// Adds a material and returns its id.
    pub fn push(&mut self, material: Material) -> (id: MaterialId)
        requires
            old(self)@.len() < 256,
        ensures
            final(self)@ == old(self)@.push(material),
            final(self).wf(),
            id.0 == old(self)@.len(),
    {
        self.materials.push(material);
        MaterialId((self.materials.len() - 1) as u8)
    }
}

impl Default for MaterialTable {
    /// The built-in table.
    fn default() -> (t: MaterialTable)
        ensures
            t.wf(),
            t@.len() == 15,
            starts_builtin(t@, 15),
    {
        MaterialTable::standard()
    }
}

/// No two built-in materials have the same name, so looking a name up gives its own id.
pub proof fn lemma_builtin_names_differ(i: int, j: int)
    requires
        0 <= i < j < 18,
    ensures
        builtin(i).name != builtin(j).name,
{
    reveal_strlit("rock");
    reveal_strlit("scree");
    reveal_strlit("snow");
    reveal_strlit("sand");
    reveal_strlit("mud");
    reveal_strlit("grass");
    reveal_strlit("forest_floor");
    reveal_strlit("water");
    reveal_strlit("asphalt");
    reveal_strlit("concrete");
    reveal_strlit("gravel");
    reveal_strlit("dirt");
    reveal_strlit("wood");
    reveal_strlit("foliage");
    reveal_strlit("metal");
    reveal_strlit("meadow");
    reveal_strlit("crop");
    reveal_strlit("plowed");
    let (a, b) = (builtin(i).name, builtin(j).name);
    assert(a.len() != b.len() || a[0] != b[0] || a[1] != b[1]);
}

} // verus!
