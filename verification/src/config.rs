//! Configurations of the map generators, and what is wrong with them.
//!
//! Every number is given by the bits of a 64-bit number. Quotients and sums that a check needs are
//! handed in by the caller, who computes them.

use vstd::prelude::*;
use vstd::string::StringExecFns;

use crate::ieee;
use crate::noise::Fractal;
use crate::roads::RoadClass;
use crate::text;

verus! {

/// Bumped whenever the wild map for a given configuration and seed changes.
pub const WILD_VERSION: u32 = 1;

/// Bumped whenever the rural map for a given configuration and seed changes.
pub const RURAL_VERSION: u32 = 4;

/// The bits of 1.
pub const ONE: u64 = 0x3ff0_0000_0000_0000;

pub open spec fn positive(v: u64) -> bool {
    ieee::lt64(0, v)
}

pub fn is_positive(v: u64) -> (r: bool)
    ensures
        r == positive(v),
{
    ieee::is_lt64(0, v)
}

pub open spec fn non_negative(v: u64) -> bool {
    ieee::le64(0, v)
}

pub fn is_non_negative(v: u64) -> (r: bool)
    ensures
        r == non_negative(v),
{
    ieee::is_le64(0, v)
}

/// Whether a number lies in `[0, 1]`.
pub open spec fn in_unit(v: u64) -> bool {
    ieee::le64(0, v) && ieee::le64(v, ONE)
}

pub fn is_in_unit(v: u64) -> (r: bool)
    ensures
        r == in_unit(v),
{
    ieee::is_le64(0, v) && ieee::is_le64(v, ONE)
}

/// Large-scale shape: rolling hills, ridged mountains where a low-frequency mask says so, and two
/// levels of domain warping.
#[derive(Clone, Copy, Debug, PartialEq, Eq)]
pub struct TerrainConfig {
    /// Height scale (m).
    pub relief: u64,
    /// Noise periods (m) and amplitudes (fractions of the relief).
    pub hills_wavelength: u64,
    pub hills_amplitude: u64,
    pub hills: Fractal,
    pub mountains_wavelength: u64,
    pub mountains_amplitude: u64,
    pub mountains: Fractal,
    /// Wavelength of the mask that chooses between hills and mountains (m), and the value above which
    /// mountains dominate.
    pub mask_wavelength: u64,
    pub mask_threshold: u64,
    /// The warp and its largest displacement (m).
    pub warp_wavelength: u64,
    pub warp_strength: u64,
    /// Fine noise added at the final resolution.
    pub detail_amplitude: u64,
    pub detail_wavelength: u64,
}

impl TerrainConfig {
    /// The values that a file need not give.
    pub open spec fn defaults() -> TerrainConfig {
        TerrainConfig {
            relief: 0x4072_c000_0000_0000,
            hills_wavelength: 0x4089_0000_0000_0000,
            hills_amplitude: 0x3fd0_0000_0000_0000,
            hills: Fractal { octaves: 5, lacunarity: 0x4000_0000_0000_0000, gain: 0x3fd9_9999_9999_999a },
            mountains_wavelength: 0x4099_0000_0000_0000,
            mountains_amplitude: 0x3fec_cccc_cccc_cccd,
            mountains: Fractal { octaves: 6, lacunarity: 0x4000_0000_0000_0000, gain: 0x3fd9_9999_9999_999a },
            mask_wavelength: 0x4099_0000_0000_0000,
            mask_threshold: 0x0000_0000_0000_0000,
            warp_wavelength: 0x4089_0000_0000_0000,
            warp_strength: 0x4054_0000_0000_0000,
            detail_amplitude: 0x3fd0_0000_0000_0000,
            detail_wavelength: 0x4018_0000_0000_0000,
        }
    }

    /// What is wrong with the values, if anything is.
    pub open spec fn fault(&self) -> Option<Seq<char>> {
        if !(positive(self.relief) && ieee::finite64(self.relief)) {
            Some("terrain.relief must be positive"@)
        } else if !(positive(self.hills_wavelength) && ieee::finite64(self.hills_wavelength)) {
            Some("terrain.hills_wavelength must be positive"@)
        } else if !(positive(self.mountains_wavelength) && ieee::finite64(self.mountains_wavelength)) {
            Some("terrain.mountains_wavelength must be positive"@)
        } else if !(positive(self.mask_wavelength) && ieee::finite64(self.mask_wavelength)) {
            Some("terrain.mask_wavelength must be positive"@)
        } else if !(positive(self.warp_wavelength) && ieee::finite64(self.warp_wavelength)) {
            Some("terrain.warp_wavelength must be positive"@)
        } else if !(positive(self.detail_wavelength) && ieee::finite64(self.detail_wavelength)) {
            Some("terrain.detail_wavelength must be positive"@)
        } else if !(non_negative(self.hills_amplitude) && ieee::finite64(self.hills_amplitude)) {
            Some("terrain.hills_amplitude must be non-negative"@)
        } else if !(non_negative(self.mountains_amplitude) && ieee::finite64(self.mountains_amplitude)) {
            Some("terrain.mountains_amplitude must be non-negative"@)
        } else if !(non_negative(self.warp_strength) && ieee::finite64(self.warp_strength)) {
            Some("terrain.warp_strength must be non-negative"@)
        } else if !(non_negative(self.detail_amplitude) && ieee::finite64(self.detail_amplitude)) {
            Some("terrain.detail_amplitude must be non-negative"@)
        } else if !self.hills.valid() || !self.mountains.valid() {
            Some("terrain fractals need 1–16 octaves, lacunarity > 1 and 0 < gain < 1"@)
        } else {
            None
        }
    }

    /// Checks the values.
    pub fn validate(&self) -> (r: Result<(), String>)
        ensures
            match r {
                Ok(_) => self.fault() is None,
                Err(e) => self.fault() == Some(e@),
            },
    {
        if !(is_positive(self.relief) && ieee::is_finite64(self.relief)) {
            return Err("terrain.relief must be positive".to_owned());
        }
        if !(is_positive(self.hills_wavelength) && ieee::is_finite64(self.hills_wavelength)) {
            return Err("terrain.hills_wavelength must be positive".to_owned());
        }
        if !(is_positive(self.mountains_wavelength) && ieee::is_finite64(self.mountains_wavelength)) {
            return Err("terrain.mountains_wavelength must be positive".to_owned());
        }
        if !(is_positive(self.mask_wavelength) && ieee::is_finite64(self.mask_wavelength)) {
            return Err("terrain.mask_wavelength must be positive".to_owned());
        }
        if !(is_positive(self.warp_wavelength) && ieee::is_finite64(self.warp_wavelength)) {
            return Err("terrain.warp_wavelength must be positive".to_owned());
        }
        if !(is_positive(self.detail_wavelength) && ieee::is_finite64(self.detail_wavelength)) {
            return Err("terrain.detail_wavelength must be positive".to_owned());
        }
        if !(is_non_negative(self.hills_amplitude) && ieee::is_finite64(self.hills_amplitude)) {
            return Err("terrain.hills_amplitude must be non-negative".to_owned());
        }
        if !(is_non_negative(self.mountains_amplitude) && ieee::is_finite64(self.mountains_amplitude)) {
            return Err("terrain.mountains_amplitude must be non-negative".to_owned());
        }
        if !(is_non_negative(self.warp_strength) && ieee::is_finite64(self.warp_strength)) {
            return Err("terrain.warp_strength must be non-negative".to_owned());
        }
        if !(is_non_negative(self.detail_amplitude) && ieee::is_finite64(self.detail_amplitude)) {
            return Err("terrain.detail_amplitude must be non-negative".to_owned());
        }
        if !self.hills.is_valid() || !self.mountains.is_valid() {
            return Err("terrain fractals need 1–16 octaves, lacunarity > 1 and 0 < gain < 1".to_owned());
        }
        Ok(())
    }
}

impl Default for TerrainConfig {
    fn default() -> (r: TerrainConfig)
        ensures
            r == TerrainConfig::defaults(),
    {
        TerrainConfig {
            relief: 0x4072_c000_0000_0000,  // 300
            hills_wavelength: 0x4089_0000_0000_0000,  // 800
            hills_amplitude: 0x3fd0_0000_0000_0000,  // 0.25
            hills: Fractal { octaves: 5, lacunarity: 0x4000_0000_0000_0000, gain: 0x3fd9_9999_9999_999a },  // 5, 2.0, 0.4
            mountains_wavelength: 0x4099_0000_0000_0000,  // 1600
            mountains_amplitude: 0x3fec_cccc_cccc_cccd,  // 0.9
            mountains: Fractal { octaves: 6, lacunarity: 0x4000_0000_0000_0000, gain: 0x3fd9_9999_9999_999a },  // 6, 2.0, 0.4
            mask_wavelength: 0x4099_0000_0000_0000,  // 1600
            mask_threshold: 0x0000_0000_0000_0000,  // 0
            warp_wavelength: 0x4089_0000_0000_0000,  // 800
            warp_strength: 0x4054_0000_0000_0000,  // 80
            detail_amplitude: 0x3fd0_0000_0000_0000,  // 0.25
            detail_wavelength: 0x4018_0000_0000_0000,  // 6
        }
    }
}

/// Particle hydraulic erosion followed by thermal erosion, in units of the relief and the erosion
/// grid cell.
#[derive(Clone, Copy, Debug, PartialEq, Eq)]
pub struct ErosionConfig {
    pub enabled: bool,
    /// Droplets per cell of the erosion grid, and the steps of each.
    pub droplets_per_cell: u64,
    pub lifetime: u32,
    /// How much a droplet keeps its direction.
    pub inertia: u64,
    pub capacity: u64,
    pub min_capacity: u64,
    pub deposit_rate: u64,
    pub erode_rate: u64,
    pub evaporation: u64,
    pub gravity: u64,
    /// Radius (cells) over which a droplet erodes.
    pub radius: u32,
    /// Iterations of thermal erosion (0 = off).
    pub thermal_iterations: u32,
    /// Material steeper than this slides downhill.
    pub talus_deg: u64,
    /// Fraction of the excess moved per neighbour and iteration.
    pub thermal_rate: u64,
}

impl ErosionConfig {
    /// The values that a file need not give.
    pub open spec fn defaults() -> ErosionConfig {
        ErosionConfig {
            enabled: true,
            droplets_per_cell: 0x3fe3_3333_3333_3333,
            lifetime: 30,
            inertia: 0x3fa9_9999_9999_999a,
            capacity: 0x4010_0000_0000_0000,
            min_capacity: 0x3f84_7ae1_47ae_147b,
            deposit_rate: 0x3fd3_3333_3333_3333,
            erode_rate: 0x3fd3_3333_3333_3333,
            evaporation: 0x3f84_7ae1_47ae_147b,
            gravity: 0x4010_0000_0000_0000,
            radius: 3,
            thermal_iterations: 60,
            talus_deg: 0x4043_0000_0000_0000,
            thermal_rate: 0x3fb0_0000_0000_0000,
        }
    }

    /// What is wrong with the values, if anything is.
    pub open spec fn fault(&self) -> Option<Seq<char>> {
        if !in_unit(self.inertia) {
            Some("erosion.inertia must be in [0, 1]"@)
        } else if !in_unit(self.deposit_rate) {
            Some("erosion.deposit_rate must be in [0, 1]"@)
        } else if !in_unit(self.erode_rate) {
            Some("erosion.erode_rate must be in [0, 1]"@)
        } else if !in_unit(self.evaporation) {
            Some("erosion.evaporation must be in [0, 1]"@)
        } else if !(non_negative(self.droplets_per_cell) && ieee::le64(self.droplets_per_cell, 0x4059_0000_0000_0000)) {
            Some("erosion.droplets_per_cell must be in [0, 100]"@)
        } else if !(1 <= self.radius && self.radius <= 16) {
            Some("erosion.radius must be in 1..=16"@)
        } else if !(positive(self.thermal_rate) && ieee::le64(self.thermal_rate, 0x3fb0_0000_0000_0000)) {
            Some("erosion.thermal_rate must be in (0, 1/16]"@)
        } else if !(positive(self.talus_deg) && ieee::lt64(self.talus_deg, 0x4056_8000_0000_0000)) {
            Some("erosion.talus_deg must be in (0, 90)"@)
        } else if !(non_negative(self.capacity) && non_negative(self.min_capacity) && non_negative(self.gravity)) {
            Some("erosion.capacity, min_capacity and gravity must be non-negative"@)
        } else {
            None
        }
    }

    /// Checks the values.
    pub fn validate(&self) -> (r: Result<(), String>)
        ensures
            match r {
                Ok(_) => self.fault() is None,
                Err(e) => self.fault() == Some(e@),
            },
    {
        if !is_in_unit(self.inertia) {
            return Err("erosion.inertia must be in [0, 1]".to_owned());
        }
        if !is_in_unit(self.deposit_rate) {
            return Err("erosion.deposit_rate must be in [0, 1]".to_owned());
        }
        if !is_in_unit(self.erode_rate) {
            return Err("erosion.erode_rate must be in [0, 1]".to_owned());
        }
        if !is_in_unit(self.evaporation) {
            return Err("erosion.evaporation must be in [0, 1]".to_owned());
        }
        if !(is_non_negative(self.droplets_per_cell) && ieee::is_le64(self.droplets_per_cell, 0x4059_0000_0000_0000)) {
            return Err("erosion.droplets_per_cell must be in [0, 100]".to_owned());
        }
        if !(1 <= self.radius && self.radius <= 16) {
            return Err("erosion.radius must be in 1..=16".to_owned());
        }
        if !(is_positive(self.thermal_rate) && ieee::is_le64(self.thermal_rate, 0x3fb0_0000_0000_0000)) {
            return Err("erosion.thermal_rate must be in (0, 1/16]".to_owned());
        }
        if !(is_positive(self.talus_deg) && ieee::is_lt64(self.talus_deg, 0x4056_8000_0000_0000)) {
            return Err("erosion.talus_deg must be in (0, 90)".to_owned());
        }
        if !(is_non_negative(self.capacity) && is_non_negative(self.min_capacity) && is_non_negative(self.gravity)) {
            return Err("erosion.capacity, min_capacity and gravity must be non-negative".to_owned());
        }
        Ok(())
    }
}

impl Default for ErosionConfig {
    fn default() -> (r: ErosionConfig)
        ensures
            r == ErosionConfig::defaults(),
    {
        ErosionConfig {
            enabled: true,
            droplets_per_cell: 0x3fe3_3333_3333_3333,  // 0.6
            lifetime: 30,
            inertia: 0x3fa9_9999_9999_999a,  // 0.05
            capacity: 0x4010_0000_0000_0000,  // 4
            min_capacity: 0x3f84_7ae1_47ae_147b,  // 0.01
            deposit_rate: 0x3fd3_3333_3333_3333,  // 0.3
            erode_rate: 0x3fd3_3333_3333_3333,  // 0.3
            evaporation: 0x3f84_7ae1_47ae_147b,  // 0.01
            gravity: 0x4010_0000_0000_0000,  // 4
            radius: 3,
            thermal_iterations: 60,
            talus_deg: 0x4043_0000_0000_0000,  // 38
            thermal_rate: 0x3fb0_0000_0000_0000,  // 0.0625
        }
    }
}

/// Where trees grow and how large.
#[derive(Clone, Copy, Debug, PartialEq, Eq)]
pub struct TreesConfig {
    /// Trees per hectare on forest floor and on grass below the treeline.
    pub forest_density: u64,
    pub meadow_density: u64,
    /// Smallest distance between two trunks (m).
    pub min_spacing: u64,
    pub max_slope_deg: u64,
    pub min_height: u64,
    pub max_height: u64,
    /// Share of conifers at the lowest altitude and at the treeline.
    pub conifer_low: u64,
    pub conifer_high: u64,
}

impl TreesConfig {
    /// The values that a file need not give.
    pub open spec fn defaults() -> TreesConfig {
        TreesConfig {
            forest_density: 0x4075_e000_0000_0000,
            meadow_density: 0x4018_0000_0000_0000,
            min_spacing: 0x4008_0000_0000_0000,
            max_slope_deg: 0x4041_8000_0000_0000,
            min_height: 0x4020_0000_0000_0000,
            max_height: 0x403a_0000_0000_0000,
            conifer_low: 0x3fd3_3333_3333_3333,
            conifer_high: 0x3fee_6666_6666_6666,
        }
    }

    /// What is wrong with the values, if anything is.
    pub open spec fn fault(&self) -> Option<Seq<char>> {
        if !(non_negative(self.forest_density) && non_negative(self.meadow_density) && ieee::le64(self.forest_density, 0x409f_4000_0000_0000)) {
            Some("trees: densities must be in [0, 2000] per hectare"@)
        } else if ieee::nan64(self.min_spacing) || ieee::lt64(self.min_spacing, 0x3fe0_0000_0000_0000) {
            Some("trees.min_spacing must be at least 0.5 m"@)
        } else if !(ieee::lt64(ONE, self.min_height) && ieee::le64(self.min_height, self.max_height) && ieee::le64(self.max_height, 0x4054_0000_0000_0000)) {
            Some("trees: need 1 < min_height ≤ max_height ≤ 80"@)
        } else if !in_unit(self.conifer_low) || !in_unit(self.conifer_high) {
            Some("trees: conifer shares must be in [0, 1]"@)
        } else if !(positive(self.max_slope_deg) && ieee::lt64(self.max_slope_deg, 0x4056_8000_0000_0000)) {
            Some("trees.max_slope_deg must be in (0, 90)"@)
        } else {
            None
        }
    }

    /// Checks the values.
    pub fn validate(&self) -> (r: Result<(), String>)
        ensures
            match r {
                Ok(_) => self.fault() is None,
                Err(e) => self.fault() == Some(e@),
            },
    {
        if !(is_non_negative(self.forest_density) && is_non_negative(self.meadow_density) && ieee::is_le64(self.forest_density, 0x409f_4000_0000_0000)) {
            return Err("trees: densities must be in [0, 2000] per hectare".to_owned());
        }
        if ieee::is_nan64(self.min_spacing) || ieee::is_lt64(self.min_spacing, 0x3fe0_0000_0000_0000) {
            return Err("trees.min_spacing must be at least 0.5 m".to_owned());
        }
        if !(ieee::is_lt64(ONE, self.min_height) && ieee::is_le64(self.min_height, self.max_height) && ieee::is_le64(self.max_height, 0x4054_0000_0000_0000)) {
            return Err("trees: need 1 < min_height ≤ max_height ≤ 80".to_owned());
        }
        if !is_in_unit(self.conifer_low) || !is_in_unit(self.conifer_high) {
            return Err("trees: conifer shares must be in [0, 1]".to_owned());
        }
        if !(is_positive(self.max_slope_deg) && ieee::is_lt64(self.max_slope_deg, 0x4056_8000_0000_0000)) {
            return Err("trees.max_slope_deg must be in (0, 90)".to_owned());
        }
        Ok(())
    }
}

impl Default for TreesConfig {
    fn default() -> (r: TreesConfig)
        ensures
            r == TreesConfig::defaults(),
    {
        TreesConfig {
            forest_density: 0x4075_e000_0000_0000,  // 350
            meadow_density: 0x4018_0000_0000_0000,  // 6
            min_spacing: 0x4008_0000_0000_0000,  // 3
            max_slope_deg: 0x4041_8000_0000_0000,  // 35
            min_height: 0x4020_0000_0000_0000,  // 8
            max_height: 0x403a_0000_0000_0000,  // 26
            conifer_low: 0x3fd3_3333_3333_3333,  // 0.3
            conifer_high: 0x3fee_6666_6666_6666,  // 0.95
        }
    }
}

/// Where rocks lie and how large.
#[derive(Clone, Copy, Debug, PartialEq, Eq)]
pub struct RocksConfig {
    /// Rocks per hectare on rock and scree and on other dry ground.
    pub rocky_density: u64,
    pub other_density: u64,
    /// Sizes (m, longest diameter) follow a Pareto law with this minimum and exponent, truncated.
    pub min_size: u64,
    pub max_size: u64,
    pub size_exponent: u64,
    /// Fraction of a rock's height below the ground.
    pub sunk: u64,
}

impl RocksConfig {
    /// The values that a file need not give.
    pub open spec fn defaults() -> RocksConfig {
        RocksConfig {
            rocky_density: 0x405e_0000_0000_0000,
            other_density: 0x4000_0000_0000_0000,
            min_size: 0x3fd9_9999_9999_999a,
            max_size: 0x4010_0000_0000_0000,
            size_exponent: 0x4001_9999_9999_999a,
            sunk: 0x3fd3_3333_3333_3333,
        }
    }

    /// What is wrong with the values, if anything is.
    pub open spec fn fault(&self) -> Option<Seq<char>> {
        if !(non_negative(self.rocky_density) && non_negative(self.other_density) && ieee::le64(self.rocky_density, 0x409f_4000_0000_0000)) {
            Some("rocks: densities must be in [0, 2000] per hectare"@)
        } else if !(ieee::le64(0x3fa9_9999_9999_999a, self.min_size) && ieee::le64(self.min_size, self.max_size) && positive(self.size_exponent)) {
            Some("rocks: need 0.05 ≤ min_size ≤ max_size and size_exponent > 0"@)
        } else if !(non_negative(self.sunk) && ieee::lt64(self.sunk, 0x3fe0_0000_0000_0000)) {
            Some("rocks.sunk must be in [0, 0.5)"@)
        } else {
            None
        }
    }

    /// Checks the values.
    pub fn validate(&self) -> (r: Result<(), String>)
        ensures
            match r {
                Ok(_) => self.fault() is None,
                Err(e) => self.fault() == Some(e@),
            },
    {
        if !(is_non_negative(self.rocky_density) && is_non_negative(self.other_density) && ieee::is_le64(self.rocky_density, 0x409f_4000_0000_0000)) {
            return Err("rocks: densities must be in [0, 2000] per hectare".to_owned());
        }
        if !(ieee::is_le64(0x3fa9_9999_9999_999a, self.min_size) && ieee::is_le64(self.min_size, self.max_size) && is_positive(self.size_exponent)) {
            return Err("rocks: need 0.05 ≤ min_size ≤ max_size and size_exponent > 0".to_owned());
        }
        if !(is_non_negative(self.sunk) && ieee::is_lt64(self.sunk, 0x3fe0_0000_0000_0000)) {
            return Err("rocks.sunk must be in [0, 0.5)".to_owned());
        }
        Ok(())
    }
}

impl Default for RocksConfig {
    fn default() -> (r: RocksConfig)
        ensures
            r == RocksConfig::defaults(),
    {
        RocksConfig {
            rocky_density: 0x405e_0000_0000_0000,  // 120
            other_density: 0x4000_0000_0000_0000,  // 2
            min_size: 0x3fd9_9999_9999_999a,  // 0.4
            max_size: 0x4010_0000_0000_0000,  // 4
            size_exponent: 0x4001_9999_9999_999a,  // 2.2
            sunk: 0x3fd3_3333_3333_3333,  // 0.3
        }
    }
}

/// Which depressions hold lakes.
#[derive(Clone, Copy, Debug, PartialEq, Eq)]
pub struct WaterConfig {
    pub enabled: bool,
    /// Depressions shallower (m) or smaller (m²) than this stay dry.
    pub min_depth: u64,
    pub min_area: u64,
    /// A lake covers at most this share of its catchment.
    pub max_catchment_share: u64,
}

impl WaterConfig {
    /// The values that a file need not give.
    pub open spec fn defaults() -> WaterConfig {
        WaterConfig {
            enabled: true,
            min_depth: 0x3fe0_0000_0000_0000,
            min_area: 0x4069_0000_0000_0000,
            max_catchment_share: 0x3fae_b851_eb85_1eb8,
        }
    }

    /// What is wrong with the values, if anything is.
    pub open spec fn fault(&self) -> Option<Seq<char>> {
        if !(non_negative(self.min_depth) && non_negative(self.min_area) && in_unit(self.max_catchment_share)) {
            Some("water: need min_depth, min_area ≥ 0 and max_catchment_share in [0, 1]"@)
        } else {
            None
        }
    }

    /// Checks the values.
    pub fn validate(&self) -> (r: Result<(), String>)
        ensures
            match r {
                Ok(_) => self.fault() is None,
                Err(e) => self.fault() == Some(e@),
            },
    {
        if !(is_non_negative(self.min_depth) && is_non_negative(self.min_area) && is_in_unit(self.max_catchment_share)) {
            return Err("water: need min_depth, min_area ≥ 0 and max_catchment_share in [0, 1]".to_owned());
        }
        Ok(())
    }
}

impl Default for WaterConfig {
    fn default() -> (r: WaterConfig)
        ensures
            r == WaterConfig::defaults(),
    {
        WaterConfig {
            enabled: true,
            min_depth: 0x3fe0_0000_0000_0000,  // 0.5
            min_area: 0x4069_0000_0000_0000,  // 200
            max_catchment_share: 0x3fae_b851_eb85_1eb8,  // 0.06
        }
    }
}

/// The material rules of wild maps.
#[derive(Clone, Copy, Debug, PartialEq, Eq)]
pub struct MaterialsConfig {
    /// Bare rock above this slope, scree above this one over the treeline.
    pub rock_slope_deg: u64,
    pub scree_slope_deg: u64,
    /// Treeline and snowline as fractions of the relief.
    pub treeline: u64,
    pub snowline: u64,
    /// Snow does not stick above this slope.
    pub snow_max_slope_deg: u64,
    /// Amplitude of the noise on tree- and snowline (fraction of the relief).
    pub line_noise: u64,
    pub forest_wavelength: u64,
    /// Forest where the forest noise (plus a moisture bonus) exceeds this.
    pub forest_threshold: u64,
    /// Sand up to this distance (m) from and height (m) above a lake.
    pub shore_width: u64,
    pub shore_height: u64,
    /// Mud on flat ground wetter than this (moisture in [0, 1]).
    pub marsh_moisture: u64,
}

impl MaterialsConfig {
    /// The values that a file need not give.
    pub open spec fn defaults() -> MaterialsConfig {
        MaterialsConfig {
            rock_slope_deg: 0x4045_0000_0000_0000,
            scree_slope_deg: 0x403e_0000_0000_0000,
            treeline: 0x3fe1_9999_9999_999a,
            snowline: 0x3fe7_0a3d_70a3_d70a,
            snow_max_slope_deg: 0x4043_0000_0000_0000,
            line_noise: 0x3fa9_9999_9999_999a,
            forest_wavelength: 0x4072_c000_0000_0000,
            forest_threshold: 0xbfb9_9999_9999_999a,
            shore_width: 0x4008_0000_0000_0000,
            shore_height: 0x3fe3_3333_3333_3333,
            marsh_moisture: 0x3feb_3333_3333_3333,
        }
    }

    /// What is wrong with the values, if anything is.
    pub open spec fn fault(&self) -> Option<Seq<char>> {
        if !(positive(self.rock_slope_deg) && ieee::lt64(self.rock_slope_deg, 0x4056_8000_0000_0000)) {
            Some("materials.rock_slope_deg must be in (0, 90)"@)
        } else if !(positive(self.scree_slope_deg) && ieee::lt64(self.scree_slope_deg, 0x4056_8000_0000_0000)) {
            Some("materials.scree_slope_deg must be in (0, 90)"@)
        } else if !(positive(self.snow_max_slope_deg) && ieee::lt64(self.snow_max_slope_deg, 0x4056_8000_0000_0000)) {
            Some("materials.snow_max_slope_deg must be in (0, 90)"@)
        } else if !(positive(self.forest_wavelength) && non_negative(self.shore_width) && non_negative(self.shore_height)) {
            Some("materials: forest_wavelength must be positive, shore sizes non-negative"@)
        } else if !(non_negative(self.line_noise) && ieee::finite64(self.treeline) && ieee::finite64(self.snowline)) {
            Some("materials: invalid tree- or snowline"@)
        } else {
            None
        }
    }

    /// Checks the values.
    pub fn validate(&self) -> (r: Result<(), String>)
        ensures
            match r {
                Ok(_) => self.fault() is None,
                Err(e) => self.fault() == Some(e@),
            },
    {
        if !(is_positive(self.rock_slope_deg) && ieee::is_lt64(self.rock_slope_deg, 0x4056_8000_0000_0000)) {
            return Err("materials.rock_slope_deg must be in (0, 90)".to_owned());
        }
        if !(is_positive(self.scree_slope_deg) && ieee::is_lt64(self.scree_slope_deg, 0x4056_8000_0000_0000)) {
            return Err("materials.scree_slope_deg must be in (0, 90)".to_owned());
        }
        if !(is_positive(self.snow_max_slope_deg) && ieee::is_lt64(self.snow_max_slope_deg, 0x4056_8000_0000_0000)) {
            return Err("materials.snow_max_slope_deg must be in (0, 90)".to_owned());
        }
        if !(is_positive(self.forest_wavelength) && is_non_negative(self.shore_width) && is_non_negative(self.shore_height)) {
            return Err("materials: forest_wavelength must be positive, shore sizes non-negative".to_owned());
        }
        if !(is_non_negative(self.line_noise) && ieee::is_finite64(self.treeline) && ieee::is_finite64(self.snowline)) {
            return Err("materials: invalid tree- or snowline".to_owned());
        }
        Ok(())
    }
}

impl Default for MaterialsConfig {
    fn default() -> (r: MaterialsConfig)
        ensures
            r == MaterialsConfig::defaults(),
    {
        MaterialsConfig {
            rock_slope_deg: 0x4045_0000_0000_0000,  // 42
            scree_slope_deg: 0x403e_0000_0000_0000,  // 30
            treeline: 0x3fe1_9999_9999_999a,  // 0.55
            snowline: 0x3fe7_0a3d_70a3_d70a,  // 0.72
            snow_max_slope_deg: 0x4043_0000_0000_0000,  // 38
            line_noise: 0x3fa9_9999_9999_999a,  // 0.05
            forest_wavelength: 0x4072_c000_0000_0000,  // 300
            forest_threshold: 0xbfb9_9999_9999_999a,  // -0.1
            shore_width: 0x4008_0000_0000_0000,  // 3
            shore_height: 0x3fe3_3333_3333_3333,  // 0.6
            marsh_moisture: 0x3feb_3333_3333_3333,  // 0.85
        }
    }
}

/// Geometry limits of one road class.
#[derive(Clone, Copy, Debug, PartialEq, Eq)]
pub struct ClassConfig {
    /// Full width of the road surface (m).
    pub width: u64,
    /// Maximum longitudinal grade (rise over run).
    pub max_grade: u64,
    /// Minimum horizontal curve radius (m), away from junctions.
    pub min_radius: u64,
    /// Cross slope from the centre line to the edges (rise over run).
    pub crown: u64,
}

/// Roads and how they are routed.
#[derive(Clone, Copy, Debug, PartialEq, Eq)]
pub struct RoadsConfig {
    pub paved: ClassConfig,
    pub gravel: ClassConfig,
    pub track: ClassConfig,
    /// Cell of the routing grid (m); a multiple of the map cell.
    pub route_cell: u64,
    /// Routes keep this far (m) from water, beyond half the road width.
    pub water_clearance: u64,
    /// Cost per metre of `grade²`, of `side slope²`, and per squared radian of turning.
    pub grade_cost: u64,
    pub side_slope_cost: u64,
    pub turn_cost: u64,
    /// Minimum width (m) of the shoulders that blend the road into the terrain.
    pub shoulder: u64,
    /// Window (m) of the moving average over the terrain heights along a road.
    pub profile_window: u64,
}

impl RoadsConfig {
    /// The values that a file need not give.
    pub open spec fn defaults() -> RoadsConfig {
        RoadsConfig {
            paved: ClassConfig { width: 0x4018_0000_0000_0000, max_grade: 0x3fb4_7ae1_47ae_147b, min_radius: 0x403e_0000_0000_0000, crown: 0x3f94_7ae1_47ae_147b },
            gravel: ClassConfig { width: 0x4010_0000_0000_0000, max_grade: 0x3fbe_b851_eb85_1eb8, min_radius: 0x402e_0000_0000_0000, crown: 0x3f94_7ae1_47ae_147b },
            track: ClassConfig { width: 0x4008_0000_0000_0000, max_grade: 0x3fc9_9999_9999_999a, min_radius: 0x4020_0000_0000_0000, crown: 0x0000_0000_0000_0000 },
            route_cell: 0x4010_0000_0000_0000,
            water_clearance: 0x4020_0000_0000_0000,
            grade_cost: 0x404e_0000_0000_0000,
            side_slope_cost: 0x4024_0000_0000_0000,
            turn_cost: 0x4008_0000_0000_0000,
            shoulder: 0x4008_0000_0000_0000,
            profile_window: 0x4034_0000_0000_0000,
        }
    }

    /// What is wrong with the values, if anything is.
    pub open spec fn fault(&self, cells_per_route: u64) -> Option<Seq<char>> {
        if !(positive(self.paved.width) && positive(self.paved.max_grade) && positive(self.paved.min_radius) && non_negative(self.paved.crown)) {
            Some("roads.paved: width, max_grade and min_radius must be positive"@)
        } else if !(positive(self.gravel.width) && positive(self.gravel.max_grade) && positive(self.gravel.min_radius) && non_negative(self.gravel.crown)) {
            Some("roads.gravel: width, max_grade and min_radius must be positive"@)
        } else if !(positive(self.track.width) && positive(self.track.max_grade) && positive(self.track.min_radius) && non_negative(self.track.crown)) {
            Some("roads.track: width, max_grade and min_radius must be positive"@)
        } else if !(1 <= cells_per_route) {
            Some("roads.route_cell must be a whole multiple of the map cell"@)
        } else if !(non_negative(self.water_clearance) && positive(self.shoulder) && non_negative(self.profile_window)) {
            Some("roads: water_clearance and profile_window must be ≥ 0, shoulder > 0"@)
        } else if !(non_negative(self.grade_cost) && non_negative(self.side_slope_cost) && non_negative(self.turn_cost)) {
            Some("roads: costs must be ≥ 0"@)
        } else {
            None
        }
    }

    /// Checks the values.
    pub fn validate(&self, cells_per_route: u64) -> (r: Result<(), String>)
        ensures
            match r {
                Ok(_) => self.fault(cells_per_route) is None,
                Err(e) => self.fault(cells_per_route) == Some(e@),
            },
    {
        if !(is_positive(self.paved.width) && is_positive(self.paved.max_grade) && is_positive(self.paved.min_radius) && is_non_negative(self.paved.crown)) {
            return Err("roads.paved: width, max_grade and min_radius must be positive".to_owned());
        }
        if !(is_positive(self.gravel.width) && is_positive(self.gravel.max_grade) && is_positive(self.gravel.min_radius) && is_non_negative(self.gravel.crown)) {
            return Err("roads.gravel: width, max_grade and min_radius must be positive".to_owned());
        }
        if !(is_positive(self.track.width) && is_positive(self.track.max_grade) && is_positive(self.track.min_radius) && is_non_negative(self.track.crown)) {
            return Err("roads.track: width, max_grade and min_radius must be positive".to_owned());
        }
        if !(1 <= cells_per_route) {
            return Err("roads.route_cell must be a whole multiple of the map cell".to_owned());
        }
        if !(is_non_negative(self.water_clearance) && is_positive(self.shoulder) && is_non_negative(self.profile_window)) {
            return Err("roads: water_clearance and profile_window must be ≥ 0, shoulder > 0".to_owned());
        }
        if !(is_non_negative(self.grade_cost) && is_non_negative(self.side_slope_cost) && is_non_negative(self.turn_cost)) {
            return Err("roads: costs must be ≥ 0".to_owned());
        }
        Ok(())
    }
}

impl Default for RoadsConfig {
    fn default() -> (r: RoadsConfig)
        ensures
            r == RoadsConfig::defaults(),
    {
        RoadsConfig {
            paved: ClassConfig { width: 0x4018_0000_0000_0000, max_grade: 0x3fb4_7ae1_47ae_147b, min_radius: 0x403e_0000_0000_0000, crown: 0x3f94_7ae1_47ae_147b },
            gravel: ClassConfig { width: 0x4010_0000_0000_0000, max_grade: 0x3fbe_b851_eb85_1eb8, min_radius: 0x402e_0000_0000_0000, crown: 0x3f94_7ae1_47ae_147b },
            track: ClassConfig { width: 0x4008_0000_0000_0000, max_grade: 0x3fc9_9999_9999_999a, min_radius: 0x4020_0000_0000_0000, crown: 0x0000_0000_0000_0000 },
            route_cell: 0x4010_0000_0000_0000,  // 4
            water_clearance: 0x4020_0000_0000_0000,  // 8
            grade_cost: 0x404e_0000_0000_0000,  // 60
            side_slope_cost: 0x4024_0000_0000_0000,  // 10
            turn_cost: 0x4008_0000_0000_0000,  // 3
            shoulder: 0x4008_0000_0000_0000,  // 3
            profile_window: 0x4034_0000_0000_0000,  // 20
        }
    }
}

impl RoadsConfig {
    pub open spec fn class_of(&self, class: RoadClass) -> ClassConfig {
        match class {
            RoadClass::Paved => self.paved,
            RoadClass::Gravel => self.gravel,
            RoadClass::Track => self.track,
        }
    }

    pub fn class(&self, class: RoadClass) -> (r: &ClassConfig)
        ensures
            *r == self.class_of(class),
    {
        match class {
            RoadClass::Paved => &self.paved,
            RoadClass::Gravel => &self.gravel,
            RoadClass::Track => &self.track,
        }
    }
}

/// Farm yards and where they may stand.
#[derive(Clone, Copy, Debug, PartialEq, Eq)]
pub struct FarmsConfig {
    /// Minimum distance between farms (m).
    pub spacing: u64,
    /// Half extents of a farm yard (m).
    pub yard: (u64, u64),
    /// Largest height difference across a yard site (m) before it is flattened.
    pub max_relief: u64,
    /// Farms keep this far from water (m) and from the map edge.
    pub water_clearance: u64,
    pub margin: u64,
    /// Ground levelled around the yard for the buildings (m beyond the yard).
    pub pad: u64,
}

impl FarmsConfig {
    /// The values that a file need not give.
    pub open spec fn defaults() -> FarmsConfig {
        FarmsConfig {
            spacing: 0x4064_0000_0000_0000,
            yard: (0x4034_0000_0000_0000, 0x402e_0000_0000_0000),
            max_relief: 0x4014_0000_0000_0000,
            water_clearance: 0x403e_0000_0000_0000,
            margin: 0x404e_0000_0000_0000,
            pad: 0x402c_0000_0000_0000,
        }
    }

    /// What is wrong with the values, if anything is.
    pub open spec fn fault(&self) -> Option<Seq<char>> {
        if !(positive(self.spacing) && positive(self.yard.0) && positive(self.yard.1) && non_negative(self.max_relief) && non_negative(self.margin) && non_negative(self.pad)) {
            Some("farms: spacing and yard must be positive, max_relief, margin and pad ≥ 0"@)
        } else {
            None
        }
    }

    /// Checks the values.
    pub fn validate(&self) -> (r: Result<(), String>)
        ensures
            match r {
                Ok(_) => self.fault() is None,
                Err(e) => self.fault() == Some(e@),
            },
    {
        if !(is_positive(self.spacing) && is_positive(self.yard.0) && is_positive(self.yard.1) && is_non_negative(self.max_relief) && is_non_negative(self.margin) && is_non_negative(self.pad)) {
            return Err("farms: spacing and yard must be positive, max_relief, margin and pad ≥ 0".to_owned());
        }
        Ok(())
    }
}

impl Default for FarmsConfig {
    fn default() -> (r: FarmsConfig)
        ensures
            r == FarmsConfig::defaults(),
    {
        FarmsConfig {
            spacing: 0x4064_0000_0000_0000,  // 160
            yard: (0x4034_0000_0000_0000, 0x402e_0000_0000_0000),  // 20, 15
            max_relief: 0x4014_0000_0000_0000,  // 5
            water_clearance: 0x403e_0000_0000_0000,  // 30
            margin: 0x404e_0000_0000_0000,  // 60
            pad: 0x402c_0000_0000_0000,  // 14
        }
    }
}

/// The material rules of rural maps.
#[derive(Clone, Copy, Debug, PartialEq, Eq)]
pub struct RuralMaterialsConfig {
    /// Bare rock above this slope.
    pub rock_slope_deg: u64,
    /// Sand up to this distance (m) from and height (m) above a lake.
    pub shore_width: u64,
    pub shore_height: u64,
    /// Mud on flat ground wetter than this (moisture in [0, 1]).
    pub marsh_moisture: u64,
}

impl RuralMaterialsConfig {
    /// The values that a file need not give.
    pub open spec fn defaults() -> RuralMaterialsConfig {
        RuralMaterialsConfig {
            rock_slope_deg: 0x4041_8000_0000_0000,
            shore_width: 0x4008_0000_0000_0000,
            shore_height: 0x3fe3_3333_3333_3333,
            marsh_moisture: 0x3feb_3333_3333_3333,
        }
    }

    /// What is wrong with the values, if anything is.
    pub open spec fn fault(&self) -> Option<Seq<char>> {
        if !(positive(self.rock_slope_deg) && ieee::lt64(self.rock_slope_deg, 0x4056_8000_0000_0000) && non_negative(self.shore_width)) {
            Some("materials: rock_slope_deg in (0, 90), shore_width ≥ 0"@)
        } else {
            None
        }
    }

    /// Checks the values.
    pub fn validate(&self) -> (r: Result<(), String>)
        ensures
            match r {
                Ok(_) => self.fault() is None,
                Err(e) => self.fault() == Some(e@),
            },
    {
        if !(is_positive(self.rock_slope_deg) && ieee::is_lt64(self.rock_slope_deg, 0x4056_8000_0000_0000) && is_non_negative(self.shore_width)) {
            return Err("materials: rock_slope_deg in (0, 90), shore_width ≥ 0".to_owned());
        }
        Ok(())
    }
}

impl Default for RuralMaterialsConfig {
    fn default() -> (r: RuralMaterialsConfig)
        ensures
            r == RuralMaterialsConfig::defaults(),
    {
        RuralMaterialsConfig {
            rock_slope_deg: 0x4041_8000_0000_0000,  // 35
            shore_width: 0x4008_0000_0000_0000,  // 3
            shore_height: 0x3fe3_3333_3333_3333,  // 0.6
            marsh_moisture: 0x3feb_3333_3333_3333,  // 0.85
        }
    }
}

/// Field parcels and what they hold.
#[derive(Clone, Copy, Debug, PartialEq, Eq)]
pub struct FieldsConfig {
    /// Mean distance between parcel centres (m), and their jitter as a fraction of it.
    pub spacing: u64,
    pub jitter: u64,
    /// Relative shares of meadow, crop and plowed parcels.
    pub meadow: u64,
    pub crop: u64,
    pub plowed: u64,
    /// Share of parcels left as woods; steeper parcels are always woods.
    pub woods: u64,
    pub woods_slope_deg: u64,
    /// Grass strip (m) along parcel edges and beyond road edges.
    pub headland: u64,
    /// Fields farther than this (m) from any road get a track to their gate.
    pub track_distance: u64,
}

impl FieldsConfig {
    /// The values that a file need not give.
    pub open spec fn defaults() -> FieldsConfig {
        FieldsConfig {
            spacing: 0x405e_0000_0000_0000,
            jitter: 0x3fe9_9999_9999_999a,
            meadow: 0x3fd6_6666_6666_6666,
            crop: 0x3fd9_9999_9999_999a,
            plowed: 0x3fd0_0000_0000_0000,
            woods: 0x3fb4_7ae1_47ae_147b,
            woods_slope_deg: 0x402e_0000_0000_0000,
            headland: 0x4000_0000_0000_0000,
            track_distance: 0x4049_0000_0000_0000,
        }
    }

    /// What is wrong with the values, if anything is.
    pub open spec fn fault(&self) -> Option<Seq<char>> {
        if !(ieee::le64(0x4034_0000_0000_0000, self.spacing) && in_unit(self.jitter)) {
            Some("fields: spacing ≥ 20 m and jitter in [0, 1]"@)
        } else if ieee::lt64(self.meadow, 0) || ieee::lt64(self.crop, 0) || ieee::lt64(self.plowed, 0) || (ieee::le64(self.meadow, 0) && ieee::le64(self.crop, 0) && ieee::le64(self.plowed, 0)) {
            Some("fields: meadow, crop and plowed shares must be ≥ 0 and not all 0"@)
        } else if !(in_unit(self.woods) && positive(self.woods_slope_deg) && non_negative(self.headland)) {
            Some("fields: woods in [0, 1], woods_slope_deg > 0, headland ≥ 0"@)
        } else if ieee::nan64(self.track_distance) {
            Some("fields.track_distance must be a number"@)
        } else {
            None
        }
    }

    /// Checks the values.
    pub fn validate(&self) -> (r: Result<(), String>)
        ensures
            match r {
                Ok(_) => self.fault() is None,
                Err(e) => self.fault() == Some(e@),
            },
    {
        if !(ieee::is_le64(0x4034_0000_0000_0000, self.spacing) && is_in_unit(self.jitter)) {
            return Err("fields: spacing ≥ 20 m and jitter in [0, 1]".to_owned());
        }
        if ieee::is_lt64(self.meadow, 0) || ieee::is_lt64(self.crop, 0) || ieee::is_lt64(self.plowed, 0) || (ieee::is_le64(self.meadow, 0) && ieee::is_le64(self.crop, 0) && ieee::is_le64(self.plowed, 0)) {
            return Err("fields: meadow, crop and plowed shares must be ≥ 0 and not all 0".to_owned());
        }
        if !(is_in_unit(self.woods) && is_positive(self.woods_slope_deg) && is_non_negative(self.headland)) {
            return Err("fields: woods in [0, 1], woods_slope_deg > 0, headland ≥ 0".to_owned());
        }
        if ieee::is_nan64(self.track_distance) {
            return Err("fields.track_distance must be a number".to_owned());
        }
        Ok(())
    }
}

impl Default for FieldsConfig {
    fn default() -> (r: FieldsConfig)
        ensures
            r == FieldsConfig::defaults(),
    {
        FieldsConfig {
            spacing: 0x405e_0000_0000_0000,  // 120
            jitter: 0x3fe9_9999_9999_999a,  // 0.8
            meadow: 0x3fd6_6666_6666_6666,  // 0.35
            crop: 0x3fd9_9999_9999_999a,  // 0.4
            plowed: 0x3fd0_0000_0000_0000,  // 0.25
            woods: 0x3fb4_7ae1_47ae_147b,  // 0.08
            woods_slope_deg: 0x402e_0000_0000_0000,  // 15
            headland: 0x4000_0000_0000_0000,  // 2
            track_distance: 0x4049_0000_0000_0000,  // 50
        }
    }
}

/// What stands along parcel edges, roads and yards.
#[derive(Clone, Copy, Debug, PartialEq, Eq)]
pub struct ScatterConfig {
    /// Shares of parcel edges lined by a hedge or by a fence; the rest are open.
    pub hedge: u64,
    pub fence: u64,
    /// Hedge height range (m) and width (m).
    pub hedge_height: (u64, u64),
    pub hedge_width: u64,
    pub fence_height: u64,
    /// Share of roads lined by trees, and the tree spacing along them (m).
    pub tree_line: u64,
    pub tree_line_spacing: u64,
    /// Farm buildings around the yards.
    pub buildings: bool,
    /// Trees in the woods and on grass.
    pub trees: TreesConfig,
    /// Obstacles keep this far (m) from road edges, unless they are this far above the road.
    pub road_clearance: u64,
    pub road_headroom: u64,
}

impl ScatterConfig {
    /// The values that a file need not give.
    pub open spec fn defaults() -> ScatterConfig {
        ScatterConfig {
            hedge: 0x3fd9_9999_9999_999a,
            fence: 0x3fd3_3333_3333_3333,
            hedge_height: (0x3ff9_9999_9999_999a, 0x4006_6666_6666_6666),
            hedge_width: 0x3ff6_6666_6666_6666,
            fence_height: 0x3ff3_3333_3333_3333,
            tree_line: 0x3fd6_6666_6666_6666,
            tree_line_spacing: 0x4028_0000_0000_0000,
            buildings: true,
            trees: TreesConfig { forest_density: 0x406f_4000_0000_0000, meadow_density: 0x3fd9_9999_9999_999a, min_spacing: 0x400c_0000_0000_0000, max_slope_deg: 0x4041_8000_0000_0000, min_height: 0x4020_0000_0000_0000, max_height: 0x4036_0000_0000_0000, conifer_low: 0x3fd3_3333_3333_3333, conifer_high: 0x3fd3_3333_3333_3333 },
            road_clearance: 0x3ff8_0000_0000_0000,
            road_headroom: 0x4012_0000_0000_0000,
        }
    }

    /// What is wrong with the values, if anything is.
    pub open spec fn fault(&self, hedge_and_fence: u64) -> Option<Seq<char>> {
        if !(in_unit(self.hedge) && in_unit(self.fence) && ieee::le64(hedge_and_fence, ONE)) {
            Some("scatter: hedge and fence shares in [0, 1], at most 1 together"@)
        } else if !(positive(self.hedge_height.0) && ieee::le64(self.hedge_height.0, self.hedge_height.1) && positive(self.hedge_width) && positive(self.fence_height)) {
            Some("scatter: hedge and fence sizes must be positive"@)
        } else if !(in_unit(self.tree_line) && ieee::le64(0x4000_0000_0000_0000, self.tree_line_spacing)) {
            Some("scatter: tree_line in [0, 1], tree_line_spacing ≥ 2 m"@)
        } else if !(non_negative(self.road_clearance) && non_negative(self.road_headroom)) {
            Some("scatter: road_clearance and road_headroom must be ≥ 0"@)
        } else if self.trees.fault() is Some {
            self.trees.fault()
        } else {
            None
        }
    }

    /// Checks the values.
    pub fn validate(&self, hedge_and_fence: u64) -> (r: Result<(), String>)
        ensures
            match r {
                Ok(_) => self.fault(hedge_and_fence) is None,
                Err(e) => self.fault(hedge_and_fence) == Some(e@),
            },
    {
        if !(is_in_unit(self.hedge) && is_in_unit(self.fence) && ieee::is_le64(hedge_and_fence, ONE)) {
            return Err("scatter: hedge and fence shares in [0, 1], at most 1 together".to_owned());
        }
        if !(is_positive(self.hedge_height.0) && ieee::is_le64(self.hedge_height.0, self.hedge_height.1) && is_positive(self.hedge_width) && is_positive(self.fence_height)) {
            return Err("scatter: hedge and fence sizes must be positive".to_owned());
        }
        if !(is_in_unit(self.tree_line) && ieee::is_le64(0x4000_0000_0000_0000, self.tree_line_spacing)) {
            return Err("scatter: tree_line in [0, 1], tree_line_spacing ≥ 2 m".to_owned());
        }
        if !(is_non_negative(self.road_clearance) && is_non_negative(self.road_headroom)) {
            return Err("scatter: road_clearance and road_headroom must be ≥ 0".to_owned());
        }
        if let Err(e) = self.trees.validate() {
            return Err(e);
        }
        Ok(())
    }
}

impl Default for ScatterConfig {
    fn default() -> (r: ScatterConfig)
        ensures
            r == ScatterConfig::defaults(),
    {
        ScatterConfig {
            hedge: 0x3fd9_9999_9999_999a,  // 0.4
            fence: 0x3fd3_3333_3333_3333,  // 0.3
            hedge_height: (0x3ff9_9999_9999_999a, 0x4006_6666_6666_6666),  // 1.6, 2.8
            hedge_width: 0x3ff6_6666_6666_6666,  // 1.4
            fence_height: 0x3ff3_3333_3333_3333,  // 1.2
            tree_line: 0x3fd6_6666_6666_6666,  // 0.35
            tree_line_spacing: 0x4028_0000_0000_0000,  // 12
            buildings: true,
            trees: TreesConfig { forest_density: 0x406f_4000_0000_0000, meadow_density: 0x3fd9_9999_9999_999a, min_spacing: 0x400c_0000_0000_0000, max_slope_deg: 0x4041_8000_0000_0000, min_height: 0x4020_0000_0000_0000, max_height: 0x4036_0000_0000_0000, conifer_low: 0x3fd3_3333_3333_3333, conifer_high: 0x3fd3_3333_3333_3333 },
            road_clearance: 0x3ff8_0000_0000_0000,  // 1.5
            road_headroom: 0x4012_0000_0000_0000,  // 4.5
        }
    }
}

/// Whether a map of this many cells along an edge can be made.
pub open spec fn even_cells(cells: Option<u64>) -> bool {
    cells matches Some(n) && n % 2 == 0 && 64 <= n <= 16384
}

fn has_even_cells(cells: Option<u64>) -> (r: bool)
    ensures
        r == even_cells(cells),
{
    match cells {
        Some(n) => n % 2 == 0 && 64 <= n && n <= 16384,
        None => false,
    }
}

/// Vertices along each edge of a map with this many cells.
pub fn vertices(cells: u64) -> (n: usize)
    requires
        cells <= 16384,
    ensures
        n == cells + 1,
{
    cells as usize + 1
}

/// Everything that shapes a wild map (the seed is separate).
#[derive(Clone, Copy, Debug, PartialEq, Eq)]
pub struct WildConfig {
    /// Edge length of the square map (m), centred on the origin.
    pub size: u64,
    /// Final grid cell (m); erosion runs on cells twice as large.
    pub cell: u64,
    pub terrain: TerrainConfig,
    pub erosion: ErosionConfig,
    pub water: WaterConfig,
    pub materials: MaterialsConfig,
    pub trees: TreesConfig,
    pub rocks: RocksConfig,
}

impl WildConfig {
    /// What is wrong with the values, if anything is.
    pub open spec fn fault(&self, cells: Option<u64>) -> Option<Seq<char>> {
        if !(ieee::le64(0x3fd0_0000_0000_0000, self.cell) && ieee::le64(self.cell, 0x4020_0000_0000_0000)) {
            Some("cell must be in [0.25, 8] m"@)
        } else if !even_cells(cells) {
            Some("size / cell must be an even integer in [64, 16384]"@)
        } else if self.terrain.fault() is Some {
            self.terrain.fault()
        } else if self.erosion.fault() is Some {
            self.erosion.fault()
        } else if self.materials.fault() is Some {
            self.materials.fault()
        } else if self.trees.fault() is Some {
            self.trees.fault()
        } else if self.rocks.fault() is Some {
            self.rocks.fault()
        } else if self.water.fault() is Some {
            self.water.fault()
        } else {
            None
        }
    }

    /// Checks the values.
    pub fn validate(&self, cells: Option<u64>) -> (r: Result<(), String>)
        ensures
            match r {
                Ok(_) => self.fault(cells) is None,
                Err(e) => self.fault(cells) == Some(e@),
            },
    {
        if !(ieee::is_le64(0x3fd0_0000_0000_0000, self.cell) && ieee::is_le64(self.cell, 0x4020_0000_0000_0000)) {
            return Err("cell must be in [0.25, 8] m".to_owned());
        }
        if !has_even_cells(cells) {
            return Err("size / cell must be an even integer in [64, 16384]".to_owned());
        }
        if let Err(e) = self.terrain.validate() {
            return Err(e);
        }
        if let Err(e) = self.erosion.validate() {
            return Err(e);
        }
        if let Err(e) = self.materials.validate() {
            return Err(e);
        }
        if let Err(e) = self.trees.validate() {
            return Err(e);
        }
        if let Err(e) = self.rocks.validate() {
            return Err(e);
        }
        if let Err(e) = self.water.validate() {
            return Err(e);
        }
        Ok(())
    }
}

impl WildConfig {
    /// 2 km with 300 m relief: mountains, valleys and lakes.
    pub open spec fn showcase_config() -> WildConfig {
        WildConfig {
            size: 0x40a0_0000_0000_0000,
            cell: ONE,
            terrain: TerrainConfig::defaults(),
            erosion: ErosionConfig::defaults(),
            water: WaterConfig::defaults(),
            materials: MaterialsConfig::defaults(),
            trees: TreesConfig::defaults(),
            rocks: RocksConfig::defaults(),
        }
    }

    /// 2 km with 300 m relief: mountains, valleys and lakes.
    pub fn showcase() -> (r: WildConfig)
        ensures
            r == WildConfig::showcase_config(),
    {
        WildConfig {
            size: 0x40a0_0000_0000_0000,  // 2048
            cell: ONE,
            terrain: TerrainConfig::default(),
            erosion: ErosionConfig::default(),
            water: WaterConfig::default(),
            materials: MaterialsConfig::default(),
            trees: TreesConfig::default(),
            rocks: RocksConfig::default(),
        }
    }

    /// 512 m with 100 m relief, for training pools.
    pub open spec fn training_config() -> WildConfig {
        WildConfig {
            size: 0x4080_0000_0000_0000,
            cell: ONE,
            terrain: TerrainConfig { relief: 0x4059_0000_0000_0000, hills_wavelength: 0x4079_0000_0000_0000, mountains_wavelength: 0x4089_0000_0000_0000, mask_wavelength: 0x4089_0000_0000_0000, warp_wavelength: 0x4079_0000_0000_0000, warp_strength: 0x4044_0000_0000_0000, ..TerrainConfig::defaults() },
            erosion: ErosionConfig::defaults(),
            water: WaterConfig::defaults(),
            materials: MaterialsConfig::defaults(),
            trees: TreesConfig::defaults(),
            rocks: RocksConfig::defaults(),
        }
    }

    /// 512 m with 100 m relief, for training pools.
    pub fn training() -> (r: WildConfig)
        ensures
            r == WildConfig::training_config(),
    {
        WildConfig {
            size: 0x4080_0000_0000_0000,  // 512
            cell: ONE,
            terrain: TerrainConfig { relief: 0x4059_0000_0000_0000, hills_wavelength: 0x4079_0000_0000_0000, mountains_wavelength: 0x4089_0000_0000_0000, mask_wavelength: 0x4089_0000_0000_0000, warp_wavelength: 0x4079_0000_0000_0000, warp_strength: 0x4044_0000_0000_0000, ..TerrainConfig::default() },
            erosion: ErosionConfig::default(),
            water: WaterConfig::default(),
            materials: MaterialsConfig::default(),
            trees: TreesConfig::default(),
            rocks: RocksConfig::default(),
        }
    }

    /// 512 m with 40 m relief: gentle ground for wheels and tracks.
    pub open spec fn offroad_config() -> WildConfig {
        WildConfig {
            terrain: TerrainConfig {
                relief: 0x4044_0000_0000_0000,
                ..WildConfig::training_config().terrain
            },
            ..WildConfig::training_config()
        }
    }

    /// 512 m with 40 m relief: gentle ground for wheels and tracks.
    pub fn offroad() -> (r: WildConfig)
        ensures
            r == WildConfig::offroad_config(),
    {
        let c = WildConfig::training();
        WildConfig { terrain: TerrainConfig { relief: 0x4044_0000_0000_0000, ..c.terrain }, ..c }
    }
}

/// Everything that shapes a rural map (the seed is separate).
#[derive(Clone, Copy, Debug, PartialEq, Eq)]
pub struct RuralConfig {
    /// Edge length of the square map (m), centred on the origin, and the final grid cell (m).
    pub size: u64,
    pub cell: u64,
    pub terrain: TerrainConfig,
    pub erosion: ErosionConfig,
    pub water: WaterConfig,
    pub farms: FarmsConfig,
    pub roads: RoadsConfig,
    pub fields: FieldsConfig,
    pub materials: RuralMaterialsConfig,
    pub scatter: ScatterConfig,
}

impl RuralConfig {
    /// What is wrong with the values, if anything is.
    pub open spec fn fault(&self, cells: Option<u64>, routes_fit: bool, cells_per_route: u64, hedge_and_fence: u64) -> Option<Seq<char>> {
        if !(ieee::le64(0x3fd0_0000_0000_0000, self.cell) && ieee::le64(self.cell, 0x4020_0000_0000_0000)) {
            Some("cell must be in [0.25, 8] m"@)
        } else if !even_cells(cells) {
            Some("size / cell must be an even integer in [64, 16384]"@)
        } else if !routes_fit {
            Some("size must be a multiple of roads.route_cell"@)
        } else if self.terrain.fault() is Some {
            self.terrain.fault()
        } else if self.erosion.fault() is Some {
            self.erosion.fault()
        } else if self.roads.fault(cells_per_route) is Some {
            self.roads.fault(cells_per_route)
        } else if self.farms.fault() is Some {
            self.farms.fault()
        } else if self.fields.fault() is Some {
            self.fields.fault()
        } else if self.scatter.fault(hedge_and_fence) is Some {
            self.scatter.fault(hedge_and_fence)
        } else if self.materials.fault() is Some {
            self.materials.fault()
        } else if self.water.fault() is Some {
            self.water.fault()
        } else {
            None
        }
    }

    /// Checks the values.
    pub fn validate(&self, cells: Option<u64>, routes_fit: bool, cells_per_route: u64, hedge_and_fence: u64) -> (r: Result<(), String>)
        ensures
            match r {
                Ok(_) => self.fault(cells, routes_fit, cells_per_route, hedge_and_fence) is None,
                Err(e) => self.fault(cells, routes_fit, cells_per_route, hedge_and_fence) == Some(e@),
            },
    {
        if !(ieee::is_le64(0x3fd0_0000_0000_0000, self.cell) && ieee::is_le64(self.cell, 0x4020_0000_0000_0000)) {
            return Err("cell must be in [0.25, 8] m".to_owned());
        }
        if !has_even_cells(cells) {
            return Err("size / cell must be an even integer in [64, 16384]".to_owned());
        }
        if !routes_fit {
            return Err("size must be a multiple of roads.route_cell".to_owned());
        }
        if let Err(e) = self.terrain.validate() {
            return Err(e);
        }
        if let Err(e) = self.erosion.validate() {
            return Err(e);
        }
        if let Err(e) = self.roads.validate(cells_per_route) {
            return Err(e);
        }
        if let Err(e) = self.farms.validate() {
            return Err(e);
        }
        if let Err(e) = self.fields.validate() {
            return Err(e);
        }
        if let Err(e) = self.scatter.validate(hedge_and_fence) {
            return Err(e);
        }
        if let Err(e) = self.materials.validate() {
            return Err(e);
        }
        if let Err(e) = self.water.validate() {
            return Err(e);
        }
        Ok(())
    }
}

impl RuralConfig {
    /// 512 m of farmland: a main road and a few farms, for training pools.
    pub open spec fn training_config() -> RuralConfig {
        RuralConfig {
            size: 0x4080_0000_0000_0000,
            cell: ONE,
            terrain: TerrainConfig { relief: 0x4059_0000_0000_0000, hills_wavelength: 0x4082_c000_0000_0000, hills_amplitude: 0x3fd6_6666_6666_6666, mountains_wavelength: 0x4092_c000_0000_0000, mountains_amplitude: 0x3fd9_9999_9999_999a, mask_wavelength: 0x4092_c000_0000_0000, mask_threshold: 0x3fe0_0000_0000_0000, warp_wavelength: 0x407f_4000_0000_0000, warp_strength: 0x4044_0000_0000_0000, detail_amplitude: 0x3fa9_9999_9999_999a, ..TerrainConfig::defaults() },
            erosion: ErosionConfig::defaults(),
            water: WaterConfig::defaults(),
            farms: FarmsConfig::defaults(),
            roads: RoadsConfig::defaults(),
            fields: FieldsConfig::defaults(),
            materials: RuralMaterialsConfig::defaults(),
            scatter: ScatterConfig::defaults(),
        }
    }

    /// 512 m of farmland: a main road and a few farms, for training pools.
    pub fn training() -> (r: RuralConfig)
        ensures
            r == RuralConfig::training_config(),
    {
        RuralConfig {
            size: 0x4080_0000_0000_0000,  // 512
            cell: ONE,
            terrain: TerrainConfig { relief: 0x4059_0000_0000_0000, hills_wavelength: 0x4082_c000_0000_0000, hills_amplitude: 0x3fd6_6666_6666_6666, mountains_wavelength: 0x4092_c000_0000_0000, mountains_amplitude: 0x3fd9_9999_9999_999a, mask_wavelength: 0x4092_c000_0000_0000, mask_threshold: 0x3fe0_0000_0000_0000, warp_wavelength: 0x407f_4000_0000_0000, warp_strength: 0x4044_0000_0000_0000, detail_amplitude: 0x3fa9_9999_9999_999a, ..TerrainConfig::default() },
            erosion: ErosionConfig::default(),
            water: WaterConfig::default(),
            farms: FarmsConfig::default(),
            roads: RoadsConfig::default(),
            fields: FieldsConfig::default(),
            materials: RuralMaterialsConfig::default(),
            scatter: ScatterConfig::default(),
        }
    }

    /// 2 km of farmland with a few dozen farms.
    pub open spec fn showcase_config() -> RuralConfig {
        RuralConfig {
            size: 0x40a0_0000_0000_0000,
            cell: ONE,
            terrain: TerrainConfig { relief: 0x405e_0000_0000_0000, hills_wavelength: 0x4082_c000_0000_0000, hills_amplitude: 0x3fd6_6666_6666_6666, mountains_wavelength: 0x4092_c000_0000_0000, mountains_amplitude: 0x3fd9_9999_9999_999a, mask_wavelength: 0x4092_c000_0000_0000, mask_threshold: 0x3fe0_0000_0000_0000, warp_wavelength: 0x407f_4000_0000_0000, warp_strength: 0x4044_0000_0000_0000, detail_amplitude: 0x3fa9_9999_9999_999a, ..TerrainConfig::defaults() },
            erosion: ErosionConfig::defaults(),
            water: WaterConfig::defaults(),
            farms: FarmsConfig { spacing: 0x4070_4000_0000_0000, ..FarmsConfig::defaults() },
            roads: RoadsConfig::defaults(),
            fields: FieldsConfig { spacing: 0x4062_c000_0000_0000, ..FieldsConfig::defaults() },
            materials: RuralMaterialsConfig::defaults(),
            scatter: ScatterConfig::defaults(),
        }
    }

    /// 2 km of farmland with a few dozen farms.
    pub fn showcase() -> (r: RuralConfig)
        ensures
            r == RuralConfig::showcase_config(),
    {
        RuralConfig {
            size: 0x40a0_0000_0000_0000,  // 2048
            cell: ONE,
            terrain: TerrainConfig { relief: 0x405e_0000_0000_0000, hills_wavelength: 0x4082_c000_0000_0000, hills_amplitude: 0x3fd6_6666_6666_6666, mountains_wavelength: 0x4092_c000_0000_0000, mountains_amplitude: 0x3fd9_9999_9999_999a, mask_wavelength: 0x4092_c000_0000_0000, mask_threshold: 0x3fe0_0000_0000_0000, warp_wavelength: 0x407f_4000_0000_0000, warp_strength: 0x4044_0000_0000_0000, detail_amplitude: 0x3fa9_9999_9999_999a, ..TerrainConfig::default() },
            erosion: ErosionConfig::default(),
            water: WaterConfig::default(),
            farms: FarmsConfig { spacing: 0x4070_4000_0000_0000, ..FarmsConfig::default() },
            roads: RoadsConfig::default(),
            fields: FieldsConfig { spacing: 0x4062_c000_0000_0000, ..FieldsConfig::default() },
            materials: RuralMaterialsConfig::default(),
            scatter: ScatterConfig::default(),
        }
    }
}

impl Default for WildConfig {
    fn default() -> (r: WildConfig)
        ensures
            r == WildConfig::training_config(),
    {
        WildConfig::training()
    }
}

/// Named starting points for [`WildConfig`].
#[derive(Clone, Copy, Debug, PartialEq, Eq, Structural)]
pub enum WildPreset {
    Training,
    Showcase,
    Offroad,
}

impl WildPreset {
    pub open spec fn of(self) -> WildConfig {
        match self {
            WildPreset::Training => WildConfig::training_config(),
            WildPreset::Showcase => WildConfig::showcase_config(),
            WildPreset::Offroad => WildConfig::offroad_config(),
        }
    }

    pub fn config(self) -> (r: WildConfig)
        ensures
            r == self.of(),
    {
        match self {
            WildPreset::Training => WildConfig::training(),
            WildPreset::Showcase => WildConfig::showcase(),
            WildPreset::Offroad => WildConfig::offroad(),
        }
    }

    /// The preset with a name, or what to say of an unknown one.
    pub fn parse(s: &str) -> (r: Result<WildPreset, String>)
        ensures
            match r {
                Ok(WildPreset::Training) => s@ == "training"@,
                Ok(WildPreset::Showcase) => s@ == "showcase"@,
                Ok(WildPreset::Offroad) => s@ == "offroad"@,
                Err(e) => s@ != "training"@ && s@ != "showcase"@ && s@ != "offroad"@ && e@
                    == unknown_preset(s@, "training, showcase, offroad"@),
            },
    {
        if text::same(s, "training") {
            Ok(WildPreset::Training)
        } else if text::same(s, "showcase") {
            Ok(WildPreset::Showcase)
        } else if text::same(s, "offroad") {
            Ok(WildPreset::Offroad)
        } else {
            Err(unknown(s, "training, showcase, offroad"))
        }
    }
}

impl Default for RuralConfig {
    fn default() -> (r: RuralConfig)
        ensures
            r == RuralConfig::training_config(),
    {
        RuralConfig::training()
    }
}

/// Named starting points for [`RuralConfig`].
#[derive(Clone, Copy, Debug, PartialEq, Eq, Structural)]
pub enum RuralPreset {
    Training,
    Showcase,
}

impl RuralPreset {
    pub open spec fn of(self) -> RuralConfig {
        match self {
            RuralPreset::Training => RuralConfig::training_config(),
            RuralPreset::Showcase => RuralConfig::showcase_config(),
        }
    }

    pub fn config(self) -> (r: RuralConfig)
        ensures
            r == self.of(),
    {
        match self {
            RuralPreset::Training => RuralConfig::training(),
            RuralPreset::Showcase => RuralConfig::showcase(),
        }
    }

    /// The preset with a name, or what to say of an unknown one.
    pub fn parse(s: &str) -> (r: Result<RuralPreset, String>)
        ensures
            match r {
                Ok(RuralPreset::Training) => s@ == "training"@,
                Ok(RuralPreset::Showcase) => s@ == "showcase"@,
                Err(e) => s@ != "training"@ && s@ != "showcase"@ && e@ == unknown_preset(
                    s@,
                    "training, showcase"@,
                ),
            },
    {
        if text::same(s, "training") {
            Ok(RuralPreset::Training)
        } else if text::same(s, "showcase") {
            Ok(RuralPreset::Showcase)
        } else {
            Err(unknown(s, "training, showcase"))
        }
    }
}

/// What is said of a preset that is none of the known ones.
pub open spec fn unknown_preset(s: Seq<char>, known: Seq<char>) -> Seq<char> {
    "unknown preset "@ + text::quoted(s) + " ("@ + known + ")"@
}

fn unknown(s: &str, known: &str) -> (r: String)
    ensures
        r@ == unknown_preset(s@, known@),
{
    let mut m = "unknown preset ".to_owned();
    m.append(text::quote(s).as_str());
    m.append(" (");
    m.append(known);
    m.append(")");
    m
}

/// Why a map was not made.
#[derive(Clone, Debug)]
pub enum ProcgenError {
    Config(String),
    MapFile(String),
    Io(String),
}

impl ProcgenError {
    pub open spec fn text(&self) -> Seq<char> {
        match self {
            ProcgenError::Config(s) => "invalid generator config: "@ + s@,
            ProcgenError::MapFile(s) => s@,
            ProcgenError::Io(s) => "map cache: "@ + s@,
        }
    }

    pub fn message(&self) -> (r: String)
        ensures
            r@ == self.text(),
    {
        match self {
            ProcgenError::Config(s) => {
                let mut m = "invalid generator config: ".to_owned();
                m.append(s.as_str());
                m
            },
            ProcgenError::MapFile(s) => {
                let mut m = String::new();
                m.append(s.as_str());
                assert(m@ =~= s@);
                m
            },
            ProcgenError::Io(s) => {
                let mut m = "map cache: ".to_owned();
                m.append(s.as_str());
                m
            },
        }
    }
}

/// The presets are valid: a default configuration is never refused.
pub proof fn lemma_presets_are_valid(wild: WildPreset, rural: RuralPreset)
    ensures
        wild.of().fault(Some(
            if wild == WildPreset::Showcase {
                2048
            } else {
                512
            },
        )) is None,
        rural.of().fault(
            Some(
                if rural == RuralPreset::Training {
                    512
                } else {
                    2048
                },
            ),
            true,
            4,
            0x3fe6_6666_6666_6666,
        ) is None,
{
}

/// The offroad preset is as large as the training preset, and flatter.
pub proof fn lemma_offroad_is_gentle()
    ensures
        WildPreset::Offroad.of().size == WildPreset::Training.of().size,
        ieee::lt64(WildPreset::Offroad.of().terrain.relief, WildPreset::Training.of().terrain.relief),
{
}

/// A number is positive, or not negative, or in `[0, 1]`, exactly if its place on the number line is.
pub proof fn lemma_ranges(v: u64)
    ensures
        positive(v) <==> 0 < ieee::rank64(v) <= ieee::INFINITY64,
        non_negative(v) <==> 0 <= ieee::rank64(v) <= ieee::INFINITY64,
        in_unit(v) <==> 0 <= ieee::rank64(v) <= ieee::rank64(ONE),
{
}

/// Terrain is accepted exactly if its height scale and its wavelengths are positive and finite, its
/// amplitudes not negative and finite, and its fractals in order.
pub proof fn lemma_accepted_terrain(c: TerrainConfig)
    ensures
        c.fault() is None <==> (forall|v: u64|
            v == c.relief || v == c.hills_wavelength || v == c.mountains_wavelength || v == c.mask_wavelength || v
                == c.warp_wavelength || v == c.detail_wavelength ==> 0 < #[trigger] ieee::rank64(v) < ieee::INFINITY64) && (
        forall|v: u64|
            v == c.hills_amplitude || v == c.mountains_amplitude || v == c.warp_strength || v == c.detail_amplitude ==> 0
                <= #[trigger] ieee::rank64(v) < ieee::INFINITY64) && c.hills.valid() && c.mountains.valid(),
{
    let a = ieee::rank64(c.relief) + ieee::rank64(c.hills_wavelength) + ieee::rank64(c.mountains_wavelength)
        + ieee::rank64(c.mask_wavelength) + ieee::rank64(c.warp_wavelength) + ieee::rank64(c.detail_wavelength);
    let b = ieee::rank64(c.hills_amplitude) + ieee::rank64(c.mountains_amplitude) + ieee::rank64(c.warp_strength)
        + ieee::rank64(c.detail_amplitude);
}

/// Erosion is accepted exactly if its rates are shares, it has at most a hundred droplets in a cell, a
/// radius from 1 to 16, at most a sixteenth of the excess slides at a time, and from a slope between level
/// and upright; whether it is on, how long droplets live and how often the ground slides is free.
pub proof fn lemma_accepted_erosion(c: ErosionConfig)
    ensures
        c.fault() is None <==> {
            &&& 0 <= ieee::rank64(c.inertia) <= ieee::rank64(ONE)
            &&& 0 <= ieee::rank64(c.deposit_rate) <= ieee::rank64(ONE)
            &&& 0 <= ieee::rank64(c.erode_rate) <= ieee::rank64(ONE)
            &&& 0 <= ieee::rank64(c.evaporation) <= ieee::rank64(ONE)
            &&& 0 <= ieee::rank64(c.droplets_per_cell) <= 0x4059_0000_0000_0000
            &&& 1 <= c.radius <= 16
            &&& 0 < ieee::rank64(c.thermal_rate) <= 0x3fb0_0000_0000_0000
            &&& 0 < ieee::rank64(c.talus_deg) < 0x4056_8000_0000_0000
            &&& 0 <= ieee::rank64(c.capacity) <= ieee::INFINITY64
            &&& 0 <= ieee::rank64(c.min_capacity) <= ieee::INFINITY64
            &&& 0 <= ieee::rank64(c.gravity) <= ieee::INFINITY64
        },
{
}

/// Trees are accepted exactly if at most two thousand stand on a hectare of forest, trunks at least half
/// a metre apart, trees higher than one metre and up to eighty, conifers a share, and slopes between level
/// and upright.
pub proof fn lemma_accepted_trees(c: TreesConfig)
    ensures
        c.fault() is None <==> {
            &&& 0 <= ieee::rank64(c.forest_density) <= 0x409f_4000_0000_0000
            &&& 0 <= ieee::rank64(c.meadow_density) <= ieee::INFINITY64
            &&& 0x3fe0_0000_0000_0000 <= ieee::rank64(c.min_spacing) <= ieee::INFINITY64
            &&& ieee::rank64(ONE) < ieee::rank64(c.min_height) <= ieee::rank64(c.max_height) <= 0x4054_0000_0000_0000
            &&& 0 <= ieee::rank64(c.conifer_low) <= ieee::rank64(ONE)
            &&& 0 <= ieee::rank64(c.conifer_high) <= ieee::rank64(ONE)
            &&& 0 < ieee::rank64(c.max_slope_deg) < 0x4056_8000_0000_0000
        },
{
}

/// Rocks are accepted exactly if at most two thousand lie on a hectare of rocky ground, from five
/// centimetres on with the smallest no larger than the largest, and less than half sunk in.
pub proof fn lemma_accepted_rocks(c: RocksConfig)
    ensures
        c.fault() is None <==> {
            &&& 0 <= ieee::rank64(c.rocky_density) <= 0x409f_4000_0000_0000
            &&& 0 <= ieee::rank64(c.other_density) <= ieee::INFINITY64
            &&& 0x3fa9_9999_9999_999a <= ieee::rank64(c.min_size) <= ieee::rank64(c.max_size) <= ieee::INFINITY64
            &&& 0 < ieee::rank64(c.size_exponent) <= ieee::INFINITY64
            &&& 0 <= ieee::rank64(c.sunk) < 0x3fe0_0000_0000_0000
        },
{
}

/// Water is accepted exactly if lakes need no negative depth or area and cover a share of what drains
/// into them; whether there is any is free.
pub proof fn lemma_accepted_water(c: WaterConfig)
    ensures
        c.fault() is None <==> {
            &&& 0 <= ieee::rank64(c.min_depth) <= ieee::INFINITY64
            &&& 0 <= ieee::rank64(c.min_area) <= ieee::INFINITY64
            &&& 0 <= ieee::rank64(c.max_catchment_share) <= ieee::rank64(ONE)
        },
{
}

/// The material rules are accepted exactly if their slopes lie between level and upright, the forest has
/// a wavelength, shores have sizes, and the tree- and snowline are numbers; how wet a marsh and how dense
/// a forest is, is free.
pub proof fn lemma_accepted_materials(c: MaterialsConfig, r: RuralMaterialsConfig)
    ensures
        c.fault() is None <==> {
            &&& 0 < ieee::rank64(c.rock_slope_deg) < 0x4056_8000_0000_0000
            &&& 0 < ieee::rank64(c.scree_slope_deg) < 0x4056_8000_0000_0000
            &&& 0 < ieee::rank64(c.snow_max_slope_deg) < 0x4056_8000_0000_0000
            &&& 0 < ieee::rank64(c.forest_wavelength) <= ieee::INFINITY64
            &&& 0 <= ieee::rank64(c.shore_width) <= ieee::INFINITY64
            &&& 0 <= ieee::rank64(c.shore_height) <= ieee::INFINITY64
            &&& 0 <= ieee::rank64(c.line_noise) <= ieee::INFINITY64
            &&& -ieee::INFINITY64 < ieee::rank64(c.treeline) < ieee::INFINITY64
            &&& -ieee::INFINITY64 < ieee::rank64(c.snowline) < ieee::INFINITY64
        },
        r.fault() is None <==> {
            &&& 0 < ieee::rank64(r.rock_slope_deg) < 0x4056_8000_0000_0000
            &&& 0 <= ieee::rank64(r.shore_width) <= ieee::INFINITY64
        },
{
}

/// Whether the geometry of a road class makes sense.
pub open spec fn drivable(c: ClassConfig) -> bool {
    &&& 0 < ieee::rank64(c.width) <= ieee::INFINITY64
    &&& 0 < ieee::rank64(c.max_grade) <= ieee::INFINITY64
    &&& 0 < ieee::rank64(c.min_radius) <= ieee::INFINITY64
    &&& 0 <= ieee::rank64(c.crown) <= ieee::INFINITY64
}

/// Roads are accepted exactly if every class makes sense, the routing grid is a whole multiple of the
/// map's, shoulders are there, and no clearance, window or cost is negative.
pub proof fn lemma_accepted_roads(c: RoadsConfig, cells_per_route: u64)
    ensures
        c.fault(cells_per_route) is None <==> {
            &&& forall|class: RoadClass| drivable(#[trigger] c.class_of(class))
            &&& cells_per_route > 0
            &&& 0 <= ieee::rank64(c.water_clearance) <= ieee::INFINITY64
            &&& 0 < ieee::rank64(c.shoulder) <= ieee::INFINITY64
            &&& 0 <= ieee::rank64(c.profile_window) <= ieee::INFINITY64
            &&& 0 <= ieee::rank64(c.grade_cost) <= ieee::INFINITY64
            &&& 0 <= ieee::rank64(c.side_slope_cost) <= ieee::INFINITY64
            &&& 0 <= ieee::rank64(c.turn_cost) <= ieee::INFINITY64
        },
        c.class_of(RoadClass::Paved) == c.paved,
        c.class_of(RoadClass::Gravel) == c.gravel,
        c.class_of(RoadClass::Track) == c.track,
{
    assert(c.class_of(RoadClass::Paved) == c.paved);
    assert(c.class_of(RoadClass::Gravel) == c.gravel);
    assert(c.class_of(RoadClass::Track) == c.track);
}

/// By default better roads are wider, less steep and less sharply curved.
pub proof fn lemma_better_roads_are_wider()
    ensures
        ({
            let c = RoadsConfig::defaults();
            &&& ieee::lt64(c.track.width, c.gravel.width) && ieee::lt64(c.gravel.width, c.paved.width)
            &&& ieee::lt64(c.paved.max_grade, c.gravel.max_grade) && ieee::lt64(c.gravel.max_grade, c.track.max_grade)
            &&& ieee::lt64(c.track.min_radius, c.gravel.min_radius) && ieee::lt64(c.gravel.min_radius, c.paved.min_radius)
        }),
{
}

/// Farms and fields are accepted exactly if farms have a spacing and a yard, fields lie at least twenty
/// metres apart, their shares are not negative and not all nothing, and woods are a share.
pub proof fn lemma_accepted_farmland(a: FarmsConfig, c: FieldsConfig)
    requires
        !ieee::nan64(c.meadow) && !ieee::nan64(c.crop) && !ieee::nan64(c.plowed),
    ensures
        a.fault() is None <==> {
            &&& 0 < ieee::rank64(a.spacing) <= ieee::INFINITY64
            &&& 0 < ieee::rank64(a.yard.0) <= ieee::INFINITY64
            &&& 0 < ieee::rank64(a.yard.1) <= ieee::INFINITY64
            &&& 0 <= ieee::rank64(a.max_relief) <= ieee::INFINITY64
            &&& 0 <= ieee::rank64(a.margin) <= ieee::INFINITY64
            &&& 0 <= ieee::rank64(a.pad) <= ieee::INFINITY64
        },
        c.fault() is None <==> {
            &&& 0x4034_0000_0000_0000 <= ieee::rank64(c.spacing) <= ieee::INFINITY64
            &&& 0 <= ieee::rank64(c.jitter) <= ieee::rank64(ONE)
            &&& 0 <= ieee::rank64(c.meadow) && 0 <= ieee::rank64(c.crop) && 0 <= ieee::rank64(c.plowed)
            &&& 0 < ieee::rank64(c.meadow) + ieee::rank64(c.crop) + ieee::rank64(c.plowed)
            &&& 0 <= ieee::rank64(c.woods) <= ieee::rank64(ONE)
            &&& 0 < ieee::rank64(c.woods_slope_deg) <= ieee::INFINITY64
            &&& 0 <= ieee::rank64(c.headland) <= ieee::INFINITY64
            &&& !ieee::nan64(c.track_distance)
        },
{
}

/// What stands on farmland is accepted exactly if hedges and fences are shares, together at most all, of
/// some size, lines of trees are a share with trees at least two metres apart, and roads keep no negative
/// clearance.
pub proof fn lemma_accepted_scatter(c: ScatterConfig, hedge_and_fence: u64)
    ensures
        c.fault(hedge_and_fence) is None <==> {
            &&& 0 <= ieee::rank64(c.hedge) <= ieee::rank64(ONE)
            &&& 0 <= ieee::rank64(c.fence) <= ieee::rank64(ONE)
            &&& -ieee::INFINITY64 <= ieee::rank64(hedge_and_fence) <= ieee::rank64(ONE)
            &&& 0 < ieee::rank64(c.hedge_height.0) <= ieee::rank64(c.hedge_height.1) <= ieee::INFINITY64
            &&& 0 < ieee::rank64(c.hedge_width) <= ieee::INFINITY64
            &&& 0 < ieee::rank64(c.fence_height) <= ieee::INFINITY64
            &&& 0 <= ieee::rank64(c.tree_line) <= ieee::rank64(ONE)
            &&& 0x4000_0000_0000_0000 <= ieee::rank64(c.tree_line_spacing) <= ieee::INFINITY64
            &&& 0 <= ieee::rank64(c.road_clearance) <= ieee::INFINITY64
            &&& 0 <= ieee::rank64(c.road_headroom) <= ieee::INFINITY64
            &&& c.trees.fault() is None
        },
{
}

/// A map has an even number of cells along an edge, from 64 to 16384.
pub proof fn lemma_even_cells(n: u64)
    ensures
        even_cells(Some(n)) <==> exists|h: u64| 32 <= h <= 8192 && n == #[trigger] (2 * h),
        !even_cells(None),
{
    if even_cells(Some(n)) {
        let h = n / 2;
        assert(n == 2 * h);
    }
}

/// A map is accepted exactly if its cells are from a quarter of a metre to eight metres wide and even in
/// number, and every part is accepted.
pub proof fn lemma_accepted_maps(
    w: WildConfig,
    r: RuralConfig,
    cells: Option<u64>,
    routes_fit: bool,
    cells_per_route: u64,
    hedge_and_fence: u64,
)
    ensures
        w.fault(cells) is None <==> {
            &&& 0x3fd0_0000_0000_0000 <= ieee::rank64(w.cell) <= 0x4020_0000_0000_0000
            &&& even_cells(cells)
            &&& w.terrain.fault() is None
            &&& w.erosion.fault() is None
            &&& w.materials.fault() is None
            &&& w.trees.fault() is None
            &&& w.rocks.fault() is None
            &&& w.water.fault() is None
        },
        r.fault(cells, routes_fit, cells_per_route, hedge_and_fence) is None <==> {
            &&& 0x3fd0_0000_0000_0000 <= ieee::rank64(r.cell) <= 0x4020_0000_0000_0000
            &&& even_cells(cells)
            &&& routes_fit
            &&& r.terrain.fault() is None
            &&& r.erosion.fault() is None
            &&& r.roads.fault(cells_per_route) is None
            &&& r.farms.fault() is None
            &&& r.fields.fault() is None
            &&& r.scatter.fault(hedge_and_fence) is None
            &&& r.materials.fault() is None
            &&& r.water.fault() is None
        },
{
}

/// A part that is not accepted is blamed, if everything before it is in order.
pub proof fn lemma_faults_are_blamed(w: WildConfig, cells: Option<u64>)
    requires
        even_cells(cells),
        0x3fd0_0000_0000_0000 <= ieee::rank64(w.cell) <= 0x4020_0000_0000_0000,
    ensures
        w.terrain.fault() is Some ==> w.fault(cells) == w.terrain.fault(),
        w.terrain.fault() is None && w.erosion.fault() is Some ==> w.fault(cells) == w.erosion.fault(),
        w.terrain.fault() is None && w.erosion.fault() is None && w.materials.fault() is Some ==> w.fault(cells)
            == w.materials.fault(),
        w.terrain.fault() is None && w.erosion.fault() is None && w.materials.fault() is None && w.trees.fault()
            is Some ==> w.fault(cells) == w.trees.fault(),
{
}

/// Showcase maps are larger and higher than training maps, and rural ones have their farms and fields
/// farther apart; all have cells of one metre.
pub proof fn lemma_showcases_are_larger()
    ensures
        ieee::lt64(WildPreset::Training.of().size, WildPreset::Showcase.of().size),
        ieee::lt64(WildPreset::Training.of().terrain.relief, WildPreset::Showcase.of().terrain.relief),
        ieee::lt64(RuralPreset::Training.of().size, RuralPreset::Showcase.of().size),
        ieee::lt64(RuralPreset::Training.of().terrain.relief, RuralPreset::Showcase.of().terrain.relief),
        ieee::lt64(RuralPreset::Training.of().farms.spacing, RuralPreset::Showcase.of().farms.spacing),
        ieee::lt64(RuralPreset::Training.of().fields.spacing, RuralPreset::Showcase.of().fields.spacing),
        forall|p: WildPreset| (#[trigger] p.of()).cell == ONE,
        forall|p: RuralPreset| (#[trigger] p.of()).cell == ONE,
        WildPreset::Training.of().size == RuralPreset::Training.of().size,
        WildPreset::Showcase.of().size == RuralPreset::Showcase.of().size,
{
}

/// The defaults of [`TerrainConfig`], as fractions.
pub proof fn lemma_default_terrain()
    ensures
        ({
            let c = TerrainConfig::defaults();
            &&& ieee::nearest(c.relief, 300, 1)
            &&& ieee::nearest(c.hills_wavelength, 800, 1)
            &&& ieee::nearest(c.hills_amplitude, 1, 4)
            &&& c.hills.octaves == 5
            &&& ieee::nearest(c.hills.lacunarity, 2, 1)
            &&& ieee::nearest(c.hills.gain, 2, 5)
            &&& ieee::nearest(c.mountains_wavelength, 1600, 1)
            &&& ieee::nearest(c.mountains_amplitude, 9, 10)
            &&& c.mountains.octaves == 6
            &&& ieee::nearest(c.mountains.lacunarity, 2, 1)
            &&& ieee::nearest(c.mountains.gain, 2, 5)
            &&& ieee::nearest(c.mask_wavelength, 1600, 1)
            &&& c.mask_threshold == 0
            &&& ieee::nearest(c.warp_wavelength, 800, 1)
            &&& ieee::nearest(c.warp_strength, 80, 1)
            &&& ieee::nearest(c.detail_amplitude, 1, 4)
            &&& ieee::nearest(c.detail_wavelength, 6, 1)
        }),
{
    vstd::arithmetic::power2::lemma2_to64();
    vstd::arithmetic::power2::lemma2_to64_rest();
}

/// The defaults of [`ErosionConfig`], as fractions.
pub proof fn lemma_default_erosion()
    ensures
        ({
            let c = ErosionConfig::defaults();
            &&& c.enabled
            &&& ieee::nearest(c.droplets_per_cell, 3, 5)
            &&& c.lifetime == 30
            &&& ieee::nearest(c.inertia, 1, 20)
            &&& ieee::nearest(c.capacity, 4, 1)
            &&& ieee::nearest(c.min_capacity, 1, 100)
            &&& ieee::nearest(c.deposit_rate, 3, 10)
            &&& ieee::nearest(c.erode_rate, 3, 10)
            &&& ieee::nearest(c.evaporation, 1, 100)
            &&& ieee::nearest(c.gravity, 4, 1)
            &&& c.radius == 3
            &&& c.thermal_iterations == 60
            &&& ieee::nearest(c.talus_deg, 38, 1)
            &&& ieee::nearest(c.thermal_rate, 1, 16)
        }),
{
    vstd::arithmetic::power2::lemma2_to64();
    vstd::arithmetic::power2::lemma2_to64_rest();
}

/// The defaults of [`TreesConfig`], as fractions.
pub proof fn lemma_default_trees()
    ensures
        ({
            let c = TreesConfig::defaults();
            &&& ieee::nearest(c.forest_density, 350, 1)
            &&& ieee::nearest(c.meadow_density, 6, 1)
            &&& ieee::nearest(c.min_spacing, 3, 1)
            &&& ieee::nearest(c.max_slope_deg, 35, 1)
            &&& ieee::nearest(c.min_height, 8, 1)
            &&& ieee::nearest(c.max_height, 26, 1)
            &&& ieee::nearest(c.conifer_low, 3, 10)
            &&& ieee::nearest(c.conifer_high, 19, 20)
        }),
{
    vstd::arithmetic::power2::lemma2_to64();
    vstd::arithmetic::power2::lemma2_to64_rest();
}

/// The defaults of [`RocksConfig`], as fractions.
pub proof fn lemma_default_rocks()
    ensures
        ({
            let c = RocksConfig::defaults();
            &&& ieee::nearest(c.rocky_density, 120, 1)
            &&& ieee::nearest(c.other_density, 2, 1)
            &&& ieee::nearest(c.min_size, 2, 5)
            &&& ieee::nearest(c.max_size, 4, 1)
            &&& ieee::nearest(c.size_exponent, 11, 5)
            &&& ieee::nearest(c.sunk, 3, 10)
        }),
{
    vstd::arithmetic::power2::lemma2_to64();
    vstd::arithmetic::power2::lemma2_to64_rest();
}

/// The defaults of [`WaterConfig`], as fractions.
pub proof fn lemma_default_water()
    ensures
        ({
            let c = WaterConfig::defaults();
            &&& c.enabled
            &&& ieee::nearest(c.min_depth, 1, 2)
            &&& ieee::nearest(c.min_area, 200, 1)
            &&& ieee::nearest(c.max_catchment_share, 3, 50)
        }),
{
    vstd::arithmetic::power2::lemma2_to64();
    vstd::arithmetic::power2::lemma2_to64_rest();
}

/// The defaults of [`MaterialsConfig`], as fractions.
pub proof fn lemma_default_materials()
    ensures
        ({
            let c = MaterialsConfig::defaults();
            &&& ieee::nearest(c.rock_slope_deg, 42, 1)
            &&& ieee::nearest(c.scree_slope_deg, 30, 1)
            &&& ieee::nearest(c.treeline, 11, 20)
            &&& ieee::nearest(c.snowline, 18, 25)
            &&& ieee::nearest(c.snow_max_slope_deg, 38, 1)
            &&& ieee::nearest(c.line_noise, 1, 20)
            &&& ieee::nearest(c.forest_wavelength, 300, 1)
            &&& c.forest_threshold >= ieee::SIGN64 && ieee::nearest((c.forest_threshold - ieee::SIGN64) as u64, 1, 10)
            &&& ieee::nearest(c.shore_width, 3, 1)
            &&& ieee::nearest(c.shore_height, 3, 5)
            &&& ieee::nearest(c.marsh_moisture, 17, 20)
        }),
{
    vstd::arithmetic::power2::lemma2_to64();
    vstd::arithmetic::power2::lemma2_to64_rest();
}

/// The defaults of [`RoadsConfig`], as fractions.
pub proof fn lemma_default_roads()
    ensures
        ({
            let c = RoadsConfig::defaults();
            &&& ieee::nearest(c.paved.width, 6, 1)
            &&& ieee::nearest(c.paved.max_grade, 2, 25)
            &&& ieee::nearest(c.paved.min_radius, 30, 1)
            &&& ieee::nearest(c.paved.crown, 1, 50)
            &&& ieee::nearest(c.gravel.width, 4, 1)
            &&& ieee::nearest(c.gravel.max_grade, 3, 25)
            &&& ieee::nearest(c.gravel.min_radius, 15, 1)
            &&& ieee::nearest(c.gravel.crown, 1, 50)
            &&& ieee::nearest(c.track.width, 3, 1)
            &&& ieee::nearest(c.track.max_grade, 1, 5)
            &&& ieee::nearest(c.track.min_radius, 8, 1)
            &&& c.track.crown == 0
            &&& ieee::nearest(c.route_cell, 4, 1)
            &&& ieee::nearest(c.water_clearance, 8, 1)
            &&& ieee::nearest(c.grade_cost, 60, 1)
            &&& ieee::nearest(c.side_slope_cost, 10, 1)
            &&& ieee::nearest(c.turn_cost, 3, 1)
            &&& ieee::nearest(c.shoulder, 3, 1)
            &&& ieee::nearest(c.profile_window, 20, 1)
        }),
{
    vstd::arithmetic::power2::lemma2_to64();
    vstd::arithmetic::power2::lemma2_to64_rest();
}

/// The defaults of [`FarmsConfig`], as fractions.
pub proof fn lemma_default_farms()
    ensures
        ({
            let c = FarmsConfig::defaults();
            &&& ieee::nearest(c.spacing, 160, 1)
            &&& ieee::nearest(c.yard.0, 20, 1)
            &&& ieee::nearest(c.yard.1, 15, 1)
            &&& ieee::nearest(c.max_relief, 5, 1)
            &&& ieee::nearest(c.water_clearance, 30, 1)
            &&& ieee::nearest(c.margin, 60, 1)
            &&& ieee::nearest(c.pad, 14, 1)
        }),
{
    vstd::arithmetic::power2::lemma2_to64();
    vstd::arithmetic::power2::lemma2_to64_rest();
}

/// The defaults of [`RuralMaterialsConfig`], as fractions.
pub proof fn lemma_default_rural_materials()
    ensures
        ({
            let c = RuralMaterialsConfig::defaults();
            &&& ieee::nearest(c.rock_slope_deg, 35, 1)
            &&& ieee::nearest(c.shore_width, 3, 1)
            &&& ieee::nearest(c.shore_height, 3, 5)
            &&& ieee::nearest(c.marsh_moisture, 17, 20)
        }),
{
    vstd::arithmetic::power2::lemma2_to64();
    vstd::arithmetic::power2::lemma2_to64_rest();
}

/// The defaults of [`FieldsConfig`], as fractions.
pub proof fn lemma_default_fields()
    ensures
        ({
            let c = FieldsConfig::defaults();
            &&& ieee::nearest(c.spacing, 120, 1)
            &&& ieee::nearest(c.jitter, 4, 5)
            &&& ieee::nearest(c.meadow, 7, 20)
            &&& ieee::nearest(c.crop, 2, 5)
            &&& ieee::nearest(c.plowed, 1, 4)
            &&& ieee::nearest(c.woods, 2, 25)
            &&& ieee::nearest(c.woods_slope_deg, 15, 1)
            &&& ieee::nearest(c.headland, 2, 1)
            &&& ieee::nearest(c.track_distance, 50, 1)
        }),
{
    vstd::arithmetic::power2::lemma2_to64();
    vstd::arithmetic::power2::lemma2_to64_rest();
}

/// The defaults of [`ScatterConfig`], as fractions.
pub proof fn lemma_default_scatter()
    ensures
        ({
            let c = ScatterConfig::defaults();
            &&& ieee::nearest(c.hedge, 2, 5)
            &&& ieee::nearest(c.fence, 3, 10)
            &&& ieee::nearest(c.hedge_height.0, 8, 5)
            &&& ieee::nearest(c.hedge_height.1, 14, 5)
            &&& ieee::nearest(c.hedge_width, 7, 5)
            &&& ieee::nearest(c.fence_height, 6, 5)
            &&& ieee::nearest(c.tree_line, 7, 20)
            &&& ieee::nearest(c.tree_line_spacing, 12, 1)
            &&& c.buildings
            &&& ieee::nearest(c.trees.forest_density, 250, 1)
            &&& ieee::nearest(c.trees.meadow_density, 2, 5)
            &&& ieee::nearest(c.trees.min_spacing, 7, 2)
            &&& ieee::nearest(c.trees.max_slope_deg, 35, 1)
            &&& ieee::nearest(c.trees.min_height, 8, 1)
            &&& ieee::nearest(c.trees.max_height, 22, 1)
            &&& ieee::nearest(c.trees.conifer_low, 3, 10)
            &&& ieee::nearest(c.trees.conifer_high, 3, 10)
            &&& ieee::nearest(c.road_clearance, 3, 2)
            &&& ieee::nearest(c.road_headroom, 9, 2)
        }),
{
    vstd::arithmetic::power2::lemma2_to64();
    vstd::arithmetic::power2::lemma2_to64_rest();
}

/// The wild showcase preset, as fractions: what differs from the defaults.
pub proof fn lemma_wild_showcase_preset()
    ensures
        ({
            let c = WildConfig::showcase_config();
            &&& ieee::nearest(c.size, 2048, 1)
            &&& ieee::nearest(c.cell, 1, 1)
            &&& c.terrain == TerrainConfig::defaults()
            &&& c.erosion == ErosionConfig::defaults()
            &&& c.water == WaterConfig::defaults()
            &&& c.materials == MaterialsConfig::defaults()
            &&& c.trees == TreesConfig::defaults()
            &&& c.rocks == RocksConfig::defaults()
        }),
{
    vstd::arithmetic::power2::lemma2_to64();
    vstd::arithmetic::power2::lemma2_to64_rest();
}

/// The wild training preset, as fractions: what differs from the defaults.
pub proof fn lemma_wild_training_preset()
    ensures
        ({
            let c = WildConfig::training_config();
            &&& ieee::nearest(c.size, 512, 1)
            &&& ieee::nearest(c.cell, 1, 1)
            &&& ieee::nearest(c.terrain.relief, 100, 1)
            &&& ieee::nearest(c.terrain.hills_wavelength, 400, 1)
            &&& ieee::nearest(c.terrain.mountains_wavelength, 800, 1)
            &&& ieee::nearest(c.terrain.mask_wavelength, 800, 1)
            &&& ieee::nearest(c.terrain.warp_wavelength, 400, 1)
            &&& ieee::nearest(c.terrain.warp_strength, 40, 1)
            &&& c.erosion == ErosionConfig::defaults()
            &&& c.water == WaterConfig::defaults()
            &&& c.materials == MaterialsConfig::defaults()
            &&& c.trees == TreesConfig::defaults()
            &&& c.rocks == RocksConfig::defaults()
        }),
{
    vstd::arithmetic::power2::lemma2_to64();
    vstd::arithmetic::power2::lemma2_to64_rest();
}

/// The rural training preset, as fractions: what differs from the defaults.
pub proof fn lemma_rural_training_preset()
    ensures
        ({
            let c = RuralConfig::training_config();
            &&& ieee::nearest(c.size, 512, 1)
            &&& ieee::nearest(c.cell, 1, 1)
            &&& ieee::nearest(c.terrain.relief, 100, 1)
            &&& ieee::nearest(c.terrain.hills_wavelength, 600, 1)
            &&& ieee::nearest(c.terrain.hills_amplitude, 7, 20)
            &&& ieee::nearest(c.terrain.mountains_wavelength, 1200, 1)
            &&& ieee::nearest(c.terrain.mountains_amplitude, 2, 5)
            &&& ieee::nearest(c.terrain.mask_wavelength, 1200, 1)
            &&& ieee::nearest(c.terrain.mask_threshold, 1, 2)
            &&& ieee::nearest(c.terrain.warp_wavelength, 500, 1)
            &&& ieee::nearest(c.terrain.warp_strength, 40, 1)
            &&& ieee::nearest(c.terrain.detail_amplitude, 1, 20)
            &&& c.erosion == ErosionConfig::defaults()
            &&& c.water == WaterConfig::defaults()
            &&& c.farms == FarmsConfig::defaults()
            &&& c.roads == RoadsConfig::defaults()
            &&& c.fields == FieldsConfig::defaults()
            &&& c.materials == RuralMaterialsConfig::defaults()
            &&& c.scatter == ScatterConfig::defaults()
        }),
{
    vstd::arithmetic::power2::lemma2_to64();
    vstd::arithmetic::power2::lemma2_to64_rest();
}

/// The rural showcase preset, as fractions: what differs from the defaults.
pub proof fn lemma_rural_showcase_preset()
    ensures
        ({
            let c = RuralConfig::showcase_config();
            &&& ieee::nearest(c.size, 2048, 1)
            &&& ieee::nearest(c.cell, 1, 1)
            &&& ieee::nearest(c.terrain.relief, 120, 1)
            &&& ieee::nearest(c.terrain.hills_wavelength, 600, 1)
            &&& ieee::nearest(c.terrain.hills_amplitude, 7, 20)
            &&& ieee::nearest(c.terrain.mountains_wavelength, 1200, 1)
            &&& ieee::nearest(c.terrain.mountains_amplitude, 2, 5)
            &&& ieee::nearest(c.terrain.mask_wavelength, 1200, 1)
            &&& ieee::nearest(c.terrain.mask_threshold, 1, 2)
            &&& ieee::nearest(c.terrain.warp_wavelength, 500, 1)
            &&& ieee::nearest(c.terrain.warp_strength, 40, 1)
            &&& ieee::nearest(c.terrain.detail_amplitude, 1, 20)
            &&& c.erosion == ErosionConfig::defaults()
            &&& c.water == WaterConfig::defaults()
            &&& ieee::nearest(c.farms.spacing, 260, 1)
            &&& c.roads == RoadsConfig::defaults()
            &&& ieee::nearest(c.fields.spacing, 150, 1)
            &&& c.materials == RuralMaterialsConfig::defaults()
            &&& c.scatter == ScatterConfig::defaults()
        }),
{
    vstd::arithmetic::power2::lemma2_to64();
    vstd::arithmetic::power2::lemma2_to64_rest();
}

/// The offroad preset is the training preset with forty metres of relief.
pub proof fn lemma_offroad_preset()
    ensures
        ieee::nearest(WildPreset::Offroad.of().terrain.relief, 40, 1),
        WildPreset::Offroad.of() == (WildConfig {
            terrain: TerrainConfig {
                relief: WildPreset::Offroad.of().terrain.relief,
                ..WildPreset::Training.of().terrain
            },
            ..WildPreset::Training.of()
        }),
{
    vstd::arithmetic::power2::lemma2_to64();
    vstd::arithmetic::power2::lemma2_to64_rest();
}

/// What is said of a map that was not made ends with what went wrong, and says whether the configuration
/// or the cache is to blame.
pub proof fn lemma_map_errors_end_with_their_reason(e: ProcgenError)
    ensures
        ({
            let reason = match e {
                ProcgenError::Config(s) => s@,
                ProcgenError::MapFile(s) => s@,
                ProcgenError::Io(s) => s@,
            };
            let t = e.text();
            &&& t.subrange(t.len() - reason.len(), t.len() as int) == reason
            &&& e is MapFile ==> t == reason
            &&& e is Config ==> t[0] == 'i' && t.len() > reason.len()
            &&& e is Io ==> t[0] == 'm' && t.len() > reason.len()
        }),
{
    reveal_strlit("invalid generator config: ");
    reveal_strlit("map cache: ");
    let reason = match e {
        ProcgenError::Config(s) => s@,
        ProcgenError::MapFile(s) => s@,
        ProcgenError::Io(s) => s@,
    };
    let t = e.text();
    assert(t.subrange(t.len() - reason.len(), t.len() as int) =~= reason);
}

/// What is said of an unknown preset names it first and then those that are known.
pub proof fn lemma_unknown_presets_are_named(s: Seq<char>, known: Seq<char>)
    ensures
        ({
            let t = unknown_preset(s, known);
            let a = "unknown preset "@.len() as int;
            &&& t.subrange(a, a + text::quoted(s).len()) == text::quoted(s)
            &&& t.subrange(t.len() - 1 - known.len(), t.len() - 1) == known
        }),
{
    reveal_strlit(")");
    let t = unknown_preset(s, known);
    let a = "unknown preset "@.len() as int;
    assert(t.subrange(a, a + text::quoted(s).len()) =~= text::quoted(s));
    assert(t.subrange(t.len() - 1 - known.len(), t.len() - 1) =~= known);
}

} // verus!
