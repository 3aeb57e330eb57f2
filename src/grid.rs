//! Regular and quasi-regular latitude/longitude grid definitions read from
//! grid-template integers.
use vstd::prelude::*;

use crate::codetables::Codetable;
use crate::product::{meaning_lookup_spec, meaning_of};

verus! {

#[derive(PartialEq, Eq, Hash, Clone, Debug)]
pub struct LatLonGridDefinition {
    pub earth_shape: u8,
    pub earth_radius_scale_factor: u8,
    pub earth_radius_scale_value: i64,
    pub earth_oblate_spheroid_major_axis_scale_factor: u8,
    pub earth_oblate_spheroid_major_axis_scale_value: i64,
    pub earth_oblate_spheroid_minor_axis_scale_factor: u8,
    pub earth_oblate_spheroid_minor_axis_scale_value: i64,
    pub parallel_point_count: i64,
    pub meridional_point_count: i64,
    pub init_production_domain_basic_angle: i64,
    pub basic_angle_subdivisions: i64,
    pub first_gridpoint_latitude: i64,
    pub first_gridpoint_longitude: i64,
    pub resolution_component_flags: u8,
    pub last_gridpoint_latitude: i64,
    pub last_gridpoint_longitude: i64,
    pub direction_increment_i: i64,
    pub direction_increment_j: i64,
    pub scanning_mode: u8,
    pub list_point_counts: Vec<i64>,
}

/// `g` holds the first nineteen values of `t` in order, narrow fields
/// keeping the low bits of their value, and every later value as a per-row
/// point count.
pub open spec fn is_grid_definition_of(g: LatLonGridDefinition, t: Seq<i64>) -> bool {
    &&& g.earth_shape == t[0] as u8
    &&& g.earth_radius_scale_factor == t[1] as u8
    &&& g.earth_radius_scale_value == t[2]
    &&& g.earth_oblate_spheroid_major_axis_scale_factor == t[3] as u8
    &&& g.earth_oblate_spheroid_major_axis_scale_value == t[4]
    &&& g.earth_oblate_spheroid_minor_axis_scale_factor == t[5] as u8
    &&& g.earth_oblate_spheroid_minor_axis_scale_value == t[6]
    &&& g.parallel_point_count == t[7]
    &&& g.meridional_point_count == t[8]
    &&& g.init_production_domain_basic_angle == t[9]
    &&& g.basic_angle_subdivisions == t[10]
    &&& g.first_gridpoint_latitude == t[11]
    &&& g.first_gridpoint_longitude == t[12]
    &&& g.resolution_component_flags == t[13] as u8
    &&& g.last_gridpoint_latitude == t[14]
    &&& g.last_gridpoint_longitude == t[15]
    &&& g.direction_increment_i == t[16]
    &&& g.direction_increment_j == t[17]
    &&& g.scanning_mode == t[18] as u8
    &&& g.list_point_counts@ == t.subrange(19, t.len() as int)
}

impl LatLonGridDefinition {
    /// The definition held by the first nineteen template values, with every
    /// later value as a per-row point count; `None` when there are fewer than
    /// nineteen. Narrow fields keep the low bits of their value.
    pub fn new(grid_template: &Vec<i64>) -> (r: Option<LatLonGridDefinition>)
        ensures
            r is Some <==> grid_template@.len() >= 19,
            r matches Some(g) ==> is_grid_definition_of(g, grid_template@),
    {
        if grid_template.len() < 19 {
            return None;
        }
        let mut tail: Vec<i64> = Vec::new();
        let mut k: usize = 19;
        while k < grid_template.len()
            invariant
                19 <= k <= grid_template@.len(),
                tail@ == grid_template@.subrange(19, k as int),
            decreases grid_template@.len() - k,
        {
            tail.push(grid_template[k]);
            k = k + 1;
            assert(tail@ =~= grid_template@.subrange(19, k as int));
        }
        Some(
            LatLonGridDefinition {
                earth_shape: grid_template[0] as u8,
                earth_radius_scale_factor: grid_template[1] as u8,
                earth_radius_scale_value: grid_template[2],
                earth_oblate_spheroid_major_axis_scale_factor: grid_template[3] as u8,
                earth_oblate_spheroid_major_axis_scale_value: grid_template[4],
                earth_oblate_spheroid_minor_axis_scale_factor: grid_template[5] as u8,
                earth_oblate_spheroid_minor_axis_scale_value: grid_template[6],
                parallel_point_count: grid_template[7],
                meridional_point_count: grid_template[8],
                init_production_domain_basic_angle: grid_template[9],
                basic_angle_subdivisions: grid_template[10],
                first_gridpoint_latitude: grid_template[11],
                first_gridpoint_longitude: grid_template[12],
                resolution_component_flags: grid_template[13] as u8,
                last_gridpoint_latitude: grid_template[14],
                last_gridpoint_longitude: grid_template[15],
                direction_increment_i: grid_template[16],
                direction_increment_j: grid_template[17],
                scanning_mode: grid_template[18] as u8,
                list_point_counts: tail,
            },
        )
    }

    /// The meaning of the earth shape code in the earth-shape code table.
    pub fn earth_shape(&self, code_table_3_2: &Codetable) -> (r: Option<String>)
        ensures
            match meaning_lookup_spec(*code_table_3_2, self.earth_shape as int) {
                Some(v) => r matches Some(s) && s@ == v,
                None => r is None,
            },
    {
        meaning_of(code_table_3_2, self.earth_shape as i64)
    }

    /// First and last gridpoint latitude.
    pub fn lat_span(&self) -> (r: (i64, i64))
        ensures
            r == (self.first_gridpoint_latitude, self.last_gridpoint_latitude),
    {
        (self.first_gridpoint_latitude, self.last_gridpoint_latitude)
    }

    /// First and last gridpoint longitude.
    pub fn lon_span(&self) -> (r: (i64, i64))
        ensures
            r == (self.first_gridpoint_longitude, self.last_gridpoint_longitude),
    {
        (self.first_gridpoint_longitude, self.last_gridpoint_longitude)
    }
}

} // verus!
