//! Product (forecast layer) definitions read from product-template integers,
//! and the fixed surfaces that bound a layer.
use vstd::prelude::*;

use crate::codetables::{
    codepoint_lookup_spec, parameter_lookup_spec, title_containing, Codetable,
};

verus! {

/// What a lookup of `cp` in the first column whose title contains `Meaning`
/// yields.
pub open spec fn meaning_lookup_spec(t: Codetable, cp: int) -> Option<Seq<char>> {
    match title_containing(t.header_view(), "Meaning"@) {
        Some(i) => codepoint_lookup_spec(t.header_view(), t.rows_view(), cp, t.header_view()[i]),
        None => None,
    }
}

/// The value in the `Meaning` column for `cp`, as `meaning_lookup_spec` says.
pub fn meaning_of(table: &Codetable, cp: i64) -> (r: Option<String>)
    ensures
        match meaning_lookup_spec(*table, cp as int) {
            Some(v) => r matches Some(s) && s@ == v,
            None => r is None,
        },
{
    match table.find_parameter("Meaning") {
        Some(p) => table.codepoint_lookup(cp, p.as_str()),
        None => None,
    }
}

#[derive(PartialEq, Eq, Structural, Hash, Clone, Copy, Debug)]
pub struct HorizontalLayerProductDefinition {
    pub parameter_category: u8,
    pub parameter_number: u8,
    pub generating_process: u8,
    pub background_generating_process_identifier: u8,
    pub generating_process_identified: u8,
    pub hours_after_ref_time: u16,
    pub minutes_after_ref_time: u8,
    pub indicator_of_time_range_unit: u8,
    pub forecast_time: u32,
    pub first_fixed_surface_type: u8,
    pub first_fixed_surface_scale_factor: u8,
    pub first_fixed_surface_scale_value: i64,
    pub second_fixed_surface_type: u8,
    pub second_fixed_surface_scale_factor: u8,
    pub second_fixed_surface_scale_value: i64,
}

/// A fixed surface: its type code and its scaled value. Two surfaces are the
/// same key only when all three parts are equal.
#[derive(PartialEq, Eq, Structural, Hash, Clone, Copy, Debug)]
pub struct FixedSurface {
    pub sfc_type: u8,
    pub sfc_scale_factor: u8,
    pub sfc_scale_value: i64,
}

impl FixedSurface {
    /// A surface of type `sft` with scale factor and value zero.
    pub fn new(sft: u8) -> (r: FixedSurface)
        ensures
            r == (FixedSurface { sfc_type: sft, sfc_scale_factor: 0, sfc_scale_value: 0 }),
    {
        FixedSurface { sfc_type: sft, sfc_scale_factor: 0, sfc_scale_value: 0 }
    }

    pub fn with_factor(self, factor: u8) -> (r: FixedSurface)
        ensures
            r == (FixedSurface { sfc_scale_factor: factor, ..self }),
    {
        let mut s = self;
        s.sfc_scale_factor = factor;
        s
    }

    pub fn with_value(self, value: i64) -> (r: FixedSurface)
        ensures
            r == (FixedSurface { sfc_scale_value: value, ..self }),
    {
        let mut s = self;
        s.sfc_scale_value = value;
        s
    }

    /// The meaning of the surface type in the fixed-surface code table.
    pub fn sfc_type(&self, codetable_4_5: &Codetable) -> (r: Option<String>)
        ensures
            match meaning_lookup_spec(*codetable_4_5, self.sfc_type as int) {
                Some(v) => r matches Some(s) && s@ == v,
                None => r is None,
            },
    {
        meaning_of(codetable_4_5, self.sfc_type as i64)
    }
}

impl HorizontalLayerProductDefinition {
    /// The definition held by the first fifteen template values; `None` when
    /// there are fewer. Narrow fields keep the low bits of their value.
    pub fn new(values: &Vec<i64>) -> (r: Option<HorizontalLayerProductDefinition>)
        ensures
            r == product_definition_of(values@),
    {
        if values.len() < 15 {
            return None;
        }
        Some(
            HorizontalLayerProductDefinition {
                parameter_category: values[0] as u8,
                parameter_number: values[1] as u8,
                generating_process: values[2] as u8,
                background_generating_process_identifier: values[3] as u8,
                generating_process_identified: values[4] as u8,
                hours_after_ref_time: values[5] as u16,
                minutes_after_ref_time: values[6] as u8,
                indicator_of_time_range_unit: values[7] as u8,
                forecast_time: values[8] as u32,
                first_fixed_surface_type: values[9] as u8,
                first_fixed_surface_scale_factor: values[10] as u8,
                first_fixed_surface_scale_value: values[11],
                second_fixed_surface_type: values[12] as u8,
                second_fixed_surface_scale_factor: values[13] as u8,
                second_fixed_surface_scale_value: values[14],
            },
        )
    }

    /// The meaning and unit of the parameter in the parameter-number table,
    /// for discipline `prod_dsc`.
    pub fn parameter_info(&self, code_table_4_2: &Codetable, prod_dsc: i64) -> (r: Option<
        (String, String),
    >)
        ensures
            match parameter_lookup_spec(
                code_table_4_2.header_view(),
                code_table_4_2.rows_view(),
                prod_dsc as int,
                self.parameter_category as int,
                self.parameter_number as int,
            ) {
                Some((m, u)) => r matches Some((rm, ru)) && rm@ == m && ru@ == u,
                None => r is None,
            },
    {
        code_table_4_2.parameter_number_codepoint_lookup(
            prod_dsc,
            self.parameter_category as i64,
            self.parameter_number as i64,
        )
    }

    /// The meaning of the generating process in the column titled exactly
    /// `Meaning`.
    pub fn gen_process_type(&self, code_table_4_3: &Codetable) -> (r: Option<String>)
        ensures
            match codepoint_lookup_spec(
                code_table_4_3.header_view(),
                code_table_4_3.rows_view(),
                self.generating_process as int,
                "Meaning"@,
            ) {
                Some(v) => r matches Some(s) && s@ == v,
                None => r is None,
            },
    {
        code_table_4_3.codepoint_lookup(self.generating_process as i64, "Meaning")
    }

    /// The layer's two bounding surfaces, first then second.
    pub fn get_fixed_surfaces(&self) -> (r: (FixedSurface, FixedSurface))
        ensures
            r == layer_of(*self),
    {
        (
            FixedSurface {
                sfc_type: self.first_fixed_surface_type,
                sfc_scale_factor: self.first_fixed_surface_scale_factor,
                sfc_scale_value: self.first_fixed_surface_scale_value,
            },
            FixedSurface {
                sfc_type: self.second_fixed_surface_type,
                sfc_scale_factor: self.second_fixed_surface_scale_factor,
                sfc_scale_value: self.second_fixed_surface_scale_value,
            },
        )
    }
}

/// The definition that the first fifteen template values hold, when there
/// are that many. Narrow fields keep the low bits of their value.
pub open spec fn product_definition_of(v: Seq<i64>) -> Option<HorizontalLayerProductDefinition> {
    if v.len() >= 15 {
        Some(
            HorizontalLayerProductDefinition {
                parameter_category: v[0] as u8,
                parameter_number: v[1] as u8,
                generating_process: v[2] as u8,
                background_generating_process_identifier: v[3] as u8,
                generating_process_identified: v[4] as u8,
                hours_after_ref_time: v[5] as u16,
                minutes_after_ref_time: v[6] as u8,
                indicator_of_time_range_unit: v[7] as u8,
                forecast_time: v[8] as u32,
                first_fixed_surface_type: v[9] as u8,
                first_fixed_surface_scale_factor: v[10] as u8,
                first_fixed_surface_scale_value: v[11],
                second_fixed_surface_type: v[12] as u8,
                second_fixed_surface_scale_factor: v[13] as u8,
                second_fixed_surface_scale_value: v[14],
            },
        )
    } else {
        None
    }
}

/// The pair of surfaces that bound the layer of a product definition.
pub open spec fn layer_of(d: HorizontalLayerProductDefinition) -> (FixedSurface, FixedSurface) {
    (
        FixedSurface {
            sfc_type: d.first_fixed_surface_type,
            sfc_scale_factor: d.first_fixed_surface_scale_factor,
            sfc_scale_value: d.first_fixed_surface_scale_value,
        },
        FixedSurface {
            sfc_type: d.second_fixed_surface_type,
            sfc_scale_factor: d.second_fixed_surface_scale_factor,
            sfc_scale_value: d.second_fixed_surface_scale_value,
        },
    )
}

} // verus!
