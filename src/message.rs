//! Decoded messages and their fields, as handed over by the message decoder,
//! and the grouping of messages by the layer their fields describe.
use vstd::prelude::*;

use crate::grid::{is_grid_definition_of, LatLonGridDefinition};
use crate::product::{layer_of, product_definition_of, FixedSurface, HorizontalLayerProductDefinition};

verus! {

/// The pair of fixed surfaces that places a field vertically.
pub type Layer = (FixedSurface, FixedSurface);

/// An error that the decoder reported for a whole message or for one field,
/// with the decoder's own code.
#[derive(Debug, Clone, Copy, PartialEq, Eq, Structural)]
pub enum Grib2Error {
    InfoReadError(u8),
    FieldReadError(u8),
    FunctionNotImplemented,
    Unknown,
}

/// The text that describes an error.
pub open spec fn error_text(e: Grib2Error) -> Seq<char> {
    match e {
        Grib2Error::InfoReadError(c) => {
            if c == 0 {
                "No Error"@
            } else if c == 1 {
                "Beginning chars \"GRIB\" not found"@
            } else if c == 2 {
                "GRIB message is not valid for GRIB2"@
            } else if c == 3 {
                "Could not find Section 1 where expected"@
            } else if c == 4 {
                "End string \"7777\" found but not where expected"@
            } else if c == 5 {
                "End string \"7777\" not found at end of message"@
            } else {
                "unknown"@
            }
        },
        Grib2Error::FieldReadError(c) => {
            if c == 0 {
                "No Error"@
            } else if c == 1 {
                "Beginning chars \"GRIB\" not found"@
            } else if c == 2 {
                "GRIB message is not valid for GRIB2"@
            } else if c == 3 {
                "Data field request number was not positive"@
            } else if c == 4 {
                "End string \"7777\" found but not where expected"@
            } else if c == 6 {
                "GRIB message did not contain requested count of data fields"@
            } else if c == 7 {
                "End string \"7777\" not found at end of message"@
            } else if c == 8 {
                "Unrecognized section encountered"@
            } else if c == 9 {
                "Data Representation Template 5.NN not yet implemented."@
            } else if c == 15 {
                "Error unpacking Section 1"@
            } else if c == 16 {
                "Error unpacking Section 2"@
            } else if c == 10 {
                "Error unpacking Section 3"@
            } else if c == 11 {
                "Error unpacking Section 4"@
            } else if c == 12 {
                "Error unpacking Section 5"@
            } else if c == 13 {
                "Error unpacking Section 6"@
            } else if c == 14 {
                "Error unpacking Section 7"@
            } else {
                "unknown"@
            }
        },
        _ => "unknown"@,
    }
}

impl Grib2Error {
    fn text(&self) -> (r: &'static str)
        ensures
            r@ == error_text(*self),
    {
        match self {
            Grib2Error::InfoReadError(c) => {
                if *c == 0 {
                    "No Error"
                } else if *c == 1 {
                    "Beginning chars \"GRIB\" not found"
                } else if *c == 2 {
                    "GRIB message is not valid for GRIB2"
                } else if *c == 3 {
                    "Could not find Section 1 where expected"
                } else if *c == 4 {
                    "End string \"7777\" found but not where expected"
                } else if *c == 5 {
                    "End string \"7777\" not found at end of message"
                } else {
                    "unknown"
                }
            },
            Grib2Error::FieldReadError(c) => {
                if *c == 0 {
                    "No Error"
                } else if *c == 1 {
                    "Beginning chars \"GRIB\" not found"
                } else if *c == 2 {
                    "GRIB message is not valid for GRIB2"
                } else if *c == 3 {
                    "Data field request number was not positive"
                } else if *c == 4 {
                    "End string \"7777\" found but not where expected"
                } else if *c == 6 {
                    "GRIB message did not contain requested count of data fields"
                } else if *c == 7 {
                    "End string \"7777\" not found at end of message"
                } else if *c == 8 {
                    "Unrecognized section encountered"
                } else if *c == 9 {
                    "Data Representation Template 5.NN not yet implemented."
                } else if *c == 15 {
                    "Error unpacking Section 1"
                } else if *c == 16 {
                    "Error unpacking Section 2"
                } else if *c == 10 {
                    "Error unpacking Section 3"
                } else if *c == 11 {
                    "Error unpacking Section 4"
                } else if *c == 12 {
                    "Error unpacking Section 5"
                } else if *c == 13 {
                    "Error unpacking Section 6"
                } else if *c == 14 {
                    "Error unpacking Section 7"
                } else {
                    "unknown"
                }
            },
            _ => "unknown",
        }
    }

    /// The text that describes the error.
    pub fn to_string(&self) -> (r: String)
        ensures
            r@ == error_text(*self),
    {
        self.text().to_owned()
    }
}

/// The proleptic Gregorian leap-year rule.
pub open spec fn is_leap_year(y: int) -> bool {
    y % 4 == 0 && (y % 100 != 0 || y % 400 == 0)
}

pub open spec fn days_in_month(y: int, m: int) -> int {
    if m == 2 {
        if is_leap_year(y) {
            29
        } else {
            28
        }
    } else if m == 4 || m == 6 || m == 9 || m == 11 {
        30
    } else {
        31
    }
}

/// A calendar date that chrono can hold: a year within its range, a month
/// of the year and a day of that month.
pub open spec fn date_exists(y: int, m: int, d: int) -> bool {
    &&& -262143 <= y <= 262142
    &&& 1 <= m <= 12
    &&& 1 <= d <= days_in_month(y, m)
}

/// Relies on chrono::NaiveDate::from_ymd_opt, which gives a date exactly
/// when the year lies in chrono's range and the month and day name a day
/// of the proleptic Gregorian calendar.
#[verifier::external_body]
fn calendar_date_exists(year: i32, month: u32, day: u32) -> (r: bool)
    ensures
        r == date_exists(year as int, month as int, day as int),
{
    chrono::NaiveDate::from_ymd_opt(year, month, day).is_some()
}

/// A reference time in UTC, to the second.
#[derive(Debug, Clone, Copy, PartialEq, Eq, Structural)]
pub struct RefTime {
    pub year: i32,
    pub month: u32,
    pub day: u32,
    pub hour: u32,
    pub minute: u32,
    pub second: u32,
}

pub open spec fn ref_time_valid(t: RefTime) -> bool {
    &&& date_exists(t.year as int, t.month as int, t.day as int)
    &&& t.hour < 24
    &&& t.minute < 60
    &&& t.second < 60
}

impl RefTime {
    /// The time of the given parts; `None` when they name no time.
    pub fn new(year: i32, month: u32, day: u32, hour: u32, minute: u32, second: u32) -> (r:
        Option<RefTime>)
        ensures
            ({
                let t = RefTime { year, month, day, hour, minute, second };
                &&& ref_time_valid(t) ==> r == Some(t)
                &&& !ref_time_valid(t) ==> r is None
            }),
    {
        if calendar_date_exists(year, month, day) && hour < 24 && minute < 60 && second < 60 {
            Some(RefTime { year, month, day, hour, minute, second })
        } else {
            None
        }
    }
}

/// What the decoder reads from a message's indicator and identification
/// sections.
#[derive(Debug, Clone, Copy, PartialEq, Eq, Structural)]
pub struct Grib2Info {
    pub center: u16,
    pub subcenter: u16,
    pub master_table_version: u8,
    pub local_table_version: u8,
    pub ref_time_significance: u8,
    pub ref_time: RefTime,
    pub prod_status: u8,
    pub data_type: u8,
    pub discipline: u8,
    pub grib_edition: u8,
    pub length: i64,
}

impl Grib2Info {
    /// The info held by the indicator section values `sec0` (discipline,
    /// edition, length) and the identification section values `sec1`
    /// (center, subcenter, master and local table versions, significance of
    /// the reference time, its year, month, day, hour, minute and second,
    /// production status, data type). `None` when a section is short or the
    /// reference time names no time. Narrow fields keep the low bits.
    pub fn new(sec0: &Vec<i64>, sec1: &Vec<i64>) -> (r: Option<Grib2Info>)
        ensures
            ({
                let s0 = sec0@;
                let s1 = sec1@;
                let t = RefTime {
                    year: s1[5] as i32,
                    month: s1[6] as u32,
                    day: s1[7] as u32,
                    hour: s1[8] as u32,
                    minute: s1[9] as u32,
                    second: s1[10] as u32,
                };
                &&& r is Some <==> s0.len() >= 3 && s1.len() >= 13 && ref_time_valid(t)
                &&& r matches Some(i) ==> i == (Grib2Info {
                    center: s1[0] as u16,
                    subcenter: s1[1] as u16,
                    master_table_version: s1[2] as u8,
                    local_table_version: s1[3] as u8,
                    ref_time_significance: s1[4] as u8,
                    ref_time: t,
                    prod_status: s1[11] as u8,
                    data_type: s1[12] as u8,
                    discipline: s0[0] as u8,
                    grib_edition: s0[1] as u8,
                    length: s0[2],
                })
            }),
    {
        if sec0.len() < 3 || sec1.len() < 13 {
            return None;
        }
        let ref_time = match RefTime::new(
            sec1[5] as i32,
            sec1[6] as u32,
            sec1[7] as u32,
            sec1[8] as u32,
            sec1[9] as u32,
            sec1[10] as u32,
        ) {
            Some(t) => t,
            None => return None,
        };
        Some(
            Grib2Info {
                center: sec1[0] as u16,
                subcenter: sec1[1] as u16,
                master_table_version: sec1[2] as u8,
                local_table_version: sec1[3] as u8,
                ref_time_significance: sec1[4] as u8,
                ref_time,
                prod_status: sec1[11] as u8,
                data_type: sec1[12] as u8,
                discipline: sec0[0] as u8,
                grib_edition: sec0[1] as u8,
                length: sec0[2],
            },
        )
    }
}

/// One field as the decoder hands it over: its section values, templates,
/// optional lists, and its unpacked gridpoint values as IEEE-754 single
/// precision bit patterns.
#[derive(Debug)]
pub struct DecodedField {
    pub field_number: i64,
    pub local: Option<String>,
    pub grid_definition_source: i64,
    pub grid_template_number: i64,
    pub grid_template: Vec<i64>,
    pub num_coords: i64,
    pub count_gridpoints: i64,
    pub count_optional_octets: i64,
    pub interpretation_of_optional_gridpoints: i64,
    pub optional_point_counts: Vec<i64>,
    pub prod_template_number: i64,
    pub prod_template: Vec<i64>,
    pub data_representation_template_number: i64,
    pub data_representation_template: Vec<i64>,
    pub bitmap_indicator: i64,
    pub unpacked: i64,
    pub expanded: i64,
    pub gridpoint_bits: Vec<u32>,
}

/// `f` is the field that the decoder's values `d` describe. The grid comes
/// from the standard catalog when its source is zero; the optional per-row
/// point counts are kept only when optional octets are present; the flags
/// hold when their value is one. No bitmap is kept.
pub open spec fn is_field_of(f: Grib2Field, d: DecodedField) -> bool {
    &&& f.field_number_view() == d.field_number as u32
    &&& f.local_view() == (match d.local {
        Some(s) => Some(s@),
        None => None::<Seq<char>>,
    })
    &&& f.is_ct31_view() == (d.grid_definition_source == 0)
    &&& f.grid_template_view() == d.grid_template@
    &&& f.grid_template_len_view() == d.grid_template@.len() as u32
    &&& f.grid_arrays_view() == (if d.count_optional_octets > 0 {
        Some(d.optional_point_counts@)
    } else {
        None
    })
    &&& f.interpretation_of_optional_gridpoints_view() == d.interpretation_of_optional_gridpoints as u8
    &&& f.num_coords_view() == d.num_coords as u32
    &&& f.count_gridpoints_view() == d.count_gridpoints as u32
    &&& f.count_optional_octets_grid_view() == d.count_optional_octets as u8
    &&& f.grid_def_view() == d.grid_template_number as u32
    &&& f.prod_template_view() == d.prod_template@
    &&& f.prod_codepoint_view() == d.prod_template_number as u16
    &&& f.prod_template_len_view() == d.prod_template@.len() as u32
    &&& f.expanded_view() == (d.expanded == 1)
    &&& f.unpacked_view() == (d.unpacked == 1)
    &&& f.data_representation_view() == d.data_representation_template@
    &&& f.data_representation_codepoint_view() == d.data_representation_template_number as u16
    &&& f.data_representation_template_len_view() == d.data_representation_template@.len() as u32
    &&& f.bitmap_view() is None
    &&& f.bitmap_indicator_view() == d.bitmap_indicator as u8
    &&& f.data_bits_view() == d.gridpoint_bits@
    &&& f.num_datapoints_view() == d.gridpoint_bits@.len() as u32
}

/// One decoded field of a message.
#[derive(Debug)]
pub struct Grib2Field {
    pub field_number: u32,
    local: Option<String>,
    grd_is_ct31: bool,
    grid_template: Vec<i64>,
    grid_arrays_lengths_list: Option<Vec<i64>>,
    pub interpretation_of_optional_gridpoints: u8,
    pub grid_template_len: u32,
    pub num_coords: u32,
    pub count_gridpoints: u32,
    pub count_optional_octets_grid: u8,
    pub grid_def: u32,
    prod_template: Vec<i64>,
    pub prod_codepoint: u16,
    pub prod_template_len: u32,
    expanded: bool,
    unpacked: bool,
    data_representation_template: Vec<i64>,
    pub data_representation_codepoint: u16,
    pub data_representation_template_len: u32,
    bitmap: Option<Vec<i64>>,
    pub bitmap_indicator: u8,
    gridpoint_data: Vec<u32>,
    pub num_datapoints: u32,
}

impl Grib2Field {
    pub closed spec fn field_number_view(&self) -> u32 {
        self.field_number
    }

    pub closed spec fn interpretation_of_optional_gridpoints_view(&self) -> u8 {
        self.interpretation_of_optional_gridpoints
    }

    pub closed spec fn grid_template_len_view(&self) -> u32 {
        self.grid_template_len
    }

    pub closed spec fn num_coords_view(&self) -> u32 {
        self.num_coords
    }

    pub closed spec fn count_gridpoints_view(&self) -> u32 {
        self.count_gridpoints
    }

    pub closed spec fn count_optional_octets_grid_view(&self) -> u8 {
        self.count_optional_octets_grid
    }

    pub closed spec fn grid_def_view(&self) -> u32 {
        self.grid_def
    }

    pub closed spec fn prod_codepoint_view(&self) -> u16 {
        self.prod_codepoint
    }

    pub closed spec fn prod_template_len_view(&self) -> u32 {
        self.prod_template_len
    }

    pub closed spec fn data_representation_codepoint_view(&self) -> u16 {
        self.data_representation_codepoint
    }

    pub closed spec fn data_representation_template_len_view(&self) -> u32 {
        self.data_representation_template_len
    }

    pub closed spec fn bitmap_indicator_view(&self) -> u8 {
        self.bitmap_indicator
    }

    pub closed spec fn num_datapoints_view(&self) -> u32 {
        self.num_datapoints
    }

    pub closed spec fn local_view(&self) -> Option<Seq<char>> {
        match self.local {
            Some(s) => Some(s@),
            None => None,
        }
    }

    pub closed spec fn is_ct31_view(&self) -> bool {
        self.grd_is_ct31
    }

    pub closed spec fn grid_template_view(&self) -> Seq<i64> {
        self.grid_template@
    }

    pub closed spec fn grid_arrays_view(&self) -> Option<Seq<i64>> {
        match self.grid_arrays_lengths_list {
            Some(v) => Some(v@),
            None => None,
        }
    }

    pub closed spec fn prod_template_view(&self) -> Seq<i64> {
        self.prod_template@
    }

    pub closed spec fn expanded_view(&self) -> bool {
        self.expanded
    }

    pub closed spec fn unpacked_view(&self) -> bool {
        self.unpacked
    }

    pub closed spec fn data_representation_view(&self) -> Seq<i64> {
        self.data_representation_template@
    }

    pub closed spec fn bitmap_view(&self) -> Option<Seq<i64>> {
        match self.bitmap {
            Some(v) => Some(v@),
            None => None,
        }
    }

    pub closed spec fn data_bits_view(&self) -> Seq<u32> {
        self.gridpoint_data@
    }

    /// The field that the decoder's values describe.
    pub fn new(d: DecodedField) -> (r: Grib2Field)
        ensures
            is_field_of(r, d),
    {
        let grid_template_len = d.grid_template.len() as u32;
        let prod_template_len = d.prod_template.len() as u32;
        let data_representation_template_len = d.data_representation_template.len() as u32;
        let num_datapoints = d.gridpoint_bits.len() as u32;
        let grid_arrays_lengths_list = if d.count_optional_octets > 0 {
            Some(d.optional_point_counts)
        } else {
            None
        };
        Grib2Field {
            field_number: d.field_number as u32,
            local: d.local,
            grd_is_ct31: d.grid_definition_source == 0,
            grid_template: d.grid_template,
            grid_arrays_lengths_list,
            interpretation_of_optional_gridpoints: d.interpretation_of_optional_gridpoints as u8,
            grid_template_len,
            num_coords: d.num_coords as u32,
            count_gridpoints: d.count_gridpoints as u32,
            count_optional_octets_grid: d.count_optional_octets as u8,
            grid_def: d.grid_template_number as u32,
            prod_template: d.prod_template,
            prod_codepoint: d.prod_template_number as u16,
            prod_template_len,
            expanded: d.expanded == 1,
            unpacked: d.unpacked == 1,
            data_representation_template: d.data_representation_template,
            data_representation_codepoint: d.data_representation_template_number as u16,
            data_representation_template_len,
            bitmap: None,
            bitmap_indicator: d.bitmap_indicator as u8,
            gridpoint_data: d.gridpoint_bits,
            num_datapoints,
        }
    }

    pub fn is_expanded(&self) -> (r: bool)
        ensures
            r == self.expanded_view(),
    {
        self.expanded
    }

    pub fn is_unpacked(&self) -> (r: bool)
        ensures
            r == self.unpacked_view(),
    {
        self.unpacked
    }

    pub fn bitmap(&self) -> (r: Option<&Vec<i64>>)
        ensures
            match self.bitmap_view() {
                Some(v) => r matches Some(b) && b@ == v,
                None => r is None,
            },
    {
        match &self.bitmap {
            Some(b) => Some(b),
            None => None,
        }
    }

    pub fn data_representation_template_values(&self) -> (r: &Vec<i64>)
        ensures
            r@ == self.data_representation_view(),
    {
        &self.data_representation_template
    }

    pub fn prod_template_values(&self) -> (r: &Vec<i64>)
        ensures
            r@ == self.prod_template_view(),
    {
        &self.prod_template
    }

    /// The product template read as a horizontal layer definition.
    pub fn prod_template_as_horizontal_layer_definition(&self) -> (r: Option<
        HorizontalLayerProductDefinition,
    >)
        ensures
            r == product_definition_of(self.prod_template_view()),
            r matches Some(d) ==> Some(layer_of(d)) == template_layer(self.prod_template_view()),
    {
        HorizontalLayerProductDefinition::new(&self.prod_template)
    }

    /// The grid template read as a latitude/longitude grid definition.
    pub fn grid_template_as_geograph_coordinate_grid_definition(&self) -> (r: Option<
        LatLonGridDefinition,
    >)
        ensures
            r is Some <==> self.grid_template_view().len() >= 19,
            r matches Some(g) ==> is_grid_definition_of(g, self.grid_template_view()),
    {
        LatLonGridDefinition::new(&self.grid_template)
    }

    pub fn get_grid_arrays_list(&self) -> (r: Option<&Vec<i64>>)
        ensures
            match self.grid_arrays_view() {
                Some(v) => r matches Some(b) && b@ == v,
                None => r is None,
            },
    {
        match &self.grid_arrays_lengths_list {
            Some(b) => Some(b),
            None => None,
        }
    }

    /// The unpacked gridpoint values, as IEEE-754 single precision bits.
    pub fn data_bits(&self) -> (r: &Vec<u32>)
        ensures
            r@ == self.data_bits_view(),
    {
        &self.gridpoint_data
    }

    pub fn grid_template(&self) -> (r: &Vec<i64>)
        ensures
            r@ == self.grid_template_view(),
    {
        &self.grid_template
    }

    pub fn grid_data_is_ct31(&self) -> (r: bool)
        ensures
            r == self.is_ct31_view(),
    {
        self.grd_is_ct31
    }

    pub fn local(&self) -> (r: Option<&String>)
        ensures
            match self.local_view() {
                Some(v) => r matches Some(s) && s@ == v,
                None => r is None,
            },
    {
        match &self.local {
            Some(s) => Some(s),
            None => None,
        }
    }

    /// Whether the field holds no gridpoint values.
    pub fn empty(&self) -> (r: bool)
        ensures
            r == (self.data_bits_view().len() == 0),
    {
        self.gridpoint_data.len() == 0
    }
}

/// The layer that a product template describes, when it is long enough to
/// describe one.
pub open spec fn template_layer(t: Seq<i64>) -> Option<(FixedSurface, FixedSurface)> {
    if t.len() >= 15 {
        Some(
            (
                FixedSurface {
                    sfc_type: t[9] as u8,
                    sfc_scale_factor: t[10] as u8,
                    sfc_scale_value: t[11],
                },
                FixedSurface {
                    sfc_type: t[12] as u8,
                    sfc_scale_factor: t[13] as u8,
                    sfc_scale_value: t[14],
                },
            ),
        )
    } else {
        None
    }
}

/// One decoded message: its info or the error that stopped reading it, the
/// fields that decoded, and the position and error of each that did not.
#[derive(Debug)]
pub struct Grib2Message {
    info: Result<Grib2Info, Grib2Error>,
    fields: Vec<Grib2Field>,
    errors: Vec<(usize, Grib2Error)>,
}

/// A copy of each element, in order.
fn copy_all<T: Copy>(v: &Vec<T>) -> (r: Vec<T>)
    ensures
        r@ == v@,
{
    let mut r: Vec<T> = Vec::new();
    let mut i: usize = 0;
    while i < v.len()
        invariant
            i <= v@.len(),
            r@ == v@.take(i as int),
        decreases v@.len() - i,
    {
        r.push(v[i]);
        i = i + 1;
        assert(r@ =~= v@.take(i as int));
    }
    assert(r@ =~= v@);
    r
}

fn copy_opt_values(v: &Option<Vec<i64>>) -> (r: Option<Vec<i64>>)
    ensures
        match v {
            Some(a) => r matches Some(b) && b@ == a@,
            None => r is None,
        },
{
    match v {
        Some(a) => Some(copy_all(a)),
        None => None,
    }
}

/// `a` holds what `b` holds: the same values in every field.
pub open spec fn same_field(a: Grib2Field, b: Grib2Field) -> bool {
    &&& a.field_number_view() == b.field_number_view()
    &&& a.local_view() == b.local_view()
    &&& a.is_ct31_view() == b.is_ct31_view()
    &&& a.grid_template_view() == b.grid_template_view()
    &&& a.grid_arrays_view() == b.grid_arrays_view()
    &&& a.interpretation_of_optional_gridpoints_view() == b.interpretation_of_optional_gridpoints_view()
    &&& a.grid_template_len_view() == b.grid_template_len_view()
    &&& a.num_coords_view() == b.num_coords_view()
    &&& a.count_gridpoints_view() == b.count_gridpoints_view()
    &&& a.count_optional_octets_grid_view() == b.count_optional_octets_grid_view()
    &&& a.grid_def_view() == b.grid_def_view()
    &&& a.prod_template_view() == b.prod_template_view()
    &&& a.prod_codepoint_view() == b.prod_codepoint_view()
    &&& a.prod_template_len_view() == b.prod_template_len_view()
    &&& a.expanded_view() == b.expanded_view()
    &&& a.unpacked_view() == b.unpacked_view()
    &&& a.data_representation_view() == b.data_representation_view()
    &&& a.data_representation_codepoint_view() == b.data_representation_codepoint_view()
    &&& a.data_representation_template_len_view() == b.data_representation_template_len_view()
    &&& a.bitmap_view() == b.bitmap_view()
    &&& a.bitmap_indicator_view() == b.bitmap_indicator_view()
    &&& a.data_bits_view() == b.data_bits_view()
    &&& a.num_datapoints_view() == b.num_datapoints_view()
}

/// `a` holds what `b` holds: the same info, errors, and fields in order.
pub open spec fn same_message(a: Grib2Message, b: Grib2Message) -> bool {
    &&& a.info_view() == b.info_view()
    &&& a.errors_view() == b.errors_view()
    &&& a.fields_view().len() == b.fields_view().len()
    &&& forall|k: int|
        0 <= k < a.fields_view().len() ==> same_field(
            #[trigger] a.fields_view()[k],
            b.fields_view()[k],
        )
}

impl Grib2Field {
    /// A copy of the field.
    pub fn duplicate(&self) -> (r: Grib2Field)
        ensures
            same_field(r, *self),
    {
        let local = match &self.local {
            Some(s) => Some(s.clone()),
            None => None,
        };
        Grib2Field {
            field_number: self.field_number,
            local,
            grd_is_ct31: self.grd_is_ct31,
            grid_template: copy_all(&self.grid_template),
            grid_arrays_lengths_list: copy_opt_values(&self.grid_arrays_lengths_list),
            interpretation_of_optional_gridpoints: self.interpretation_of_optional_gridpoints,
            grid_template_len: self.grid_template_len,
            num_coords: self.num_coords,
            count_gridpoints: self.count_gridpoints,
            count_optional_octets_grid: self.count_optional_octets_grid,
            grid_def: self.grid_def,
            prod_template: copy_all(&self.prod_template),
            prod_codepoint: self.prod_codepoint,
            prod_template_len: self.prod_template_len,
            expanded: self.expanded,
            unpacked: self.unpacked,
            data_representation_template: copy_all(&self.data_representation_template),
            data_representation_codepoint: self.data_representation_codepoint,
            data_representation_template_len: self.data_representation_template_len,
            bitmap: copy_opt_values(&self.bitmap),
            bitmap_indicator: self.bitmap_indicator,
            gridpoint_data: copy_all(&self.gridpoint_data),
            num_datapoints: self.num_datapoints,
        }
    }
}

impl Clone for Grib2Field {
    fn clone(&self) -> Self {
        self.duplicate()
    }
}

impl Grib2Message {
    /// A copy of the message.
    pub fn duplicate(&self) -> (r: Grib2Message)
        ensures
            same_message(r, *self),
    {
        let mut fields: Vec<Grib2Field> = Vec::new();
        let mut k: usize = 0;
        while k < self.fields.len()
            invariant
                k <= self.fields@.len(),
                fields@.len() == k,
                forall|j: int| 0 <= j < k ==> same_field(#[trigger] fields@[j], self.fields@[j]),
            decreases self.fields@.len() - k,
        {
            fields.push(self.fields[k].duplicate());
            k = k + 1;
        }
        Grib2Message { info: self.info, fields, errors: copy_all(&self.errors) }
    }
}

impl Clone for Grib2Message {
    fn clone(&self) -> Self {
        self.duplicate()
    }
}

impl Grib2Message {
    pub closed spec fn info_view(&self) -> Result<Grib2Info, Grib2Error> {
        self.info
    }

    pub closed spec fn fields_view(&self) -> Seq<Grib2Field> {
        self.fields@
    }

    pub closed spec fn errors_view(&self) -> Seq<(usize, Grib2Error)> {
        self.errors@
    }

    pub fn new(
        info: Result<Grib2Info, Grib2Error>,
        fields: Vec<Grib2Field>,
        errors: Vec<(usize, Grib2Error)>,
    ) -> (r: Grib2Message)
        ensures
            r.info_view() == info,
            r.fields_view() == fields@,
            r.errors_view() == errors@,
    {
        Grib2Message { info, fields, errors }
    }

    /// A message from what the decoder reported: the indicator and
    /// identification section values or the status code that stopped them,
    /// and for each field in order the field or its status code. Every field
    /// that failed is recorded with its position; the others are kept in
    /// order.
    pub fn from_decoded(
        info: Result<(Vec<i64>, Vec<i64>), i64>,
        fields: Vec<Result<DecodedField, i64>>,
    ) -> (r: Grib2Message)
        ensures
            r.info_view() == decoded_info(
                match info {
                    Ok((a, b)) => Ok((a@, b@)),
                    Err(c) => Err(c),
                },
            ),
            r.fields_view().len() == decoded_fields(fields@).len(),
            forall|k: int|
                0 <= k < r.fields_view().len() ==> is_field_of(
                    #[trigger] r.fields_view()[k],
                    decoded_fields(fields@)[k],
                ),
            r.errors_view() == decoded_errors(fields@),
    {
        let ghost fs = fields@;
        let info = match info {
            Err(code) => Err(Grib2Error::InfoReadError(code as u8)),
            Ok((sec0, sec1)) => match Grib2Info::new(&sec0, &sec1) {
                Some(i) => Ok(i),
                None => Err(Grib2Error::Unknown),
            },
        };
        let mut kept: Vec<Grib2Field> = Vec::new();
        let mut errors: Vec<(usize, Grib2Error)> = Vec::new();
        let mut rest = fields;
        let n = rest.len();
        let mut i: usize = 0;
        proof {
            assert(fs.skip(0) =~= fs);
            assert(fs.take(0) =~= Seq::<Result<DecodedField, i64>>::empty());
        }
        while rest.len() > 0
            invariant
                n == fs.len(),
                i + rest@.len() == fs.len(),
                rest@ == fs.skip(i as int),
                kept@.len() == decoded_fields(fs.take(i as int)).len(),
                forall|k: int|
                    0 <= k < kept@.len() ==> is_field_of(
                        #[trigger] kept@[k],
                        decoded_fields(fs.take(i as int))[k],
                    ),
                errors@ == decoded_errors(fs.take(i as int)),
            decreases rest@.len(),
        {
            let item = rest.remove(0);
            proof {
                assert(fs.take(i + 1).drop_last() =~= fs.take(i as int));
                assert(fs.take(i + 1).last() == fs[i as int]);
                assert(rest@ =~= fs.skip(i + 1));
            }
            match item {
                Ok(d) => {
                    kept.push(Grib2Field::new(d));
                },
                Err(code) => {
                    errors.push((i, Grib2Error::FieldReadError(code as u8)));
                },
            }
            i = i + 1;
        }
        proof {
            assert(fs.take(fs.len() as int) =~= fs);
        }
        Grib2Message { info, fields: kept, errors }
    }

    pub fn info(&self) -> (r: Result<&Grib2Info, &Grib2Error>)
        ensures
            match self.info_view() {
                Ok(i) => r matches Ok(ri) && *ri == i,
                Err(e) => r matches Err(re) && *re == e,
            },
    {
        match &self.info {
            Ok(i) => Ok(i),
            Err(e) => Err(e),
        }
    }

    pub fn fields(&self) -> (r: &Vec<Grib2Field>)
        ensures
            r@ == self.fields_view(),
    {
        &self.fields
    }

    pub fn errors(&self) -> (r: &Vec<(usize, Grib2Error)>)
        ensures
            r@ == self.errors_view(),
    {
        &self.errors
    }
}

/// What the decoder reported for each field of a message: the field, or the
/// nonzero status code that stopped it.
pub open spec fn decoded_errors(fs: Seq<Result<DecodedField, i64>>) -> Seq<(usize, Grib2Error)>
    decreases fs.len(),
{
    if fs.len() == 0 {
        Seq::empty()
    } else {
        let rest = decoded_errors(fs.drop_last());
        match fs.last() {
            Ok(_) => rest,
            Err(code) => rest.push(((fs.len() - 1) as usize, Grib2Error::FieldReadError(code as u8))),
        }
    }
}

/// The fields that decoded, in order.
pub open spec fn decoded_fields(fs: Seq<Result<DecodedField, i64>>) -> Seq<DecodedField>
    decreases fs.len(),
{
    if fs.len() == 0 {
        Seq::empty()
    } else {
        let rest = decoded_fields(fs.drop_last());
        match fs.last() {
            Ok(d) => rest.push(d),
            Err(_) => rest,
        }
    }
}

/// The info that the decoder's sections give: its status code when nonzero,
/// the info the sections hold, or `Unknown` when they hold none.
pub open spec fn decoded_info(info: Result<(Seq<i64>, Seq<i64>), i64>) -> Result<
    Grib2Info,
    Grib2Error,
> {
    match info {
        Err(code) => Err(Grib2Error::InfoReadError(code as u8)),
        Ok((s0, s1)) => {
            let t = RefTime {
                year: s1[5] as i32,
                month: s1[6] as u32,
                day: s1[7] as u32,
                hour: s1[8] as u32,
                minute: s1[9] as u32,
                second: s1[10] as u32,
            };
            if s0.len() >= 3 && s1.len() >= 13 && ref_time_valid(t) {
                Ok(
                    Grib2Info {
                        center: s1[0] as u16,
                        subcenter: s1[1] as u16,
                        master_table_version: s1[2] as u8,
                        local_table_version: s1[3] as u8,
                        ref_time_significance: s1[4] as u8,
                        ref_time: t,
                        prod_status: s1[11] as u8,
                        data_type: s1[12] as u8,
                        discipline: s0[0] as u8,
                        grib_edition: s0[1] as u8,
                        length: s0[2],
                    },
                )
            } else {
                Err(Grib2Error::Unknown)
            }
        },
    }
}

/// The (layer, message position) entries of fields `fs` of the message at
/// position `i`, in field order, for each field whose product template
/// describes a layer.
pub open spec fn field_entries(fs: Seq<Grib2Field>, i: usize) -> Seq<(Layer, usize)>
    decreases fs.len(),
{
    if fs.len() == 0 {
        Seq::empty()
    } else {
        let rest = field_entries(fs.drop_last(), i);
        match template_layer(fs.last().prod_template_view()) {
            Some(l) => rest.push((l, i)),
            None => rest,
        }
    }
}

/// The (layer, message position) entries of all messages, message by
/// message.
pub open spec fn layer_entries(msgs: Seq<Grib2Message>) -> Seq<(Layer, usize)>
    decreases msgs.len(),
{
    if msgs.len() == 0 {
        Seq::empty()
    } else {
        layer_entries(msgs.drop_last()) + field_entries(
            msgs.last().fields_view(),
            (msgs.len() - 1) as usize,
        )
    }
}

/// The message positions filed under layer `k`, in entry order.
pub open spec fn indices_for(es: Seq<(Layer, usize)>, k: Layer) -> Seq<usize>
    decreases es.len(),
{
    if es.len() == 0 {
        Seq::empty()
    } else {
        let rest = indices_for(es.drop_last(), k);
        if es.last().0 == k {
            rest.push(es.last().1)
        } else {
            rest
        }
    }
}

/// `keys` and `lists` group the entries `es`: one key per layer that occurs,
/// each once, with the message positions filed under it.
pub open spec fn groups_of(keys: Seq<Layer>, lists: Seq<Seq<usize>>, es: Seq<(Layer, usize)>) -> bool {
    &&& keys.len() == lists.len()
    &&& forall|a: int, b: int| 0 <= a < b < keys.len() ==> #[trigger] keys[a] != #[trigger] keys[b]
    &&& forall|g: int| 0 <= g < keys.len() ==> #[trigger] lists[g] == indices_for(es, keys[g])
    &&& forall|g: int| 0 <= g < keys.len() ==> (#[trigger] lists[g]).len() > 0
    &&& forall|t: int| 0 <= t < es.len() ==> keys.contains((#[trigger] es[t]).0)
}

/// A message position is filed under a layer exactly when one of its fields
/// describes that layer: messages that share a layer share its group, and a
/// message is never filed under a layer that none of its fields describes,
/// however little that layer differs from its own.
pub proof fn lemma_filed_under_layer(es: Seq<(Layer, usize)>, k: Layer, i: usize)
    ensures
        indices_for(es, k).contains(i) <==> es.contains((k, i)),
    decreases es.len(),
{
    if es.len() > 0 {
        let rest = es.drop_last();
        lemma_filed_under_layer(rest, k, i);
        let ir = indices_for(rest, k);
        let ie = indices_for(es, k);
        assert(ie == (if es.last().0 == k {
            ir.push(es.last().1)
        } else {
            ir
        }));
        if es.contains((k, i)) {
            let t = choose|t: int| 0 <= t < es.len() && es[t] == (k, i);
            if t < es.len() - 1 {
                assert(rest[t] == (k, i));
                assert(rest.contains((k, i)));
                let u = choose|u: int| 0 <= u < ir.len() && ir[u] == i;
                assert(ie[u] == i);
            } else {
                assert(ie[ir.len() as int] == i);
            }
            assert(ie.contains(i));
        }
        if ie.contains(i) {
            let t = choose|t: int| 0 <= t < ie.len() && ie[t] == i;
            if es.last().0 == k && t == ir.len() {
                assert(es[es.len() - 1] == (k, i));
            } else {
                assert(ir[t] == i);
                assert(ir.contains(i));
                let u = choose|u: int| 0 <= u < rest.len() && rest[u] == (k, i);
                assert(es[u] == (k, i));
            }
            assert(es.contains((k, i)));
        }
    }
}

/// In a grouping, every field that describes a layer puts its message in
/// the group of that layer, which is the only group with that layer: two
/// messages share a group exactly when they have fields describing the same
/// pair of surfaces, compared part by part.
pub proof fn lemma_grouped_under_own_layer(
    keys: Seq<Layer>,
    lists: Seq<Seq<usize>>,
    es: Seq<(Layer, usize)>,
    t: int,
)
    requires
        groups_of(keys, lists, es),
        0 <= t < es.len(),
    ensures
        exists|g: int|
            0 <= g < keys.len() && keys[g] == es[t].0 && (#[trigger] lists[g]).contains(es[t].1),
        forall|g: int, h: int|
            0 <= g < keys.len() && 0 <= h < keys.len() && keys[g] == es[t].0 && keys[h] == es[t].0
                ==> g == h,
{
    assert(keys.contains(es[t].0));
    let g = choose|g: int| 0 <= g < keys.len() && keys[g] == es[t].0;
    assert(es[t] == (es[t].0, es[t].1));
    assert(es.contains((es[t].0, es[t].1)));
    lemma_filed_under_layer(es, es[t].0, es[t].1);
    assert(lists[g] == indices_for(es, keys[g]));
    assert(lists[g].contains(es[t].1));
    assert forall|a: int, b: int|
        0 <= a < keys.len() && 0 <= b < keys.len() && keys[a] == es[t].0 && keys[b] == es[t].0
            implies a == b by {
        if a < b {
            assert(keys[a] != keys[b]);
        } else if b < a {
            assert(keys[b] != keys[a]);
        }
    }
}

pub open spec fn lists_view(v: Seq<Vec<usize>>) -> Seq<Seq<usize>> {
    v.map_values(|l: Vec<usize>| l@)
}

/// Files message position `i` under layer `key`, opening a group for the
/// layer when it has none.
fn file_entry(
    keys: &mut Vec<Layer>,
    lists: &mut Vec<Vec<usize>>,
    key: Layer,
    i: usize,
    Ghost(es): Ghost<Seq<(Layer, usize)>>,
)
    requires
        groups_of(old(keys)@, lists_view(old(lists)@), es),
    ensures
        groups_of(final(keys)@, lists_view(final(lists)@), es.push((key, i))),
{
    let ghost es2 = es.push((key, i));
    assert(es2.drop_last() =~= es);
    let ghost keys0 = keys@;
    let ghost lists0 = lists_view(lists@);
    let mut g: usize = 0;
    while g < keys.len()
        invariant
            keys@ == keys0,
            lists_view(lists@) == lists0,
            groups_of(keys0, lists0, es),
            es2.drop_last() == es,
            es2 == es.push((key, i)),
            g <= keys0.len(),
            forall|h: int| 0 <= h < g ==> keys0[h] != key,
        decreases keys0.len() - g,
    {
        if keys[g].0 == key.0 && keys[g].1 == key.1 {
            let mut l: Vec<usize> = Vec::new();
            lists.set_and_swap(g, &mut l);
            l.push(i);
            lists.set_and_swap(g, &mut l);
            proof {
                let nl = lists_view(lists@);
                assert(nl.len() == lists0.len());
                assert forall|h: int| 0 <= h < keys0.len() implies #[trigger] nl[h] == indices_for(
                    es2,
                    keys0[h],
                ) by {
                    if h != g {
                        assert(nl[h] == lists0[h]);
                        assert(keys0[h] != key);
                    } else {
                        assert(nl[h] == lists0[h].push(i));
                    }
                }
                assert forall|h: int| 0 <= h < keys0.len() implies (#[trigger] nl[h]).len() > 0 by {
                    if h != g {
                        assert(nl[h] == lists0[h]);
                    }
                }
                assert forall|t: int| 0 <= t < es2.len() implies keys0.contains(
                    (#[trigger] es2[t]).0,
                ) by {
                    if t < es.len() {
                        assert(es2[t] == es[t]);
                    } else {
                        assert(keys0[g as int] == key);
                    }
                }
            }
            return;
        }
        g = g + 1;
    }
    proof {
        assert(!keys0.contains(key));
        if indices_for(es, key).len() > 0 {
            let first = indices_for(es, key)[0];
            assert(indices_for(es, key).contains(first));
            lemma_filed_under_layer(es, key, first);
            let t = choose|t: int| 0 <= t < es.len() && es[t] == (key, first);
            assert(keys0.contains(es[t].0));
        }
        assert(indices_for(es, key) =~= Seq::<usize>::empty());
    }
    keys.push(key);
    let mut l: Vec<usize> = Vec::new();
    l.push(i);
    lists.push(l);
    proof {
        let nk = keys@;
        let nl = lists_view(lists@);
        assert(nk == keys0.push(key));
        assert(nl =~= lists0.push(seq![i]));
        assert forall|h: int| 0 <= h < nk.len() implies #[trigger] nl[h] == indices_for(es2, nk[h]) by {
            if h < keys0.len() {
                assert(keys0[h] != key);
                assert(nl[h] == lists0[h]);
            } else {
                assert(indices_for(es2, key) =~= seq![i]);
            }
        }
        assert forall|a: int, b: int| 0 <= a < b < nk.len() implies #[trigger] nk[a]
            != #[trigger] nk[b] by {
            if b == keys0.len() {
                assert(keys0[a] != key);
            } else {
                assert(keys0[a] != keys0[b]);
            }
        }
        assert forall|h: int| 0 <= h < nk.len() implies (#[trigger] nl[h]).len() > 0 by {
            if h < keys0.len() {
                assert(nl[h] == lists0[h]);
            }
        }
        assert forall|t: int| 0 <= t < es2.len() implies nk.contains((#[trigger] es2[t]).0) by {
            if t < es.len() {
                assert(es2[t] == es[t]);
                assert(keys0.contains(es[t].0));
                let u = choose|u: int| 0 <= u < keys0.len() && keys0[u] == es[t].0;
                assert(nk[u] == es[t].0);
            } else {
                assert(nk[keys0.len() as int] == key);
            }
        }
    }
}

/// The messages read from one source, and the error of each message that
/// could not be read, with the count of messages read before it.
pub struct Grib2 {
    path: String,
    messages: Vec<Grib2Message>,
    errors: Vec<(usize, Grib2Error)>,
}

impl Grib2 {
    pub closed spec fn path_view(&self) -> Seq<char> {
        self.path@
    }

    pub closed spec fn messages_view(&self) -> Seq<Grib2Message> {
        self.messages@
    }

    pub closed spec fn errors_view(&self) -> Seq<(usize, Grib2Error)> {
        self.errors@
    }

    /// Whether no message has been read.
    pub fn empty(&self) -> (r: bool)
        ensures
            r == (self.messages_view().len() == 0),
    {
        self.messages.len() == 0
    }

    /// A collection for the source at `path`, with nothing read yet.
    pub fn new(path: String) -> (r: Grib2)
        ensures
            r.path_view() == path@,
            r.messages_view().len() == 0,
            r.errors_view().len() == 0,
    {
        Grib2 { path, messages: Vec::new(), errors: Vec::new() }
    }

    pub fn messages(&self) -> (r: &Vec<Grib2Message>)
        ensures
            r@ == self.messages_view(),
    {
        &self.messages
    }

    pub fn errors(&self) -> (r: &Vec<(usize, Grib2Error)>)
        ensures
            r@ == self.errors_view(),
    {
        &self.errors
    }

    pub fn path(&self) -> (r: &String)
        ensures
            r@ == self.path_view(),
    {
        &self.path
    }

    /// Writing messages back out is not offered.
    pub fn write_all(&self) -> (r: Result<(), Grib2Error>)
        ensures
            r == Err::<(), Grib2Error>(Grib2Error::FunctionNotImplemented),
    {
        Err(Grib2Error::FunctionNotImplemented)
    }

    /// Records the outcome of a read: `messages` replace those held, and
    /// `errors` follow those already recorded. Returns how many messages are
    /// held.
    pub fn store_read(&mut self, messages: Vec<Grib2Message>, errors: Vec<(usize, Grib2Error)>) -> (r:
        usize)
        ensures
            final(self).messages_view() == messages@,
            final(self).errors_view() == old(self).errors_view() + errors@,
            final(self).path_view() == old(self).path_view(),
            r == messages@.len(),
    {
        let mut k: usize = 0;
        while k < errors.len()
            invariant
                k <= errors@.len(),
                self.errors@ == old(self).errors_view() + errors@.take(k as int),
                self.path@ == old(self).path_view(),
            decreases errors@.len() - k,
        {
            self.errors.push(errors[k]);
            k = k + 1;
            assert(self.errors@ =~= old(self).errors_view() + errors@.take(k as int));
        }
        assert(errors@.take(errors@.len() as int) =~= errors@);
        let n = messages.len();
        self.messages = messages;
        n
    }

    /// The layers that the messages' fields describe, each once in the order
    /// it first occurs, with the position of the message of every field that
    /// describes it, in message and field order. A message appears once per
    /// such field; fields whose product template is too short to describe a
    /// layer are passed over.
    pub fn layer_groups(&self) -> (r: Vec<(Layer, Vec<usize>)>)
        ensures
            groups_of(
                r@.map_values(|g: (Layer, Vec<usize>)| g.0),
                r@.map_values(|g: (Layer, Vec<usize>)| g.1@),
                layer_entries(self.messages_view()),
            ),
    {
        let ghost msgs = self.messages@;
        let mut keys: Vec<Layer> = Vec::new();
        let mut lists: Vec<Vec<usize>> = Vec::new();
        proof {
            assert(msgs.take(0) =~= Seq::<Grib2Message>::empty());
            assert(lists_view(lists@) =~= Seq::<Seq<usize>>::empty());
        }
        let mut i: usize = 0;
        while i < self.messages.len()
            invariant
                msgs == self.messages@,
                i <= msgs.len(),
                groups_of(keys@, lists_view(lists@), layer_entries(msgs.take(i as int))),
            decreases msgs.len() - i,
        {
            let fields = self.messages[i].fields();
            let ghost base = layer_entries(msgs.take(i as int));
            proof {
                assert(fields@.take(0) =~= Seq::<Grib2Field>::empty());
                assert(base + field_entries(fields@.take(0), i) =~= base);
            }
            let mut j: usize = 0;
            while j < fields.len()
                invariant
                    j <= fields@.len(),
                    groups_of(keys@, lists_view(lists@), base + field_entries(fields@.take(j as int), i)),
                decreases fields@.len() - j,
            {
                let ghost before = field_entries(fields@.take(j as int), i);
                proof {
                    assert(fields@.take(j + 1).drop_last() =~= fields@.take(j as int));
                    assert(fields@.take(j + 1).last() == fields@[j as int]);
                }
                match fields[j].prod_template_as_horizontal_layer_definition() {
                    Some(d) => {
                        let key = d.get_fixed_surfaces();
                        file_entry(&mut keys, &mut lists, key, i, Ghost(base + before));
                        proof {
                            assert(field_entries(fields@.take(j + 1), i) == before.push((key, i)));
                            assert(base + before.push((key, i)) =~= (base + before).push((key, i)));
                        }
                    },
                    None => {
                        proof {
                            assert(field_entries(fields@.take(j + 1), i) == before);
                        }
                    },
                }
                j = j + 1;
            }
            proof {
                assert(fields@.take(fields@.len() as int) =~= fields@);
                assert(msgs.take(i + 1).drop_last() =~= msgs.take(i as int));
                assert(msgs.take(i + 1).last() == msgs[i as int]);
                assert(layer_entries(msgs.take(i + 1)) == base + field_entries(fields@, i));
            }
            i = i + 1;
        }
        proof {
            assert(msgs.take(msgs.len() as int) =~= msgs);
        }
        let ghost es = layer_entries(msgs);
        let ghost keys0 = keys@;
        let ghost lists0 = lists_view(lists@);
        let mut out: Vec<(Layer, Vec<usize>)> = Vec::new();
        let mut g: usize = 0;
        while g < keys.len()
            invariant
                keys@ == keys0,
                lists@.len() == keys0.len(),
                groups_of(keys0, lists0, es),
                g <= keys0.len(),
                out@.len() == g,
                forall|h: int| g <= h < keys0.len() ==> (#[trigger] lists@[h])@ == lists0[h],
                forall|h: int| 0 <= h < g ==> (#[trigger] out@[h]).0 == keys0[h] && out@[h].1@ == lists0[h],
            decreases keys0.len() - g,
        {
            let mut l: Vec<usize> = Vec::new();
            lists.set_and_swap(g, &mut l);
            out.push((keys[g], l));
            g = g + 1;
        }
        proof {
            let ks = out@.map_values(|e: (Layer, Vec<usize>)| e.0);
            let ls = out@.map_values(|e: (Layer, Vec<usize>)| e.1@);
            assert(ks =~= keys0);
            assert(ls =~= lists0);
        }
        out
    }

    /// The messages grouped by layer: for each group of `layer_groups`, its
    /// layer and a copy of the message at each of its positions.
    pub fn messages_by_layer(&self) -> (r: Vec<(Layer, Vec<Grib2Message>)>)
        ensures
            ({
                let es = layer_entries(self.messages_view());
                let keys = r@.map_values(|g: (Layer, Vec<Grib2Message>)| g.0);
                &&& forall|a: int, b: int|
                    0 <= a < b < keys.len() ==> #[trigger] keys[a] != #[trigger] keys[b]
                &&& forall|t: int| 0 <= t < es.len() ==> keys.contains((#[trigger] es[t]).0)
                &&& forall|g: int|
                    0 <= g < r@.len() ==> (#[trigger] r@[g]).1@.len() == indices_for(
                        es,
                        r@[g].0,
                    ).len() && r@[g].1@.len() > 0
                &&& forall|g: int, m: int|
                    0 <= g < r@.len() && 0 <= m < r@[g].1@.len() ==> same_message(
                        #[trigger] r@[g].1@[m],
                        self.messages_view()[indices_for(es, r@[g].0)[m] as int],
                    )
            }),
    {
        let groups = self.layer_groups();
        let ghost es = layer_entries(self.messages@);
        let ghost gk = groups@.map_values(|g: (Layer, Vec<usize>)| g.0);
        let ghost gl = groups@.map_values(|g: (Layer, Vec<usize>)| g.1@);
        proof {
            lemma_entry_positions(self.messages@);
        }
        let mut out: Vec<(Layer, Vec<Grib2Message>)> = Vec::new();
        let mut g: usize = 0;
        while g < groups.len()
            invariant
                g <= groups@.len(),
                es == layer_entries(self.messages@),
                gk == groups@.map_values(|g: (Layer, Vec<usize>)| g.0),
                gl == groups@.map_values(|g: (Layer, Vec<usize>)| g.1@),
                groups_of(gk, gl, es),
                forall|t: int| 0 <= t < es.len() ==> ((#[trigger] es[t]).1 as int) < self.messages@.len(),
                out@.len() == g,
                forall|h: int|
                    0 <= h < g ==> (#[trigger] out@[h]).0 == gk[h] && out@[h].1@.len() == gl[h].len(),
                forall|h: int, m: int|
                    0 <= h < g && 0 <= m < gl[h].len() ==> same_message(
                        #[trigger] out@[h].1@[m],
                        self.messages@[gl[h][m] as int],
                    ),
            decreases groups@.len() - g,
        {
            let mut copies: Vec<Grib2Message> = Vec::new();
            let mut m: usize = 0;
            while m < groups[g].1.len()
                invariant
                    g < groups@.len(),
                    m <= gl[g as int].len(),
                    gl[g as int] == groups@[g as int].1@,
                    gl[g as int] == indices_for(es, gk[g as int]),
                    forall|t: int| 0 <= t < es.len() ==> ((#[trigger] es[t]).1 as int) < self.messages@.len(),
                    copies@.len() == m,
                    forall|j: int|
                        0 <= j < m ==> same_message(
                            #[trigger] copies@[j],
                            self.messages@[gl[g as int][j] as int],
                        ),
                decreases gl[g as int].len() - m,
            {
                let idx = groups[g].1[m];
                proof {
                    assert(indices_for(es, gk[g as int]).contains(idx));
                    lemma_filed_under_layer(es, gk[g as int], idx);
                    let t = choose|t: int| 0 <= t < es.len() && es[t] == (gk[g as int], idx);
                    assert(es[t].1 == idx);
                }
                copies.push(self.messages[idx].duplicate());
                m = m + 1;
            }
            out.push((groups[g].0, copies));
            g = g + 1;
        }
        proof {
            let keys = out@.map_values(|g: (Layer, Vec<Grib2Message>)| g.0);
            assert(keys =~= gk);
        }
        out
    }
}

/// Every entry of `field_entries(fs, i)` carries position `i`.
proof fn lemma_field_entry_positions(fs: Seq<Grib2Field>, i: usize)
    ensures
        forall|t: int|
            0 <= t < field_entries(fs, i).len() ==> (#[trigger] field_entries(fs, i)[t]).1 == i,
    decreases fs.len(),
{
    if fs.len() > 0 {
        let rest = field_entries(fs.drop_last(), i);
        lemma_field_entry_positions(fs.drop_last(), i);
        assert forall|t: int| 0 <= t < field_entries(fs, i).len() implies (#[trigger] field_entries(
            fs,
            i,
        )[t]).1 == i by {
            if t < rest.len() {
                assert(field_entries(fs, i)[t] == rest[t]);
            }
        }
    }
}

/// Every entry names the position of a message.
proof fn lemma_entry_positions(msgs: Seq<Grib2Message>)
    ensures
        forall|t: int|
            0 <= t < layer_entries(msgs).len() ==> ((#[trigger] layer_entries(msgs)[t]).1 as int)
                < msgs.len(),
    decreases msgs.len(),
{
    if msgs.len() > 0 {
        let rest = msgs.drop_last();
        lemma_entry_positions(rest);
        let tail = field_entries(msgs.last().fields_view(), (msgs.len() - 1) as usize);
        lemma_field_entry_positions(msgs.last().fields_view(), (msgs.len() - 1) as usize);
        assert forall|t: int| 0 <= t < layer_entries(msgs).len() implies ((#[trigger] layer_entries(
            msgs,
        )[t]).1 as int) < msgs.len() by {
            let head = layer_entries(rest);
            if t < head.len() {
                assert(layer_entries(msgs)[t] == head[t]);
            } else {
                assert(layer_entries(msgs)[t] == tail[t - head.len()]);
            }
        }
    }
}

} // verus!
