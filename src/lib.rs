//! Code-table lookups and typed views over decoded GRIB2 message data.
use vstd::prelude::*;

pub mod codetables;
pub mod grid;
pub mod message;
pub mod product;
pub mod text;

pub use message::{
    DecodedField, Grib2, Grib2Error, Grib2Field, Grib2Info, Grib2Message, Layer, RefTime,
};

verus! {

} // verus!
