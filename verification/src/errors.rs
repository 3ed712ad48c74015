//! Error taxonomy for projection runs.
//!
//! Every failure is a value of [`Error`]: lookup problems while a scenario
//! is assembled or mapped, schema problems in a model-point table,
//! defensive guards around the decrement recurrence, and persistence
//! problems while a result bundle is decoded.

use vstd::prelude::*;

verus! {

/// The seven assumption tables of a scenario.
#[derive(Clone, Copy, PartialEq, Eq, Structural, Debug)]
pub enum AssumptionKind {
    Mortality,
    Lapse,
    Inflation,
    AcquisitionExpense,
    MaintenanceExpense,
    SpotRate,
    LoadRate,
}

/// Faults found while turning a raw model-point record into a typed one.
#[derive(Clone, Copy, PartialEq, Eq, Structural, Debug)]
pub enum SchemaFault {
    /// The `model` tag names no known variant.
    UnknownModelTag,
    /// `entry_age` is negative.
    NegativeEntryAge,
    /// `term` is negative.
    NegativeTerm,
    /// `policy_count` is negative.
    NegativePolicyCount,
    /// `sum_insured` is negative.
    NegativeSumInsured,
    /// The monthly timeline for this `term` would not fit in memory.
    TermTooLong,
    /// A variant-specific column is absent for the tagged variant.
    MissingVariantField,
}

/// Faults found while reading a persisted result bundle.
#[derive(Clone, Copy, PartialEq, Eq, Structural, Debug)]
pub enum PersistenceFault {
    /// A file of the bundle layout is absent.
    MissingFile,
    /// An `info.json` file does not parse.
    MalformedJson,
    /// An `info.json` file lacks a required key.
    MissingJsonKey,
    /// A table file does not decode.
    MalformedTable,
    /// The named assumption scenario is not among those supplied.
    UnknownScenario,
}

/// Every error a projection run or a bundle import can produce.
#[derive(Clone, Copy, PartialEq, Eq, Structural, Debug)]
pub enum Error {
    /// A scenario was assembled without one of its seven tables.
    MissingAssumption(AssumptionKind),
    /// The model point's gender selects no mortality rate column.
    MortalityColumnNotFound,
    /// The model-point table is malformed.
    Schema(SchemaFault),
    /// A decrement or discount rate lies outside its admissible range.
    RateOutOfRange,
    /// A cash-flow amount overflowed the fixed-point range.
    Overflow,
    /// The model-point variant has no projection algorithm.
    UnsupportedModelPoint,
    /// A result bundle could not be read back.
    Persistence(PersistenceFault),
}

} // verus!
