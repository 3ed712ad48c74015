//! Assumption scenarios: named bundles of the seven rate tables.
//!
//! A mortality table is keyed by integer age and carries one rate per
//! gender; every other table is keyed by policy year (1-indexed) and
//! carries one rate.  Lookups are left-outer: a missing key yields rate 0.
//! All rates are fixed-point values in the scale of [`crate::fixed::FX_ONE`].

use crate::errors::{AssumptionKind, Error};
use vstd::prelude::*;

verus! {

/// One row of a mortality table: a rate per gender at one age.
#[derive(Clone, Copy, PartialEq, Eq, Structural, Debug)]
pub struct MortalityRow {
    pub age: i64,
    pub male: i64,
    pub female: i64,
}

/// One row of a year-keyed assumption table.
#[derive(Clone, Copy, PartialEq, Eq, Structural, Debug)]
pub struct RateRow {
    /// Policy year, 1-indexed as assumption tables are published.
    pub year: i64,
    pub rate: i64,
}

/// First-match mortality lookup by age, selecting the gender column;
/// a missing age yields 0, as a left-outer join filled with zero would.
pub open spec fn mort_rate_lookup(rows: Seq<MortalityRow>, age: int, male: bool) -> int
    decreases rows.len(),
{
    if rows.len() == 0 {
        0
    } else if rows[0].age == age {
        if male {
            rows[0].male as int
        } else {
            rows[0].female as int
        }
    } else {
        mort_rate_lookup(rows.drop_first(), age, male)
    }
}

/// First-match lookup by completed policy years; table years are
/// 1-indexed, durations 0-indexed, so year `d + 1` serves duration `d`.
/// A missing duration yields 0.
pub open spec fn rate_lookup(rows: Seq<RateRow>, duration: int) -> int
    decreases rows.len(),
{
    if rows.len() == 0 {
        0
    } else if rows[0].year - 1 == duration {
        rows[0].rate as int
    } else {
        rate_lookup(rows.drop_first(), duration)
    }
}

/// A named bundle of the seven assumption tables needed for one run.
#[derive(Clone, Debug)]
pub struct AssumptionScenario {
    pub name: String,
    pub mort: Vec<MortalityRow>,
    pub lapse: Vec<RateRow>,
    pub inf: Vec<RateRow>,
    pub acq: Vec<RateRow>,
    pub mtn: Vec<RateRow>,
    pub spot: Vec<RateRow>,
    pub load: Vec<RateRow>,
}

/// The first table absent from the seven, in the order the scenario
/// loader fills them, if any.
pub open spec fn first_missing_table(
    mort: Option<Vec<MortalityRow>>,
    lapse: Option<Vec<RateRow>>,
    inf: Option<Vec<RateRow>>,
    acq: Option<Vec<RateRow>>,
    mtn: Option<Vec<RateRow>>,
    spot: Option<Vec<RateRow>>,
    load: Option<Vec<RateRow>>,
) -> Option<AssumptionKind> {
    if mort is None {
        Some(AssumptionKind::Mortality)
    } else if lapse is None {
        Some(AssumptionKind::Lapse)
    } else if inf is None {
        Some(AssumptionKind::Inflation)
    } else if acq is None {
        Some(AssumptionKind::AcquisitionExpense)
    } else if mtn is None {
        Some(AssumptionKind::MaintenanceExpense)
    } else if spot is None {
        Some(AssumptionKind::SpotRate)
    } else if load is None {
        Some(AssumptionKind::LoadRate)
    } else {
        None
    }
}

impl AssumptionScenario {
    /// Assembles a scenario from whichever tables a loader found.
    /// Every table must be present: absence is a construction error
    /// naming the first missing table, never a runtime default.
    pub fn new(
        name: String,
        mort: Option<Vec<MortalityRow>>,
        lapse: Option<Vec<RateRow>>,
        inf: Option<Vec<RateRow>>,
        acq: Option<Vec<RateRow>>,
        mtn: Option<Vec<RateRow>>,
        spot: Option<Vec<RateRow>>,
        load: Option<Vec<RateRow>>,
    ) -> (r: Result<Self, Error>)
        ensures
            r is Ok <==> first_missing_table(mort, lapse, inf, acq, mtn, spot, load) is None,
            r matches Ok(s) ==> {
                &&& s.name@ == name@
                &&& Some(s.mort) == mort
                &&& Some(s.lapse) == lapse
                &&& Some(s.inf) == inf
                &&& Some(s.acq) == acq
                &&& Some(s.mtn) == mtn
                &&& Some(s.spot) == spot
                &&& Some(s.load) == load
            },
            r matches Err(e) ==> (first_missing_table(mort, lapse, inf, acq, mtn, spot, load)
                matches Some(k) && e == Error::MissingAssumption(k)),
    {
        let mort = match mort {
            Some(t) => t,
            None => {
                return Err(Error::MissingAssumption(AssumptionKind::Mortality));
            },
        };
        let lapse = match lapse {
            Some(t) => t,
            None => {
                return Err(Error::MissingAssumption(AssumptionKind::Lapse));
            },
        };
        let inf = match inf {
            Some(t) => t,
            None => {
                return Err(Error::MissingAssumption(AssumptionKind::Inflation));
            },
        };
        let acq = match acq {
            Some(t) => t,
            None => {
                return Err(Error::MissingAssumption(AssumptionKind::AcquisitionExpense));
            },
        };
        let mtn = match mtn {
            Some(t) => t,
            None => {
                return Err(Error::MissingAssumption(AssumptionKind::MaintenanceExpense));
            },
        };
        let spot = match spot {
            Some(t) => t,
            None => {
                return Err(Error::MissingAssumption(AssumptionKind::SpotRate));
            },
        };
        let load = match load {
            Some(t) => t,
            None => {
                return Err(Error::MissingAssumption(AssumptionKind::LoadRate));
            },
        };
        Ok(AssumptionScenario { name, mort, lapse, inf, acq, mtn, spot, load })
    }
}

/// Two scenarios carrying the same name and the same seven tables.
pub open spec fn scenario_equiv(a: AssumptionScenario, b: AssumptionScenario) -> bool {
    &&& a.name == b.name
    &&& a.mort@ == b.mort@
    &&& a.lapse@ == b.lapse@
    &&& a.inf@ == b.inf@
    &&& a.acq@ == b.acq@
    &&& a.mtn@ == b.mtn@
    &&& a.spot@ == b.spot@
    &&& a.load@ == b.load@
}

/// An element-for-element copy of a table of copyable rows.
pub fn dup_rows<T: Copy>(v: &Vec<T>) -> (r: Vec<T>)
    ensures
        r@ == v@,
{
    let n = v.len();
    let mut out: Vec<T> = Vec::new();
    let mut i: usize = 0;
    while i < n
        invariant
            i <= n,
            n == v@.len(),
            out@.len() == i,
            forall|j: int| 0 <= j < i ==> out@[j] == v@[j],
        decreases n - i,
    {
        out.push(v[i]);
        i += 1;
    }
    proof {
        assert(out@ =~= v@);
    }
    out
}

impl AssumptionScenario {
    /// A copy of this scenario that the contracts can see is equal,
    /// field for field.
    pub fn duplicate(&self) -> (r: Self)
        ensures
            r.name == self.name,
            r.mort@ == self.mort@,
            r.lapse@ == self.lapse@,
            r.inf@ == self.inf@,
            r.acq@ == self.acq@,
            r.mtn@ == self.mtn@,
            r.spot@ == self.spot@,
            r.load@ == self.load@,
    {
        AssumptionScenario {
            name: self.name.clone(),
            mort: dup_rows(&self.mort),
            lapse: dup_rows(&self.lapse),
            inf: dup_rows(&self.inf),
            acq: dup_rows(&self.acq),
            mtn: dup_rows(&self.mtn),
            spot: dup_rows(&self.spot),
            load: dup_rows(&self.load),
        }
    }
}

/// First-match mortality lookup, executable form.
pub fn mort_rate_for(rows: &Vec<MortalityRow>, age: i64, male: bool) -> (r: i64)
    ensures
        r == mort_rate_lookup(rows@, age as int, male),
{
    let n = rows.len();
    let mut i: usize = 0;
    proof {
        assert(rows@.skip(0) =~= rows@);
    }
    while i < n
        invariant
            i <= n,
            n == rows@.len(),
            mort_rate_lookup(rows@, age as int, male) == mort_rate_lookup(
                rows@.skip(i as int),
                age as int,
                male,
            ),
        decreases n - i,
    {
        let row = rows[i];
        proof {
            assert(rows@.skip(i as int)[0] == rows@[i as int]);
            assert(rows@.skip(i as int).drop_first() =~= rows@.skip(i as int + 1));
        }
        if row.age == age {
            return if male {
                row.male
            } else {
                row.female
            };
        }
        i += 1;
    }
    proof {
        assert(rows@.skip(n as int).len() == 0);
    }
    0
}

/// First-match duration lookup, executable form.
pub fn rate_for(rows: &Vec<RateRow>, duration: i64) -> (r: i64)
    ensures
        r == rate_lookup(rows@, duration as int),
{
    let n = rows.len();
    let mut i: usize = 0;
    proof {
        assert(rows@.skip(0) =~= rows@);
    }
    while i < n
        invariant
            i <= n,
            n == rows@.len(),
            rate_lookup(rows@, duration as int) == rate_lookup(rows@.skip(i as int), duration as int),
        decreases n - i,
    {
        let row = rows[i];
        proof {
            assert(rows@.skip(i as int)[0] == rows@[i as int]);
            assert(rows@.skip(i as int).drop_first() =~= rows@.skip(i as int + 1));
        }
        if (row.year as i128) - 1 == duration as i128 {
            return row.rate;
        }
        i += 1;
    }
    proof {
        assert(rows@.skip(n as int).len() == 0);
    }
    0
}

} // verus!
