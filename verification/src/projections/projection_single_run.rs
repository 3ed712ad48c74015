//! The single-run engine: one model-point cohort table projected under
//! one scenario, in fixed-size chunks, into one portfolio table.
//!
//! Chunks bound how much intermediate state is live at once; they do
//! not change the result.  The output row order is chunk-major and
//! point-minor, which for in-order chunks equals plain input order, so
//! the projected table is the in-order concatenation of every model
//! point's timeline — whatever the chunk size.

use crate::assumptions::{scenario_equiv, AssumptionScenario};
use crate::bundle::{find_file, find_in, scen_lookup, scen_lookup_in, BundleFile, FileContent};
use crate::codec::{
    dec_mp_table, dec_proj_table, decode_mp_table, decode_proj_table, enc_mp_table, enc_proj_table,
    encode_mp_table, encode_proj_table, mp_views, MpV,
};
use crate::errors::{Error, PersistenceFault};
use crate::model_points::{
    convert_model_points_df_to_vector, converted_row, dup_model_points, rows_fault,
};
use crate::projections::projection_mp::ModelPoint;
use crate::projections::s::{s_project_err, s_project_ok, s_timeline, s_timeline_len};
use crate::projections::structs::MonthRow;
use crate::text::{emit_info_run, info_json_run, p_info_run, parse_info_run};
use vstd::prelude::*;

verus! {

/// Model points projected per parallel work unit, chosen to bound the
/// live intermediate state of a run.
pub const CHUNK_SIZE: usize = 100;

/// One projection run to perform: a cohort table under one scenario.
#[derive(Clone, Debug)]
pub struct SingleRunSetup {
    pub description: String,
    pub model_points_df: Vec<crate::model_points::ModelPoint>,
    pub assumption_scenario: AssumptionScenario,
}

/// A performed run: its setup, kept for reproducibility, and the
/// projected portfolio table.
#[derive(Clone, Debug)]
pub struct SingleRunResult {
    pub setup: SingleRunSetup,
    pub projected_df: Vec<MonthRow>,
}

/// Two setups carrying the same description, cohort table and scenario.
pub open spec fn setup_equiv(a: SingleRunSetup, b: SingleRunSetup) -> bool {
    &&& a.description == b.description
    &&& a.model_points_df@ == b.model_points_df@
    &&& scenario_equiv(a.assumption_scenario, b.assumption_scenario)
}

/// Why projecting one typed model point fails, if it does.
pub open spec fn point_fault(pt: ModelPoint, scen: AssumptionScenario) -> Option<Error> {
    match pt {
        ModelPoint::SModel(mp) => if s_project_ok(mp, scen) {
            None
        } else {
            Some(s_project_err(mp, scen))
        },
        _ => Some(Error::UnsupportedModelPoint),
    }
}

/// The timeline one typed model point projects to.
pub open spec fn point_rows(pt: ModelPoint, scen: AssumptionScenario) -> Seq<MonthRow> {
    match pt {
        ModelPoint::SModel(mp) => s_timeline(mp, scen),
        _ => Seq::empty(),
    }
}

/// The first projection fault among the points, in input order, if any.
pub open spec fn points_fault(pts: Seq<ModelPoint>, scen: AssumptionScenario) -> Option<Error>
    decreases pts.len(),
{
    if pts.len() == 0 {
        None
    } else if point_fault(pts[0], scen) is Some {
        point_fault(pts[0], scen)
    } else {
        points_fault(pts.drop_first(), scen)
    }
}

/// The portfolio table of a run: every point's timeline, concatenated
/// in input order.
pub open spec fn run_table(pts: Seq<ModelPoint>, scen: AssumptionScenario) -> Seq<MonthRow>
    decreases pts.len(),
{
    if pts.len() == 0 {
        Seq::empty()
    } else {
        run_table(pts.drop_last(), scen) + point_rows(pts.last(), scen)
    }
}

/// The cohort table as typed model points, record for record.
pub open spec fn converted_points(df: Seq<crate::model_points::ModelPoint>) -> Seq<ModelPoint> {
    Seq::new(df.len(), (|i: int| converted_row(df[i])))
}

/// Why a whole run fails, if it does: the first malformed record, else
/// the first point whose projection fails.
pub open spec fn single_run_fault(
    df: Seq<crate::model_points::ModelPoint>,
    scen: AssumptionScenario,
) -> Option<Error> {
    if rows_fault(df) is Some {
        rows_fault(df)
    } else {
        points_fault(converted_points(df), scen)
    }
}

/// The portfolio table a run produces.
pub open spec fn single_run_table(
    df: Seq<crate::model_points::ModelPoint>,
    scen: AssumptionScenario,
) -> Seq<MonthRow> {
    run_table(converted_points(df), scen)
}

/// Skipping fault-free points does not change the first fault.
pub proof fn lemma_points_fault_skip(pts: Seq<ModelPoint>, scen: AssumptionScenario, k: int)
    requires
        0 <= k <= pts.len(),
        forall|j: int| 0 <= j < k ==> point_fault(#[trigger] pts[j], scen) is None,
    ensures
        points_fault(pts, scen) == points_fault(pts.skip(k), scen),
    decreases k,
{
    if k > 0 {
        lemma_points_fault_skip(pts, scen, k - 1);
        assert(pts.skip(k - 1)[0] == pts[k - 1]);
        assert(pts.skip(k - 1).drop_first() =~= pts.skip(k));
    } else {
        assert(pts.skip(0) =~= pts);
    }
}

/// The length one point contributes to the portfolio table.
pub open spec fn point_len(pt: ModelPoint) -> int {
    match pt {
        ModelPoint::SModel(mp) => 12 * mp.term + 1,
        _ => 0,
    }
}

/// The row count of a run table: the sum over its points of
/// `term * 12 + 1` months each.
pub open spec fn expected_len(pts: Seq<ModelPoint>) -> int
    decreases pts.len(),
{
    if pts.len() == 0 {
        0
    } else {
        expected_len(pts.drop_last()) + point_len(pts.last())
    }
}

/// Law: the portfolio table of a run holds, for each model point in it,
/// exactly `term * 12 + 1` rows — its whole monthly timeline.
pub proof fn lemma_run_table_len(pts: Seq<ModelPoint>, scen: AssumptionScenario)
    requires
        forall|j: int|
            0 <= j < pts.len() ==> (#[trigger] pts[j] matches ModelPoint::SModel(mp) ==> mp.term
                >= 0),
    ensures
        run_table(pts, scen).len() == expected_len(pts),
    decreases pts.len(),
{
    if pts.len() > 0 {
        lemma_run_table_len(pts.drop_last(), scen);
        match pts.last() {
            ModelPoint::SModel(mp) => {
                assert(point_rows(pts.last(), scen).len() == s_timeline_len(mp));
            },
            _ => {},
        }
    }
}

impl SingleRunSetup {
    /// The number of model points in the cohort table.
    pub fn model_points_count(&self) -> (r: usize)
        ensures
            r == self.model_points_df@.len(),
    {
        self.model_points_df.len()
    }

    /// Projects the whole run with the standard chunk size.
    pub fn projection_run(&self) -> (r: Result<SingleRunResult, Error>)
        ensures
            r is Ok <==> single_run_fault(self.model_points_df@, self.assumption_scenario) is None,
            r matches Err(e) ==> Some(e) == single_run_fault(
                self.model_points_df@,
                self.assumption_scenario,
            ),
            r matches Ok(res) ==> {
                &&& res.projected_df@ == single_run_table(
                    self.model_points_df@,
                    self.assumption_scenario,
                )
                &&& setup_equiv(res.setup, *self)
            },
    {
        _project_single_run(self)
    }

    /// Projects the whole run with a caller-chosen chunk size.  The
    /// contract does not mention the chunk size: the result is the same
    /// for every choice.
    pub fn projection_run_with_chunk_size(&self, chunk_size: usize) -> (r: Result<
        SingleRunResult,
        Error,
    >)
        requires
            chunk_size >= 1,
        ensures
            r is Ok <==> single_run_fault(self.model_points_df@, self.assumption_scenario) is None,
            r matches Err(e) ==> Some(e) == single_run_fault(
                self.model_points_df@,
                self.assumption_scenario,
            ),
            r matches Ok(res) ==> {
                &&& res.projected_df@ == single_run_table(
                    self.model_points_df@,
                    self.assumption_scenario,
                )
                &&& setup_equiv(res.setup, *self)
            },
    {
        let pts = match convert_model_points_df_to_vector(&self.model_points_df) {
            Ok(v) => v,
            Err(e) => {
                return Err(e);
            },
        };
        proof {
            assert(pts@ =~= converted_points(self.model_points_df@));
        }
        let n = pts.len();
        let mut all: Vec<MonthRow> = Vec::new();
        let mut chunk: Vec<MonthRow> = Vec::new();
        let mut in_chunk: usize = 0;
        let mut k: usize = 0;
        while k < n
            invariant
                k <= n,
                n == pts@.len(),
                in_chunk < chunk_size,
                chunk_size >= 1,
                pts@ == converted_points(self.model_points_df@),
                rows_fault(self.model_points_df@) is None,
                all@ + chunk@ == run_table(pts@.take(k as int), self.assumption_scenario),
                forall|j: int|
                    0 <= j < k ==> point_fault(#[trigger] pts@[j], self.assumption_scenario)
                        is None,
            decreases n - k,
        {
            proof {
                crate::model_points::lemma_rows_fault_none(self.model_points_df@, k as int);
                assert(pts@[k as int] == converted_row(self.model_points_df@[k as int]));
            }
            match pts[k].project(&self.assumption_scenario) {
                Ok(mut rows) => {
                    proof {
                        assert(rows@ == point_rows(pts@[k as int], self.assumption_scenario));
                    }
                    chunk.append(&mut rows);
                },
                Err(e) => {
                    proof {
                        lemma_points_fault_skip(pts@, self.assumption_scenario, k as int);
                        assert(pts@.skip(k as int)[0] == pts@[k as int]);
                    }
                    return Err(e);
                },
            }
            proof {
                assert(pts@.take(k as int + 1).drop_last() =~= pts@.take(k as int));
                assert(pts@.take(k as int + 1).last() == pts@[k as int]);
            }
            in_chunk += 1;
            if in_chunk == chunk_size {
                all.append(&mut chunk);
                in_chunk = 0;
            }
            k += 1;
        }
        all.append(&mut chunk);
        proof {
            assert(pts@.take(n as int) =~= pts@);
            lemma_points_fault_skip(pts@, self.assumption_scenario, n as int);
            assert(pts@.skip(n as int).len() == 0);
        }
        let setup_copy = SingleRunSetup {
            description: self.description.clone(),
            model_points_df: dup_model_points(&self.model_points_df),
            assumption_scenario: self.assumption_scenario.duplicate(),
        };
        Ok(SingleRunResult { setup: setup_copy, projected_df: all })
    }
}

/// Law: the projected table of a run does not depend on the chunk size.
/// Any two chunked projections of the same setup produce the same table,
/// because each equals the in-order concatenation of the points'
/// timelines.
pub proof fn lemma_chunk_size_independent(
    setup: SingleRunSetup,
    rows1: Seq<MonthRow>,
    rows2: Seq<MonthRow>,
)
    requires
        rows1 == single_run_table(setup.model_points_df@, setup.assumption_scenario),
        rows2 == single_run_table(setup.model_points_df@, setup.assumption_scenario),
    ensures
        rows1 == rows2,
{
}

/// Projects one run: converts the cohort table to typed model points,
/// partitions them into chunks of [`CHUNK_SIZE`], projects each chunk's
/// points in order and concatenates everything, chunk-major.
pub fn _project_single_run(setup: &SingleRunSetup) -> (r: Result<SingleRunResult, Error>)
    ensures
        r is Ok <==> single_run_fault(setup.model_points_df@, setup.assumption_scenario) is None,
        r matches Err(e) ==> Some(e) == single_run_fault(
            setup.model_points_df@,
            setup.assumption_scenario,
        ),
        r matches Ok(res) ==> {
            &&& res.projected_df@ == single_run_table(
                setup.model_points_df@,
                setup.assumption_scenario,
            )
            &&& setup_equiv(res.setup, *setup)
        },
{
    setup.projection_run_with_chunk_size(CHUNK_SIZE)
}

/// The description and scenario name one run's `info.json` supplies,
/// when it is present, is text, parses, and carries both keys.
#[verifier::opaque]
pub open spec fn run_info_at(files: Seq<BundleFile>, p: Seq<char>) -> Option<
    (Seq<char>, Seq<char>),
> {
    match find_file(files, p) {
        Some(FileContent::Text(t)) => match p_info_run(t@) {
            Some((Some(d), Some(nm))) => Some((d, nm)),
            _ => None,
        },
        _ => None,
    }
}

/// The model-point records one run's table file supplies, when it is
/// present, binary, and decodes.
#[verifier::opaque]
pub open spec fn run_mps_at(files: Seq<BundleFile>, p: Seq<char>) -> Option<Seq<MpV>> {
    match find_file(files, p) {
        Some(FileContent::Bytes(b)) => dec_mp_table(b@),
        _ => None,
    }
}

/// The projected rows one run's table file supplies, when it is present,
/// binary, and decodes.
#[verifier::opaque]
pub open spec fn run_proj_at(files: Seq<BundleFile>, p: Seq<char>) -> Option<Seq<MonthRow>> {
    match find_file(files, p) {
        Some(FileContent::Bytes(b)) => dec_proj_table(b@),
        _ => None,
    }
}

/// Whether one run can be read back from a bundle: its three files are
/// present and decode, and its scenario name resolves among the
/// scenarios supplied to the import.
pub open spec fn run_wf_at(
    files: Seq<BundleFile>,
    scens: Seq<AssumptionScenario>,
    p1: Seq<char>,
    p2: Seq<char>,
    p3: Seq<char>,
) -> bool {
    &&& (run_info_at(files, p1) matches Some((d, nm)) && scen_lookup(scens, nm) is Some)
    &&& run_mps_at(files, p2) is Some
    &&& run_proj_at(files, p3) is Some
}

/// What a correctly imported run holds: the description, cohort table
/// and projected table its files supply, and the first supplied scenario
/// carrying the recorded name.
pub open spec fn imported_run_ok(
    res: SingleRunResult,
    files: Seq<BundleFile>,
    scens: Seq<AssumptionScenario>,
    p1: Seq<char>,
    p2: Seq<char>,
    p3: Seq<char>,
) -> bool {
    &&& (run_info_at(files, p1) matches Some((d, nm)) && res.setup.description@ == d && (
    scen_lookup(scens, nm) matches Some(sc) && scenario_equiv(res.setup.assumption_scenario, sc)))
    &&& run_mps_at(files, p2) == Some(mp_views(res.setup.model_points_df@))
    &&& run_proj_at(files, p3) == Some(res.projected_df@)
}

/// Reads one run back from a bundle, given the paths of its three files.
pub fn import_run_files(
    files: &Vec<BundleFile>,
    scenarios: &Vec<AssumptionScenario>,
    p1: &String,
    p2: &String,
    p3: &String,
) -> (r: Result<SingleRunResult, Error>)
    ensures
        r is Ok <==> run_wf_at(files@, scenarios@, p1@, p2@, p3@),
        r matches Ok(res) ==> imported_run_ok(res, files@, scenarios@, p1@, p2@, p3@),
        r matches Err(e) ==> e is Persistence,
{
    proof {
        reveal(run_info_at);
        reveal(run_mps_at);
        reveal(run_proj_at);
    }
    let info = match find_in(files, p1) {
        Some(c) => c,
        None => {
            return Err(Error::Persistence(PersistenceFault::MissingFile));
        },
    };
    let text = match info {
        FileContent::Text(t) => t,
        FileContent::Bytes(_) => {
            return Err(Error::Persistence(PersistenceFault::MalformedJson));
        },
    };
    let (desc, name) = match parse_info_run(text.as_str()) {
        Some((Some(d), Some(nm))) => (d, nm),
        Some(_) => {
            return Err(Error::Persistence(PersistenceFault::MissingJsonKey));
        },
        None => {
            return Err(Error::Persistence(PersistenceFault::MalformedJson));
        },
    };
    let scenario = match scen_lookup_in(scenarios, &name) {
        Some(s) => s.duplicate(),
        None => {
            return Err(Error::Persistence(PersistenceFault::UnknownScenario));
        },
    };
    let mps_bytes = match find_in(files, p2) {
        Some(FileContent::Bytes(b)) => b,
        Some(FileContent::Text(_)) => {
            return Err(Error::Persistence(PersistenceFault::MalformedTable));
        },
        None => {
            return Err(Error::Persistence(PersistenceFault::MissingFile));
        },
    };
    let mps = match decode_mp_table(mps_bytes) {
        Some(v) => v,
        None => {
            return Err(Error::Persistence(PersistenceFault::MalformedTable));
        },
    };
    let proj_bytes = match find_in(files, p3) {
        Some(FileContent::Bytes(b)) => b,
        Some(FileContent::Text(_)) => {
            return Err(Error::Persistence(PersistenceFault::MalformedTable));
        },
        None => {
            return Err(Error::Persistence(PersistenceFault::MissingFile));
        },
    };
    let proj = match decode_proj_table(proj_bytes) {
        Some(v) => v,
        None => {
            return Err(Error::Persistence(PersistenceFault::MalformedTable));
        },
    };
    Ok(
        SingleRunResult {
            setup: SingleRunSetup {
                description: desc,
                model_points_df: mps,
                assumption_scenario: scenario,
            },
            projected_df: proj,
        },
    )
}

impl SingleRunResult {
    /// Serializes this run as its three bundle files: `info.json` with
    /// the description and scenario name, and the two table files.
    pub fn export(&self) -> (r: Vec<BundleFile>)
        requires
            248 * self.projected_df@.len() + 8 <= usize::MAX,
        ensures
            r@.len() == 3,
            r@[0].path@ == "info.json"@,
            (r@[0].content matches FileContent::Text(t) && t@ == info_json_run(
                self.setup.description@,
                self.setup.assumption_scenario.name@,
            )),
            r@[1].path@ == "model_points.bin"@,
            (r@[1].content matches FileContent::Bytes(b) && b@ == enc_mp_table(
                self.setup.model_points_df@,
            )),
            r@[2].path@ == "projected_df.bin"@,
            (r@[2].content matches FileContent::Bytes(b) && b@ == enc_proj_table(
                self.projected_df@,
            )),
    {
        let mut files: Vec<BundleFile> = Vec::new();
        files.push(
            BundleFile {
                path: String::from_str("info.json"),
                content: FileContent::Text(
                    emit_info_run(
                        self.setup.description.as_str(),
                        self.setup.assumption_scenario.name.as_str(),
                    ),
                ),
            },
        );
        files.push(
            BundleFile {
                path: String::from_str("model_points.bin"),
                content: FileContent::Bytes(encode_mp_table(&self.setup.model_points_df)),
            },
        );
        files.push(
            BundleFile {
                path: String::from_str("projected_df.bin"),
                content: FileContent::Bytes(encode_proj_table(&self.projected_df)),
            },
        );
        files
    }

    /// Reads one run back from a bundle of its three files, re-resolving
    /// the named scenario among those supplied.
    pub fn import(files: &Vec<BundleFile>, scenarios: &Vec<AssumptionScenario>) -> (r: Result<
        Self,
        Error,
    >)
        ensures
            r is Ok <==> run_wf_at(
                files@,
                scenarios@,
                "info.json"@,
                "model_points.bin"@,
                "projected_df.bin"@,
            ),
            r matches Ok(res) ==> imported_run_ok(
                res,
                files@,
                scenarios@,
                "info.json"@,
                "model_points.bin"@,
                "projected_df.bin"@,
            ),
            r matches Err(e) ==> e is Persistence,
    {
        let p1 = String::from_str("info.json");
        let p2 = String::from_str("model_points.bin");
        let p3 = String::from_str("projected_df.bin");
        import_run_files(files, scenarios, &p1, &p2, &p3)
    }
}

/// Converts a cohort table to typed model points, as the run engine does
/// before projecting.
pub fn __convert_model_points_df_to_vector(df: &Vec<crate::model_points::ModelPoint>) -> (r: Result<
    Vec<ModelPoint>,
    Error,
>)
    ensures
        r is Ok <==> rows_fault(df@) is None,
        r matches Err(e) ==> Some(e) == rows_fault(df@),
        r matches Ok(v) ==> {
            &&& v@.len() == df@.len()
            &&& forall|i: int| 0 <= i < df@.len() ==> v@[i] == converted_row(df@[i])
        },
{
    convert_model_points_df_to_vector(df)
}

} // verus!
