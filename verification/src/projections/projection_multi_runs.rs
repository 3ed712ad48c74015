//! The multi-run orchestrator: several independent single-run setups
//! performed as one batch, collected in setup order, and aggregated into
//! one table whose rows carry their run's identity.

use crate::assumptions::scenario_equiv;
use crate::bundle::{
    find_file, find_in, lemma_find_file_skip, lemma_root_path_distinct, lemma_run_paths_distinct,
    run_path, run_path_v, scen_lookup, BundleFile, FileContent,
};
use crate::codec::{enc_mp_table, enc_proj_table, encode_mp_table, encode_proj_table, mp_strs_fit, mp_views};
use crate::errors::{Error, PersistenceFault};
use crate::model_points::rows_fault;
use crate::projections::projection_single_run::{
    converted_points, expected_len, import_run_files, imported_run_ok, lemma_run_table_len,
    point_len, run_info_at, run_mps_at, run_proj_at, run_wf_at, setup_equiv, single_run_fault,
    single_run_table, SingleRunResult, SingleRunSetup,
};
use crate::projections::structs::MonthRow;
use crate::text::{
    dec_digits, emit_info_root, emit_info_run, info_json_root, info_json_run, p_info_root,
    parse_info_root,
};
use vstd::prelude::*;

verus! {

/// A batch of runs to perform, in order.
#[derive(Clone, Debug)]
pub struct RunsSetup {
    pub description: String,
    pub setups: Vec<SingleRunSetup>,
}

/// A performed batch: one result per setup, in setup order.
#[derive(Clone, Debug)]
pub struct RunsResult {
    pub description: String,
    pub results: Vec<SingleRunResult>,
}

/// One row of the aggregated batch table: a projected timeline row
/// stamped with the run it came from.
#[derive(Clone, Debug)]
pub struct AggRow {
    pub run_id: i32,
    pub run_setup_description: String,
    pub run_setup_assumptions_name: String,
    pub row: MonthRow,
}

/// The first fault among the runs of a batch, in setup order, if any.
pub open spec fn runs_fault(setups: Seq<SingleRunSetup>) -> Option<Error>
    decreases setups.len(),
{
    if setups.len() == 0 {
        None
    } else if single_run_fault(setups[0].model_points_df@, setups[0].assumption_scenario)
        is Some {
        single_run_fault(setups[0].model_points_df@, setups[0].assumption_scenario)
    } else {
        runs_fault(setups.drop_first())
    }
}

/// What a correct result of one setup looks like.
pub open spec fn result_matches(res: SingleRunResult, setup: SingleRunSetup) -> bool {
    &&& setup_equiv(res.setup, setup)
    &&& res.projected_df@ == single_run_table(setup.model_points_df@, setup.assumption_scenario)
}

/// Skipping fault-free runs does not change the first fault.
pub proof fn lemma_runs_fault_skip(setups: Seq<SingleRunSetup>, k: int)
    requires
        0 <= k <= setups.len(),
        forall|j: int|
            0 <= j < k ==> single_run_fault(
                (#[trigger] setups[j]).model_points_df@,
                setups[j].assumption_scenario,
            ) is None,
    ensures
        runs_fault(setups) == runs_fault(setups.skip(k)),
    decreases k,
{
    if k > 0 {
        lemma_runs_fault_skip(setups, k - 1);
        assert(setups.skip(k - 1)[0] == setups[k - 1]);
        assert(setups.skip(k - 1).drop_first() =~= setups.skip(k));
    } else {
        assert(setups.skip(0) =~= setups);
    }
}

impl RunsSetup {
    /// The number of runs in the batch.
    pub fn get_run_setup_count(&self) -> (r: usize)
        ensures
            r == self.setups@.len(),
    {
        self.setups.len()
    }

    /// The setup of one run, by its position.
    pub fn get_run_setup(&self, run_id: usize) -> (r: Option<&SingleRunSetup>)
        ensures
            r matches Some(s) ==> run_id < self.setups@.len() && *s == self.setups@[run_id as int],
            r is None <==> run_id >= self.setups@.len(),
    {
        if run_id < self.setups.len() {
            Some(&self.setups[run_id])
        } else {
            None
        }
    }

    /// Performs every run of the batch.  Results are collected in setup
    /// order; the first failing run aborts the whole batch.
    pub fn projection_runs(&self) -> (r: Result<RunsResult, Error>)
        ensures
            r is Ok <==> runs_fault(self.setups@) is None,
            r matches Err(e) ==> Some(e) == runs_fault(self.setups@),
            r matches Ok(rr) ==> {
                &&& rr.description == self.description
                &&& rr.results@.len() == self.setups@.len()
                &&& forall|i: int|
                    0 <= i < self.setups@.len() ==> result_matches(
                        #[trigger] rr.results@[i],
                        self.setups@[i],
                    )
            },
    {
        match _project_runs(&self.setups, Some(self.description.as_str())) {
            Ok(mut rr) => {
                rr.description = self.description.clone();
                Ok(rr)
            },
            Err(e) => Err(e),
        }
    }
}

/// Performs a sequence of runs in order, fail-fast, with an optional
/// batch description for the collected result.
pub fn _project_runs(setups: &Vec<SingleRunSetup>, description: Option<&str>) -> (r: Result<
    RunsResult,
    Error,
>)
    ensures
        r is Ok <==> runs_fault(setups@) is None,
        r matches Err(e) ==> Some(e) == runs_fault(setups@),
        r matches Ok(rr) ==> {
            &&& (match description {
                Some(d) => rr.description@ == d@,
                None => rr.description@ == Seq::<char>::empty(),
            })
            &&& rr.results@.len() == setups@.len()
            &&& forall|i: int|
                0 <= i < setups@.len() ==> result_matches(#[trigger] rr.results@[i], setups@[i])
        },
{
    let n = setups.len();
    let mut results: Vec<SingleRunResult> = Vec::new();
    let mut i: usize = 0;
    while i < n
        invariant
            i <= n,
            n == setups@.len(),
            results@.len() == i,
            forall|j: int|
                0 <= j < i ==> result_matches(#[trigger] results@[j], setups@[j]),
            forall|j: int|
                0 <= j < i ==> single_run_fault(
                    (#[trigger] setups@[j]).model_points_df@,
                    setups@[j].assumption_scenario,
                ) is None,
        decreases n - i,
    {
        match setups[i].projection_run() {
            Ok(res) => {
                results.push(res);
            },
            Err(e) => {
                proof {
                    lemma_runs_fault_skip(setups@, i as int);
                    assert(setups@.skip(i as int)[0] == setups@[i as int]);
                }
                return Err(e);
            },
        }
        i += 1;
    }
    proof {
        lemma_runs_fault_skip(setups@, n as int);
        assert(setups@.skip(n as int).len() == 0);
    }
    let desc = match description {
        Some(d) => String::from_str(d),
        None => String::new(),
    };
    Ok(RunsResult { description: desc, results })
}

/// The aggregated rows of one run: its projected table, each row stamped
/// with the run's position, description and scenario name.
pub open spec fn tag_rows(res: SingleRunResult, run_id: int) -> Seq<AggRow> {
    Seq::new(
        res.projected_df@.len(),
        (|j: int| AggRow {
            run_id: run_id as i32,
            run_setup_description: res.setup.description,
            run_setup_assumptions_name: res.setup.assumption_scenario.name,
            row: res.projected_df@[j],
        }),
    )
}

/// The aggregated batch table: every run's stamped rows, in run order.
pub open spec fn agg_table(results: Seq<SingleRunResult>) -> Seq<AggRow>
    decreases results.len(),
{
    if results.len() == 0 {
        Seq::empty()
    } else {
        agg_table(results.drop_last()) + tag_rows(results.last(), results.len() - 1)
    }
}

/// The total number of projected rows across a batch's results.
pub open spec fn total_rows(results: Seq<SingleRunResult>) -> int
    decreases results.len(),
{
    if results.len() == 0 {
        0
    } else {
        total_rows(results.drop_last()) + results.last().projected_df@.len()
    }
}

/// Law: the aggregated batch table has exactly as many rows as all the
/// runs' projected tables together.
pub proof fn lemma_aggregate_row_count(results: Seq<SingleRunResult>)
    ensures
        agg_table(results).len() == total_rows(results),
    decreases results.len(),
{
    if results.len() > 0 {
        lemma_aggregate_row_count(results.drop_last());
    }
}

/// A fault-free cohort table converts to model points with non-negative
/// terms.
pub proof fn lemma_converted_terms_nonneg(
    df: Seq<crate::model_points::ModelPoint>,
    j: int,
)
    requires
        rows_fault(df) is None,
        0 <= j < df.len(),
    ensures
        converted_points(df)[j] matches crate::projections::projection_mp::ModelPoint::SModel(mp)
            ==> mp.term >= 0,
{
    crate::model_points::lemma_rows_fault_none(df, j);
}

/// The expected row count of a whole batch: for every run, the sum over
/// its model points of `term * 12 + 1` monthly rows.
pub open spec fn batch_expected_rows(setups: Seq<SingleRunSetup>) -> int
    decreases setups.len(),
{
    if setups.len() == 0 {
        0
    } else {
        batch_expected_rows(setups.drop_last()) + expected_len(
            converted_points(setups.last().model_points_df@),
        )
    }
}

/// Law: for a batch whose runs all succeeded, the aggregated table's row
/// count is the sum, over runs and over each run's model points, of
/// `term * 12 + 1`.
pub proof fn lemma_batch_row_count(setups: Seq<SingleRunSetup>, results: Seq<SingleRunResult>)
    requires
        results.len() == setups.len(),
        forall|i: int| 0 <= i < setups.len() ==> rows_fault((#[trigger] setups[i]).model_points_df@)
            is None,
        forall|i: int|
            0 <= i < setups.len() ==> result_matches(#[trigger] results[i], setups[i]),
    ensures
        agg_table(results).len() == batch_expected_rows(setups),
    decreases setups.len(),
{
    lemma_aggregate_row_count(results);
    lemma_total_is_expected(setups, results);
}

proof fn lemma_total_is_expected(setups: Seq<SingleRunSetup>, results: Seq<SingleRunResult>)
    requires
        results.len() == setups.len(),
        forall|i: int| 0 <= i < setups.len() ==> rows_fault((#[trigger] setups[i]).model_points_df@)
            is None,
        forall|i: int|
            0 <= i < setups.len() ==> result_matches(#[trigger] results[i], setups[i]),
    ensures
        total_rows(results) == batch_expected_rows(setups),
    decreases setups.len(),
{
    if setups.len() > 0 {
        assert(results.drop_last().len() == setups.drop_last().len());
        assert forall|i: int| 0 <= i < setups.drop_last().len() implies rows_fault(
            (#[trigger] setups.drop_last()[i]).model_points_df@,
        ) is None by {
            assert(setups.drop_last()[i] == setups[i]);
        }
        assert forall|i: int| 0 <= i < setups.drop_last().len() implies result_matches(
            #[trigger] results.drop_last()[i],
            setups.drop_last()[i],
        ) by {
            assert(results.drop_last()[i] == results[i]);
            assert(setups.drop_last()[i] == setups[i]);
        }
        lemma_total_is_expected(setups.drop_last(), results.drop_last());
        let k = setups.len() - 1;
        let setup = setups[k];
        let res = results[k];
        assert(result_matches(res, setup));
        let pts = converted_points(setup.model_points_df@);
        assert forall|j: int| 0 <= j < pts.len() implies (#[trigger] pts[j] matches
            crate::projections::projection_mp::ModelPoint::SModel(mp) ==> mp.term >= 0) by {
            lemma_converted_terms_nonneg(setup.model_points_df@, j);
        }
        lemma_run_table_len(pts, setup.assumption_scenario);
    }
}

impl RunsResult {
    /// The number of run results in the batch.
    pub fn get_run_result_count(&self) -> (r: usize)
        ensures
            r == self.results@.len(),
    {
        self.results.len()
    }

    /// One run's result, by its position.
    pub fn get_run_result(&self, run_id: usize) -> (r: Option<&SingleRunResult>)
        ensures
            r matches Some(s) ==> run_id < self.results@.len() && *s == self.results@[run_id as int],
            r is None <==> run_id >= self.results@.len(),
    {
        if run_id < self.results.len() {
            Some(&self.results[run_id])
        } else {
            None
        }
    }

    /// Unions all the runs' projected tables into one, stamping every
    /// row with its run's 0-based position, the run's description and
    /// the scenario's name.
    pub fn aggregate_projection_df(&self) -> (r: Result<Vec<AggRow>, Error>)
        ensures
            r is Ok <==> self.results@.len() <= i32::MAX,
            r matches Err(e) ==> e == Error::Overflow,
            r matches Ok(t) ==> t@ == agg_table(self.results@),
    {
        let n = self.results.len();
        if !(n <= i32::MAX as usize) {
            return Err(Error::Overflow);
        }
        let mut out: Vec<AggRow> = Vec::new();
        let mut i: usize = 0;
        while i < n
            invariant
                i <= n,
                n <= i32::MAX,
                n == self.results@.len(),
                out@ == agg_table(self.results@.take(i as int)),
            decreases n - i,
        {
            let res = &self.results[i];
            let m = res.projected_df.len();
            let mut j: usize = 0;
            while j < m
                invariant
                    j <= m,
                    i < n,
                    n <= i32::MAX,
                    n == self.results@.len(),
                    m == self.results@[i as int].projected_df@.len(),
                    res == &self.results@[i as int],
                    out@ == agg_table(self.results@.take(i as int)) + tag_rows(
                        self.results@[i as int],
                        i as int,
                    ).take(j as int),
                decreases m - j,
            {
                out.push(
                    AggRow {
                        run_id: i as i32,
                        run_setup_description: res.setup.description.clone(),
                        run_setup_assumptions_name: res.setup.assumption_scenario.name.clone(),
                        row: res.projected_df[j],
                    },
                );
                proof {
                    let tr = tag_rows(self.results@[i as int], i as int);
                    assert(tr.take(j as int + 1) =~= tr.take(j as int).push(tr[j as int]));
                    assert(out@ =~= agg_table(self.results@.take(i as int)) + tr.take(j as int + 1));
                }
                j += 1;
            }
            proof {
                let tr = tag_rows(self.results@[i as int], i as int);
                assert(tr.take(m as int) =~= tr);
                assert(self.results@.take(i as int + 1).drop_last() =~= self.results@.take(
                    i as int,
                ));
                assert(self.results@.take(i as int + 1).last() == self.results@[i as int]);
            }
            i += 1;
        }
        proof {
            assert(self.results@.take(n as int) =~= self.results@);
        }
        Ok(out)
    }
}

/// What one run's three files look like inside an exported bundle.
pub open spec fn export_run_files_ok(files: Seq<BundleFile>, res: SingleRunResult, i: int) -> bool {
    &&& files[1 + 3 * i].path@ == run_path_v(i as nat, "info.json"@)
    &&& (files[1 + 3 * i].content matches FileContent::Text(t) && t@ == info_json_run(
        res.setup.description@,
        res.setup.assumption_scenario.name@,
    ))
    &&& files[2 + 3 * i].path@ == run_path_v(i as nat, "model_points.bin"@)
    &&& (files[2 + 3 * i].content matches FileContent::Bytes(b) && b@ == enc_mp_table(
        res.setup.model_points_df@,
    ))
    &&& files[3 + 3 * i].path@ == run_path_v(i as nat, "projected_df.bin"@)
    &&& (files[3 + 3 * i].content matches FileContent::Bytes(b) && b@ == enc_proj_table(
        res.projected_df@,
    ))
}

/// The exact bundle an export produces: the batch `info.json`, then
/// three files per run under `run_<i>/`.
pub open spec fn is_export_of(files: Seq<BundleFile>, rr: RunsResult) -> bool {
    &&& files.len() == 1 + 3 * rr.results@.len()
    &&& files[0].path@ == "info.json"@
    &&& (files[0].content matches FileContent::Text(t) && t@ == info_json_root(
        rr.description@,
        rr.results@.len() as nat,
    ))
    &&& forall|i: int|
        0 <= i < rr.results@.len() ==> export_run_files_ok(files, #[trigger] rr.results@[i], i)
}

/// The description and run count a bundle's root `info.json` supplies,
/// when it is present, is text, parses, carries both keys, and names a
/// run count this machine can hold.
pub open spec fn root_info_of(files: Seq<BundleFile>) -> Option<(Seq<char>, nat)> {
    match find_file(files, "info.json"@) {
        Some(FileContent::Text(t)) => match p_info_root(t@) {
            Some((Some(d), Some(c))) => if c <= usize::MAX {
                Some((d, c))
            } else {
                None
            },
            _ => None,
        },
        _ => None,
    }
}

/// Whether a whole bundle can be read back against the supplied
/// scenarios.
pub open spec fn import_wf(files: Seq<BundleFile>, scens: Seq<crate::assumptions::AssumptionScenario>) -> bool {
    match root_info_of(files) {
        Some((d, cnt)) => forall|i: nat|
            i < cnt ==> run_wf_at(
                files,
                scens,
                #[trigger] run_path_v(i, "info.json"@),
                run_path_v(i, "model_points.bin"@),
                run_path_v(i, "projected_df.bin"@),
            ),
        None => false,
    }
}

/// Inside an exported bundle, every file before run `i`'s files lives
/// under a different path than run `i`'s file named `name`.
proof fn lemma_export_prefix_distinct(
    files: Seq<BundleFile>,
    rr: RunsResult,
    i: nat,
    name: Seq<char>,
    upto: int,
)
    requires
        is_export_of(files, rr),
        i < rr.results@.len(),
        rr.results@.len() <= usize::MAX,
        name == "info.json"@ || name == "model_points.bin"@ || name == "projected_df.bin"@,
        (name == "info.json"@ ==> upto == 1 + 3 * i),
        (name == "model_points.bin"@ ==> upto == 2 + 3 * i),
        (name == "projected_df.bin"@ ==> upto == 3 + 3 * i),
    ensures
        forall|j: int| 0 <= j < upto ==> (#[trigger] files[j]).path@ != run_path_v(i, name),
{
    reveal_strlit("info.json");
    reveal_strlit("model_points.bin");
    reveal_strlit("projected_df.bin");
    assert("info.json"@.len() == 9);
    assert("model_points.bin"@.len() == 16);
    assert("projected_df.bin"@.len() == 16);
    assert("model_points.bin"@[0] == 'm');
    assert("projected_df.bin"@[0] == 'p');
    assert forall|j: int| 0 <= j < upto implies (#[trigger] files[j]).path@ != run_path_v(
        i,
        name,
    ) by {
        if j == 0 {
            lemma_root_path_distinct(i, name);
        } else {
            let k = (j - 1) / 3;
            let m = (j - 1) % 3;
            vstd::arithmetic::div_mod::lemma_fundamental_div_mod(j - 1, 3);
            vstd::arithmetic::div_mod::lemma_div_pos_is_pos(j - 1, 3);
            vstd::arithmetic::div_mod::lemma_remainder_lower(j - 1, 3);
            vstd::arithmetic::div_mod::lemma_remainder_upper(j - 1, 3);
            assert(0 <= m < 3);
            assert(j == 1 + 3 * k + m);
            assert(0 <= k < rr.results@.len());
            assert(export_run_files_ok(files, rr.results@[k], k));
            let kname: Seq<char> = if m == 0 {
                "info.json"@
            } else if m == 1 {
                "model_points.bin"@
            } else {
                "projected_df.bin"@
            };
            assert(files[j].path@ == run_path_v(k as nat, kname));
            if k as nat == i {
                assert(kname != name);
                lemma_run_paths_distinct(k as nat, i, kname, name);
            } else {
                lemma_run_paths_distinct(k as nat, i, kname, name);
            }
        }
    }
}

/// Law: importing an exported bundle reproduces the batch.  The root
/// file gives back the description and the run count, and every run's
/// files give back its description, its scenario's name, its cohort
/// table and its projected table, so an import against scenarios that
/// carry the recorded names rebuilds an equivalent batch result.
/// Inside an exported bundle, run `i`'s file named `name` is the first
/// file under its path.
#[verifier::rlimit(100)]
#[verifier::spinoff_prover]
proof fn lemma_export_find(files: Seq<BundleFile>, rr: RunsResult, i: nat, name: Seq<char>, idx: int)
    requires
        is_export_of(files, rr),
        rr.results@.len() <= usize::MAX,
        i < rr.results@.len(),
        name == "info.json"@ || name == "model_points.bin"@ || name == "projected_df.bin"@,
        (name == "info.json"@ ==> idx == 1 + 3 * i),
        (name == "model_points.bin"@ ==> idx == 2 + 3 * i),
        (name == "projected_df.bin"@ ==> idx == 3 + 3 * i),
    ensures
        find_file(files, run_path_v(i, name)) == Some(files[idx].content),
{
    let p = run_path_v(i, name);
    lemma_export_prefix_distinct(files, rr, i, name, idx);
    lemma_find_file_skip(files, p, idx);
    assert(export_run_files_ok(files, rr.results@[i as int], i as int));
    assert(files.skip(idx)[0] == files[idx]);
    assert(files[idx].path@ == p);
}

/// A found text file holding an emitted run info parses back to its
/// description and scenario name.
#[verifier::spinoff_prover]
proof fn lemma_run_info_at_from(
    files: Seq<BundleFile>,
    p: Seq<char>,
    t: String,
    d: Seq<char>,
    a: Seq<char>,
)
    requires
        find_file(files, p) == Some(FileContent::Text(t)),
        t@ == info_json_run(d, a),
    ensures
        run_info_at(files, p) == Some((d, a)),
{
    reveal(run_info_at);
    crate::text::lemma_info_run_round_trip(d, a);
}

/// A found binary file holding an encoded model-point table decodes
/// back to the table's contents.
#[verifier::spinoff_prover]
proof fn lemma_run_mps_at_from(
    files: Seq<BundleFile>,
    p: Seq<char>,
    b: Vec<u8>,
    rows: Seq<crate::model_points::ModelPoint>,
)
    requires
        find_file(files, p) == Some(FileContent::Bytes(b)),
        b@ == enc_mp_table(rows),
        mp_strs_fit(rows),
        rows.len() <= u64::MAX,
    ensures
        run_mps_at(files, p) == Some(mp_views(rows)),
{
    reveal(run_mps_at);
    crate::codec::lemma_mp_table_round_trip(rows);
}

/// A found binary file holding an encoded projected table decodes back
/// to the table's rows.
#[verifier::spinoff_prover]
proof fn lemma_run_proj_at_from(files: Seq<BundleFile>, p: Seq<char>, b: Vec<u8>, rows: Seq<MonthRow>)
    requires
        find_file(files, p) == Some(FileContent::Bytes(b)),
        b@ == enc_proj_table(rows),
        rows.len() <= u64::MAX,
    ensures
        run_proj_at(files, p) == Some(rows),
{
    reveal(run_proj_at);
    crate::codec::lemma_proj_table_round_trip(rows);
}

/// One exported run's info file is found under its path and parses back.
#[verifier::rlimit(100)]
#[verifier::spinoff_prover]
proof fn lemma_export_run_info(files: Seq<BundleFile>, rr: RunsResult, i: nat)
    requires
        is_export_of(files, rr),
        rr.results@.len() <= usize::MAX,
        i < rr.results@.len(),
    ensures
        run_info_at(files, run_path_v(i, "info.json"@)) == Some(
            (
                rr.results@[i as int].setup.description@,
                rr.results@[i as int].setup.assumption_scenario.name@,
            ),
        ),
{
    reveal_strlit("info.json");
    reveal_strlit("model_points.bin");
    reveal_strlit("projected_df.bin");
    assert("info.json"@.len() == 9);
    assert("model_points.bin"@.len() == 16);
    assert("projected_df.bin"@.len() == 16);
    assert("model_points.bin"@[0] == 'm');
    assert("projected_df.bin"@[0] == 'p');
    let res = rr.results@[i as int];
    assert(export_run_files_ok(files, res, i as int));
    lemma_export_find(files, rr, i, "info.json"@, 1 + 3 * i as int);
    match files[1 + 3 * i as int].content {
        FileContent::Text(t) => {
            lemma_run_info_at_from(
                files,
                run_path_v(i, "info.json"@),
                t,
                res.setup.description@,
                res.setup.assumption_scenario.name@,
            );
        },
        FileContent::Bytes(_) => {
            assert(false);
        },
    }
}

/// One exported run's model-point table is found and decodes back.
#[verifier::rlimit(100)]
#[verifier::spinoff_prover]
proof fn lemma_export_run_mps(files: Seq<BundleFile>, rr: RunsResult, i: nat)
    requires
        is_export_of(files, rr),
        rr.results@.len() <= usize::MAX,
        i < rr.results@.len(),
        mp_strs_fit(rr.results@[i as int].setup.model_points_df@),
        rr.results@[i as int].setup.model_points_df@.len() <= u64::MAX,
    ensures
        run_mps_at(files, run_path_v(i, "model_points.bin"@)) == Some(
            mp_views(rr.results@[i as int].setup.model_points_df@),
        ),
{
    reveal_strlit("info.json");
    reveal_strlit("model_points.bin");
    reveal_strlit("projected_df.bin");
    assert("info.json"@.len() == 9);
    assert("model_points.bin"@.len() == 16);
    assert("projected_df.bin"@.len() == 16);
    assert("model_points.bin"@[0] == 'm');
    assert("projected_df.bin"@[0] == 'p');
    let res = rr.results@[i as int];
    assert(export_run_files_ok(files, res, i as int));
    lemma_export_find(files, rr, i, "model_points.bin"@, 2 + 3 * i as int);
    match files[2 + 3 * i as int].content {
        FileContent::Bytes(b) => {
            lemma_run_mps_at_from(
                files,
                run_path_v(i, "model_points.bin"@),
                b,
                res.setup.model_points_df@,
            );
        },
        FileContent::Text(_) => {
            assert(false);
        },
    }
}

/// One exported run's projected table is found and decodes back.
#[verifier::rlimit(100)]
#[verifier::spinoff_prover]
proof fn lemma_export_run_proj(files: Seq<BundleFile>, rr: RunsResult, i: nat)
    requires
        is_export_of(files, rr),
        rr.results@.len() <= usize::MAX,
        i < rr.results@.len(),
        rr.results@[i as int].projected_df@.len() <= u64::MAX,
    ensures
        run_proj_at(files, run_path_v(i, "projected_df.bin"@)) == Some(
            rr.results@[i as int].projected_df@,
        ),
{
    reveal_strlit("info.json");
    reveal_strlit("model_points.bin");
    reveal_strlit("projected_df.bin");
    assert("info.json"@.len() == 9);
    assert("model_points.bin"@.len() == 16);
    assert("projected_df.bin"@.len() == 16);
    assert("model_points.bin"@[0] == 'm');
    assert("projected_df.bin"@[0] == 'p');
    let res = rr.results@[i as int];
    assert(export_run_files_ok(files, res, i as int));
    lemma_export_find(files, rr, i, "projected_df.bin"@, 3 + 3 * i as int);
    match files[3 + 3 * i as int].content {
        FileContent::Bytes(b) => {
            lemma_run_proj_at_from(files, run_path_v(i, "projected_df.bin"@), b, res.projected_df@);
        },
        FileContent::Text(_) => {
            assert(false);
        },
    }
}

/// Law: importing an exported bundle reproduces the batch.  The root
/// file gives back the description and the run count, and every run's
/// files give back its description, its scenario's name, its cohort
/// table and its projected table, so an import against scenarios that
/// carry the recorded names rebuilds an equivalent batch result.
pub proof fn lemma_export_import_round_trip(
    files: Seq<BundleFile>,
    rr: RunsResult,
    scens: Seq<crate::assumptions::AssumptionScenario>,
)
    requires
        is_export_of(files, rr),
        rr.results@.len() <= usize::MAX,
        forall|i: int|
            0 <= i < rr.results@.len() ==> mp_strs_fit(
                (#[trigger] rr.results@[i]).setup.model_points_df@,
            ),
        forall|i: int|
            0 <= i < rr.results@.len() ==> (#[trigger] rr.results@[i]).setup.model_points_df@.len()
                <= u64::MAX,
        forall|i: int|
            0 <= i < rr.results@.len() ==> (#[trigger] rr.results@[i]).projected_df@.len()
                <= u64::MAX,
        forall|i: int|
            0 <= i < rr.results@.len() ==> scen_lookup(
                scens,
                (#[trigger] rr.results@[i]).setup.assumption_scenario.name@,
            ) is Some,
    ensures
        import_wf(files, scens),
        root_info_of(files) == Some((rr.description@, rr.results@.len() as nat)),
        forall|i: nat|
            i < rr.results@.len() ==> {
                &&& run_info_at(files, #[trigger] run_path_v(i, "info.json"@)) == Some(
                    (
                        rr.results@[i as int].setup.description@,
                        rr.results@[i as int].setup.assumption_scenario.name@,
                    ),
                )
                &&& run_mps_at(files, run_path_v(i, "model_points.bin"@)) == Some(
                    mp_views(rr.results@[i as int].setup.model_points_df@),
                )
                &&& run_proj_at(files, run_path_v(i, "projected_df.bin"@)) == Some(
                    rr.results@[i as int].projected_df@,
                )
            },
{
    let n = rr.results@.len() as int;
    assert(find_file(files, "info.json"@) == Some(files[0].content));
    crate::text::lemma_info_root_round_trip(rr.description@, n as nat);
    assert(root_info_of(files) == Some((rr.description@, n as nat)));
    assert forall|i: nat| i < rr.results@.len() implies {
        &&& run_info_at(files, #[trigger] run_path_v(i, "info.json"@)) == Some(
            (
                rr.results@[i as int].setup.description@,
                rr.results@[i as int].setup.assumption_scenario.name@,
            ),
        )
        &&& run_mps_at(files, run_path_v(i, "model_points.bin"@)) == Some(
            mp_views(rr.results@[i as int].setup.model_points_df@),
        )
        &&& run_proj_at(files, run_path_v(i, "projected_df.bin"@)) == Some(
            rr.results@[i as int].projected_df@,
        )
        &&& run_wf_at(
            files,
            scens,
            run_path_v(i, "info.json"@),
            run_path_v(i, "model_points.bin"@),
            run_path_v(i, "projected_df.bin"@),
        )
    } by {
        lemma_export_run_info(files, rr, i);
        lemma_export_run_mps(files, rr, i);
        lemma_export_run_proj(files, rr, i);
    }
}

impl RunsResult {
    /// Serializes the whole batch as a bundle: the batch `info.json`
    /// carrying the description and the run count, and each run's three
    /// files under `run_<i>/`.
    pub fn export(&self) -> (r: Vec<BundleFile>)
        requires
            forall|i: int|
                0 <= i < self.results@.len() ==> 248 * (#[trigger] self.results@[i]).projected_df@.len()
                    + 8 <= usize::MAX,
        ensures
            is_export_of(r@, *self),
    {
        let mut files: Vec<BundleFile> = Vec::new();
        files.push(
            BundleFile {
                path: String::from_str("info.json"),
                content: FileContent::Text(
                    emit_info_root(self.description.as_str(), self.results.len() as u64),
                ),
            },
        );
        let n = self.results.len();
        let mut i: usize = 0;
        while i < n
            invariant
                i <= n,
                n == self.results@.len(),
                files@.len() == 1 + 3 * i,
                files@[0].path@ == "info.json"@,
                (files@[0].content matches FileContent::Text(t) && t@ == info_json_root(
                    self.description@,
                    self.results@.len() as nat,
                )),
                forall|j: int|
                    0 <= j < i ==> export_run_files_ok(files@, #[trigger] self.results@[j], j),
                forall|j: int|
                    0 <= j < n ==> 248 * (#[trigger] self.results@[j]).projected_df@.len() + 8
                        <= usize::MAX,
            decreases n - i,
        {
            let res = &self.results[i];
            files.push(
                BundleFile {
                    path: run_path(i as u64, "info.json"),
                    content: FileContent::Text(
                        emit_info_run(
                            res.setup.description.as_str(),
                            res.setup.assumption_scenario.name.as_str(),
                        ),
                    ),
                },
            );
            files.push(
                BundleFile {
                    path: run_path(i as u64, "model_points.bin"),
                    content: FileContent::Bytes(encode_mp_table(&res.setup.model_points_df)),
                },
            );
            files.push(
                BundleFile {
                    path: run_path(i as u64, "projected_df.bin"),
                    content: FileContent::Bytes(encode_proj_table(&res.projected_df)),
                },
            );
            i += 1;
        }
        files
    }

    /// Reads a whole batch back from a bundle: the root `info.json`
    /// names the run count, and each run is read from its three files,
    /// with its scenario re-resolved by name among those supplied.
    pub fn import(
        files: &Vec<BundleFile>,
        scenarios: &Vec<crate::assumptions::AssumptionScenario>,
    ) -> (r: Result<Self, Error>)
        ensures
            r is Ok <==> import_wf(files@, scenarios@),
            r matches Ok(rr) ==> (root_info_of(files@) matches Some((d, cnt)) && {
                &&& rr.description@ == d
                &&& rr.results@.len() == cnt
                &&& forall|i: nat|
                    i < cnt ==> imported_run_ok(
                        #[trigger] rr.results@[i as int],
                        files@,
                        scenarios@,
                        run_path_v(i, "info.json"@),
                        run_path_v(i, "model_points.bin"@),
                        run_path_v(i, "projected_df.bin"@),
                    )
            }),
            r matches Err(e) ==> e is Persistence,
    {
        let root_path = String::from_str("info.json");
        let info = match find_in(files, &root_path) {
            Some(c) => c,
            None => {
                return Err(Error::Persistence(PersistenceFault::MissingFile));
            },
        };
        let text = match info {
            FileContent::Text(t) => t,
            FileContent::Bytes(_) => {
                return Err(Error::Persistence(PersistenceFault::MalformedJson));
            },
        };
        let (desc, count) = match parse_info_root(text.as_str()) {
            Some((Some(d), Some(c))) => (d, c),
            Some(_) => {
                return Err(Error::Persistence(PersistenceFault::MissingJsonKey));
            },
            None => {
                return Err(Error::Persistence(PersistenceFault::MalformedJson));
            },
        };
        if !(count <= usize::MAX as u64) {
            return Err(Error::Persistence(PersistenceFault::MalformedJson));
        }
        let n = count as usize;
        let mut results: Vec<SingleRunResult> = Vec::new();
        let mut i: usize = 0;
        while i < n
            invariant
                i <= n,
                root_info_of(files@) == Some((desc@, n as nat)),
                results@.len() == i,
                forall|j: nat|
                    j < i ==> imported_run_ok(
                        #[trigger] results@[j as int],
                        files@,
                        scenarios@,
                        run_path_v(j, "info.json"@),
                        run_path_v(j, "model_points.bin"@),
                        run_path_v(j, "projected_df.bin"@),
                    ),
                forall|j: nat|
                    j < i ==> run_wf_at(
                        files@,
                        scenarios@,
                        #[trigger] run_path_v(j, "info.json"@),
                        run_path_v(j, "model_points.bin"@),
                        run_path_v(j, "projected_df.bin"@),
                    ),
            decreases n - i,
        {
            let p1 = run_path(i as u64, "info.json");
            let p2 = run_path(i as u64, "model_points.bin");
            let p3 = run_path(i as u64, "projected_df.bin");
            proof {
                assert(p1@ == run_path_v(i as nat, "info.json"@));
                assert(p2@ == run_path_v(i as nat, "model_points.bin"@));
                assert(p3@ == run_path_v(i as nat, "projected_df.bin"@));
            }
            match import_run_files(files, scenarios, &p1, &p2, &p3) {
                Ok(res) => {
                    results.push(res);
                },
                Err(e) => {
                    proof {
                        if import_wf(files@, scenarios@) {
                            assert(run_wf_at(
                                files@,
                                scenarios@,
                                run_path_v(i as nat, "info.json"@),
                                run_path_v(i as nat, "model_points.bin"@),
                                run_path_v(i as nat, "projected_df.bin"@),
                            ));
                        }
                    }
                    return Err(e);
                },
            }
            i += 1;
        }
        Ok(RunsResult { description: desc, results })
    }
}

} // verus!
