//! The persisted result bundle: a directory layout held in memory as a
//! list of files, each a relative path with text or binary content.
//! Reading and writing the actual directory is left to the surrounding
//! program; the layout and every file's content are decided here.

use crate::assumptions::AssumptionScenario;
use crate::text::dec_digits;
use vstd::prelude::*;

verus! {

/// The content of one bundle file.
#[derive(Clone, Debug)]
pub enum FileContent {
    Text(String),
    Bytes(Vec<u8>),
}

/// One file of a bundle, under its path relative to the bundle root.
#[derive(Clone, Debug)]
pub struct BundleFile {
    pub path: String,
    pub content: FileContent,
}

/// The first file under a path, if any.
pub open spec fn find_file(files: Seq<BundleFile>, path: Seq<char>) -> Option<FileContent>
    decreases files.len(),
{
    if files.len() == 0 {
        None
    } else if files[0].path@ == path {
        Some(files[0].content)
    } else {
        find_file(files.drop_first(), path)
    }
}

/// Skipping files under other paths does not change what is found.
pub proof fn lemma_find_file_skip(files: Seq<BundleFile>, path: Seq<char>, k: int)
    requires
        0 <= k <= files.len(),
        forall|j: int| 0 <= j < k ==> (#[trigger] files[j]).path@ != path,
    ensures
        find_file(files, path) == find_file(files.skip(k), path),
    decreases k,
{
    if k > 0 {
        lemma_find_file_skip(files, path, k - 1);
        assert(files.skip(k - 1)[0] == files[k - 1]);
        assert(files.skip(k - 1).drop_first() =~= files.skip(k));
    } else {
        assert(files.skip(0) =~= files);
    }
}

/// Finds the first file under a path, executable form.
pub fn find_in<'a>(files: &'a Vec<BundleFile>, path: &String) -> (r: Option<&'a FileContent>)
    ensures
        (match r {
            Some(c) => find_file(files@, path@) == Some(*c),
            None => find_file(files@, path@) is None,
        }),
{
    let n = files.len();
    let mut i: usize = 0;
    proof {
        assert(files@.skip(0) =~= files@);
    }
    while i < n
        invariant
            i <= n,
            n == files@.len(),
            find_file(files@, path@) == find_file(files@.skip(i as int), path@),
        decreases n - i,
    {
        proof {
            assert(files@.skip(i as int)[0] == files@[i as int]);
            assert(files@.skip(i as int).drop_first() =~= files@.skip(i as int + 1));
        }
        if files[i].path.eq(path) {
            return Some(&files[i].content);
        }
        i += 1;
    }
    proof {
        assert(files@.skip(n as int).len() == 0);
    }
    None
}

/// The path of one run's file: `run_<i>/<name>`.
pub open spec fn run_path_v(i: nat, name: Seq<char>) -> Seq<char> {
    "run_"@ + dec_digits(i) + "/"@ + name
}

/// Builds the path of one run's file.
pub fn run_path(i: u64, name: &str) -> (r: String)
    ensures
        r@ == run_path_v(i as nat, name@),
{
    let mut v: Vec<char> = Vec::new();
    crate::text::push_str_chars(&mut v, "run_");
    crate::text::push_digits(&mut v, i);
    crate::text::push_str_chars(&mut v, "/");
    crate::text::push_str_chars(&mut v, name);
    proof {
        assert(v@ =~= run_path_v(i as nat, name@));
    }
    crate::text::chars_to_string(v)
}

/// Two unequal sequences of equal length differ at some index.
pub proof fn seq_diff_index<T>(a: Seq<T>, b: Seq<T>)
    requires
        a.len() == b.len(),
        a != b,
    ensures
        exists|t: int| 0 <= t < a.len() && a[t] != b[t],
{
    if forall|t: int| 0 <= t < a.len() ==> a[t] == b[t] {
        assert(a =~= b);
    }
}

/// Decimal renderings are injective: distinct counts render distinctly.
pub proof fn lemma_dec_digits_injective(i: nat, j: nat)
    requires
        i != j,
        i <= u64::MAX,
        j <= u64::MAX,
    ensures
        dec_digits(i) != dec_digits(j),
{
    crate::text::lemma_fold_dec(i);
    crate::text::lemma_fold_dec(j);
}

/// Distinct run ids or distinct file names give distinct run paths.
pub proof fn lemma_run_paths_distinct(i: nat, j: nat, n1: Seq<char>, n2: Seq<char>)
    requires
        i <= u64::MAX,
        j <= u64::MAX,
        i != j || n1 != n2,
    ensures
        run_path_v(i, n1) != run_path_v(j, n2),
{
    reveal_strlit("run_");
    reveal_strlit("/");
    let di = dec_digits(i);
    let dj = dec_digits(j);
    crate::text::lemma_dec_digits_are_digits(i);
    crate::text::lemma_dec_digits_are_digits(j);
    let p1 = run_path_v(i, n1);
    let p2 = run_path_v(j, n2);
    assert(p1.len() == 5 + di.len() + n1.len());
    assert(p2.len() == 5 + dj.len() + n2.len());
    assert forall|t: int| 0 <= t < di.len() implies p1[4 + t] == di[t] by {}
    assert forall|t: int| 0 <= t < dj.len() implies p2[4 + t] == dj[t] by {}
    assert(p1[4 + di.len() as int] == '/');
    assert(p2[4 + dj.len() as int] == '/');
    assert forall|t: int| 0 <= t < n1.len() implies p1[5 + di.len() as int + t] == n1[t] by {}
    assert forall|t: int| 0 <= t < n2.len() implies p2[5 + dj.len() as int + t] == n2[t] by {}
    if i != j {
        lemma_dec_digits_injective(i, j);
        if di.len() == dj.len() {
            seq_diff_index(di, dj);
            let t = choose|t: int| 0 <= t < di.len() && di[t] != dj[t];
            assert(p1[4 + t] != p2[4 + t]);
            assert(p1 != p2);
        } else if di.len() < dj.len() {
            crate::text::lemma_digit_not_delim(dj[di.len() as int]);
            assert(p1[4 + di.len() as int] == '/');
            assert(p2[4 + di.len() as int] == dj[di.len() as int]);
            assert(p1 != p2);
        } else {
            crate::text::lemma_digit_not_delim(di[dj.len() as int]);
            assert(p2[4 + dj.len() as int] == '/');
            assert(p1[4 + dj.len() as int] == di[dj.len() as int]);
            assert(p1 != p2);
        }
    } else {
        assert(di == dj);
        if n1.len() != n2.len() {
            assert(p1.len() != p2.len());
        } else {
            seq_diff_index(n1, n2);
            let t = choose|t: int| 0 <= t < n1.len() && n1[t] != n2[t];
            assert(p1[5 + di.len() as int + t] != p2[5 + dj.len() as int + t]);
            assert(p1 != p2);
        }
    }
}

/// The batch root file and any run file live under distinct paths.
pub proof fn lemma_root_path_distinct(i: nat, name: Seq<char>)
    ensures
        run_path_v(i, name) != "info.json"@,
{
    reveal_strlit("run_");
    reveal_strlit("info.json");
    assert(run_path_v(i, name)[0] == 'r');
    assert("info.json"@[0] == 'i');
    assert("info.json"@.len() == 9);
}

/// The first scenario carrying a name, if any: import resolves scenario
/// names against the scenarios it is handed, never against the bundle.
pub open spec fn scen_lookup(scens: Seq<AssumptionScenario>, name: Seq<char>) -> Option<
    AssumptionScenario,
>
    decreases scens.len(),
{
    if scens.len() == 0 {
        None
    } else if scens[0].name@ == name {
        Some(scens[0])
    } else {
        scen_lookup(scens.drop_first(), name)
    }
}

/// Finds the first scenario carrying a name, executable form.
pub fn scen_lookup_in<'a>(scens: &'a Vec<AssumptionScenario>, name: &String) -> (r: Option<
    &'a AssumptionScenario,
>)
    ensures
        (match r {
            Some(s) => scen_lookup(scens@, name@) == Some(*s),
            None => scen_lookup(scens@, name@) is None,
        }),
{
    let n = scens.len();
    let mut i: usize = 0;
    proof {
        assert(scens@.skip(0) =~= scens@);
    }
    while i < n
        invariant
            i <= n,
            n == scens@.len(),
            scen_lookup(scens@, name@) == scen_lookup(scens@.skip(i as int), name@),
        decreases n - i,
    {
        proof {
            assert(scens@.skip(i as int)[0] == scens@[i as int]);
            assert(scens@.skip(i as int).drop_first() =~= scens@.skip(i as int + 1));
        }
        if scens[i].name.eq(name) {
            return Some(&scens[i]);
        }
        i += 1;
    }
    proof {
        assert(scens@.skip(n as int).len() == 0);
    }
    None
}

} // verus!
