//! Run-level configuration, progress records and per-item outcomes of a
//! batch, and the choice of which catalog items a strip run works on.
use crate::discovery::Mp3File;
use vstd::prelude::*;

verus! {

/// Settings of an extraction run.
#[derive(Clone, Debug, PartialEq, Eq)]
pub struct UnzipOptions {
    pub directory: String,
    pub output: String,
    pub workers: usize,
    pub skip_existing: bool,
}

/// Settings of a strip run as the desktop front end hands them over.
#[derive(Clone, Debug, PartialEq, Eq)]
pub struct StripOptions {
    pub directory: String,
    pub output: Option<String>,
    pub workers: usize,
    pub skip_clean: bool,
    pub keep_fields: Option<String>,
    pub remove_all: bool,
    pub dry_run: bool,
}

/// Settings of a strip run.
#[derive(Clone, Debug, PartialEq, Eq)]
pub struct MetadataArgs {
    pub directory: String,
    pub output: Option<String>,
    pub workers: usize,
    pub skip_clean: bool,
    pub keep_fields: Option<String>,
    pub remove_all: bool,
    pub dry_run: bool,
}

/// Progress of an extraction run, as reported to an observer.
#[derive(Clone, Debug, PartialEq, Eq)]
pub struct UnzipProgress {
    pub current_file: String,
    pub progress: u64,
    pub total: u64,
    pub message: String,
}

/// Progress of a strip run, as reported to an observer.
#[derive(Clone, Debug, PartialEq, Eq)]
pub struct StripProgress {
    pub current_file: String,
    pub progress: u64,
    pub total: u64,
    pub message: String,
}

/// How one item of a batch ended.
#[derive(Clone, Debug, PartialEq, Eq)]
pub enum ItemStatus {
    /// The transform ran to the end.
    Done,
    /// Nothing had to be done (the output was already there).
    Skipped,
    /// The transform failed on this item; the cause is given.
    Failed(String),
}

/// The outcome of one catalog item.
#[derive(Clone, Debug, PartialEq, Eq)]
pub struct Outcome {
    pub path: String,
    pub status: ItemStatus,
}

/// The strip run's settings taken over from the front end's options.
pub fn metadata_args(options: StripOptions) -> (r: MetadataArgs)
    ensures
        r.directory == options.directory,
        r.output == options.output,
        r.workers == options.workers,
        r.skip_clean == options.skip_clean,
        r.keep_fields == options.keep_fields,
        r.remove_all == options.remove_all,
        r.dry_run == options.dry_run,
{
    MetadataArgs {
        directory: options.directory,
        output: options.output,
        workers: options.workers,
        skip_clean: options.skip_clean,
        keep_fields: options.keep_fields,
        remove_all: options.remove_all,
        dry_run: options.dry_run,
    }
}

/// The output folder a run creates before any item is processed: none in a
/// dry run, which touches nothing; otherwise the configured one, if any.
pub fn output_root_to_create(output: &Option<String>, dry_run: bool) -> (r: Option<String>)
    ensures
        dry_run ==> r is None,
        !dry_run ==> r == *output,
{
    if dry_run {
        None
    } else {
        match output {
            Some(d) => Some(d.clone()),
            None => None,
        }
    }
}

/// The files a strip run works on: with `skip_clean`, only those found with
/// a tag; otherwise all of them. Catalog order is kept.
pub open spec fn strip_targets(files: Seq<Mp3File>, skip_clean: bool) -> Seq<Mp3File> {
    if skip_clean {
        files.filter(|f: Mp3File| f.has_metadata)
    } else {
        files
    }
}

/// The files a strip run works on. When it is empty the run has nothing to
/// do and returns no outcomes, without starting any worker.
pub fn select_strip_targets(files: &Vec<Mp3File>, skip_clean: bool) -> (r: Vec<Mp3File>)
    ensures
        r@ == strip_targets(files@, skip_clean),
{
    let mut out: Vec<Mp3File> = Vec::new();
    let mut i: usize = 0;
    while i < files.len()
        invariant
            i <= files@.len(),
            out@ == strip_targets(files@.subrange(0, i as int), skip_clean),
        decreases files@.len() - i,
    {
        proof {
            reveal(Seq::filter);
            assert(files@.subrange(0, i as int + 1).drop_last() =~= files@.subrange(0, i as int));
        }
        let f = &files[i];
        if !skip_clean || f.has_metadata {
            out.push(Mp3File { path: f.path.clone(), size: f.size, has_metadata: f.has_metadata });
        }
        proof {
            if !skip_clean {
                assert(out@ =~= files@.subrange(0, i as int + 1));
            }
        }
        i = i + 1;
    }
    assert(files@.subrange(0, files@.len() as int) =~= files@);
    out
}

/// The status an item ends with, given what its transform returned: an
/// error becomes a failure of that item alone.
pub open spec fn status_of(result: Result<ItemStatus, String>) -> ItemStatus {
    match result {
        Ok(s) => s,
        Err(e) => ItemStatus::Failed(e),
    }
}

/// Whether an outcome records a failure.
pub open spec fn is_failed(o: Outcome) -> bool {
    o.status is Failed
}

/// Whether a transform's result is a failure.
pub open spec fn result_fails(result: Result<ItemStatus, String>) -> bool {
    status_of(result) is Failed
}

/// How many outcomes record a failure.
pub open spec fn failed_count(s: Seq<Outcome>) -> nat
    decreases s.len(),
{
    if s.len() == 0 {
        0
    } else {
        failed_count(s.drop_last()) + if is_failed(s.last()) {
            1nat
        } else {
            0nat
        }
    }
}

/// How many transform results are failures.
pub open spec fn failing_results(s: Seq<Result<ItemStatus, String>>) -> nat
    decreases s.len(),
{
    if s.len() == 0 {
        0
    } else {
        failing_results(s.drop_last()) + if result_fails(s.last()) {
            1nat
        } else {
            0nat
        }
    }
}

/// `r` holds one outcome per item, in order: item `k`'s path with the status
/// of its own result.
pub open spec fn records_items(
    r: Seq<Outcome>,
    paths: Seq<String>,
    results: Seq<Result<ItemStatus, String>>,
) -> bool {
    &&& r.len() == paths.len()
    &&& forall|k: int|
        0 <= k < r.len() ==> (#[trigger] r[k]).path == paths[k] && r[k].status == status_of(
            results[k],
        )
}

fn copy_status(s: &ItemStatus) -> (r: ItemStatus)
    ensures
        r == *s,
{
    match s {
        ItemStatus::Done => ItemStatus::Done,
        ItemStatus::Skipped => ItemStatus::Skipped,
        ItemStatus::Failed(e) => ItemStatus::Failed(e.clone()),
    }
}

/// The outcomes of a chunk's items (or of a whole catalog): each item's
/// result is recorded against it, a failure included, so that one item's
/// failure neither stops nor changes the others'.
pub fn record_outcomes(paths: &Vec<String>, results: &Vec<Result<ItemStatus, String>>) -> (r: Vec<
    Outcome,
>)
    requires
        paths@.len() == results@.len(),
    ensures
        records_items(r@, paths@, results@),
{
    let mut out: Vec<Outcome> = Vec::new();
    let mut i: usize = 0;
    while i < paths.len()
        invariant
            i <= paths@.len(),
            paths@.len() == results@.len(),
            records_items(out@, paths@.subrange(0, i as int), results@.subrange(0, i as int)),
        decreases paths@.len() - i,
    {
        let status = match &results[i] {
            Ok(s) => copy_status(s),
            Err(e) => ItemStatus::Failed(e.clone()),
        };
        out.push(Outcome { path: paths[i].clone(), status });
        i = i + 1;
    }
    assert(paths@.subrange(0, paths@.len() as int) =~= paths@);
    assert(results@.subrange(0, results@.len() as int) =~= results@);
    out
}

/// Failure-isolation law: a run records exactly as many failed outcomes as
/// items whose transform failed, every other item keeps its own status, and
/// the run itself does not fail; so one corrupt archive among N good ones
/// gives N successes and one failure.
pub proof fn failures_stay_with_their_items(
    r: Seq<Outcome>,
    paths: Seq<String>,
    results: Seq<Result<ItemStatus, String>>,
)
    requires
        paths.len() == results.len(),
        records_items(r, paths, results),
    ensures
        failed_count(r) == failing_results(results),
        forall|k: int| 0 <= k < r.len() ==> (is_failed(#[trigger] r[k]) <==> result_fails(results[k])),
    decreases r.len(),
{
    if r.len() > 0 {
        let n = r.len() - 1;
        assert(records_items(r.drop_last(), paths.drop_last(), results.drop_last())) by {
            assert forall|k: int| 0 <= k < r.drop_last().len() implies (#[trigger] r.drop_last()[k]).path
                == paths.drop_last()[k] && r.drop_last()[k].status == status_of(
                results.drop_last()[k],
            ) by {
                assert(r[k].path == paths[k]);
            }
        }
        failures_stay_with_their_items(r.drop_last(), paths.drop_last(), results.drop_last());
        assert(r[n].status == status_of(results[n]));
    }
}

/// Outcome law for dry runs (and any run where no transform fails): every
/// item gets an outcome, and none of them is a failure.
pub proof fn clean_run_has_no_failures(
    r: Seq<Outcome>,
    paths: Seq<String>,
    results: Seq<Result<ItemStatus, String>>,
)
    requires
        paths.len() == results.len(),
        records_items(r, paths, results),
        forall|k: int| 0 <= k < results.len() ==> !result_fails(#[trigger] results[k]),
    ensures
        r.len() == paths.len(),
        failed_count(r) == 0,
{
    failures_stay_with_their_items(r, paths, results);
    lemma_no_failing_results(results);
}

proof fn lemma_no_failing_results(results: Seq<Result<ItemStatus, String>>)
    requires
        forall|k: int| 0 <= k < results.len() ==> !result_fails(#[trigger] results[k]),
    ensures
        failing_results(results) == 0,
    decreases results.len(),
{
    if results.len() > 0 {
        let rest = results.drop_last();
        assert forall|k: int| 0 <= k < rest.len() implies !result_fails(#[trigger] rest[k]) by {
            assert(rest[k] == results[k]);
        }
        lemma_no_failing_results(rest);
        assert(!result_fails(results[results.len() - 1]));
    }
}

} // verus!
