//! Downloading a release: how the work is laid out, which mirror is asked, and when a file is
//! moved into place.
//!
//! Each file streams to a part file next to its destination (resumed if a partial one exists), is
//! hashed on the fly, and is moved into place only once the hash matches the manifest. On any
//! per-file error the next mirror is asked; the part file survives, so the retry resumes.

use crate::hashing::{self, Hasher, UnsupportedAlgorithm};
use crate::manifest::{self, FileEntry};
use crate::number::{self, decimal};
use crate::text::{self, first_bytes, same, tail_of, without_end};
use crate::ui::{self, category_of, CategorySlot, Header, Progress, CATEGORY_ORDER};
use vstd::prelude::*;
use vstd::string::*;
use vstd::utf8::*;

verus! {

/// How a download went.
#[derive(Debug)]
pub struct DlOutcome {
    pub ok: u64,
    /// The paths that could not be fetched, each with the error.
    pub failed: Vec<(String, String)>,
    /// Per-content-type totals for the post-download summary: (name, downloaded, expected).
    pub categories: Vec<(&'static str, u64, u64)>,
}

/// The number of workers: as many as asked for, but at least one and no more than there are jobs.
pub fn worker_count(concurrency: usize, jobs: usize) -> (r: usize)
    ensures
        jobs == 0 ==> r == 1,
        jobs > 0 && concurrency == 0 ==> r == 1,
        jobs > 0 && 0 < concurrency <= jobs ==> r == concurrency,
        jobs > 0 && concurrency > jobs ==> r == jobs,
{
    let wanted: usize = if concurrency > 1 { concurrency } else { 1 };
    let useful: usize = if jobs > 1 { jobs } else { 1 };
    if wanted < useful {
        wanted
    } else {
        useful
    }
}

/// The first `n` buckets that have anything to fetch, with the bytes to fetch.
pub open spec fn filled_categories(files: Seq<FileEntry>, n: int) -> Seq<(Seq<char>, nat)>
    decreases n,
{
    if n <= 0 {
        Seq::empty()
    } else {
        let name = ui::category_names()[n - 1];
        let front = filled_categories(files, n - 1);
        if ui::category_bytes(files, name) > 0 {
            front.push((name, ui::category_bytes(files, name)))
        } else {
            front
        }
    }
}

/// What a bucket list says.
pub open spec fn category_views(list: Seq<(&'static str, u64)>) -> Seq<(Seq<char>, nat)> {
    list.map_values(|c: (&'static str, u64)| (c.0@, c.1 as nat))
}

/// Whether the bytes of each bucket can be counted in 64 bits.
pub open spec fn categories_fit(files: Seq<FileEntry>) -> bool {
    forall|k: int| 0 <= k < 8 ==> ui::category_bytes(files, #[trigger] ui::category_names()[k]) <= u64::MAX
}

/// The bytes of each bucket can be counted where those of all files can.
pub proof fn law_categories_fit_where_the_total_does(files: Seq<FileEntry>)
    requires
        manifest::total_size(files) <= u64::MAX,
    ensures
        categories_fit(files),
{
    assert forall|k: int| 0 <= k < 8 implies ui::category_bytes(files, #[trigger] ui::category_names()[k]) <= u64::MAX by {
        ui::lemma_category_bytes_bounded(files, ui::category_names()[k]);
    }
}

/// The beginning of a file list has no more in a bucket than the list.
proof fn lemma_category_bytes_grow(files: Seq<FileEntry>, name: Seq<char>, n: int)
    requires
        0 <= n <= files.len(),
    ensures
        ui::category_bytes(files.take(n), name) <= ui::category_bytes(files, name),
    decreases files.len(),
{
    if n < files.len() {
        lemma_category_bytes_grow(files.drop_last(), name, n);
        assert(files.drop_last().take(n) =~= files.take(n));
    } else {
        assert(files.take(n) =~= files);
    }
}

fn bytes_in_category(jobs: &Vec<FileEntry>, name: &str) -> (r: u64)
    requires
        ui::category_bytes(jobs@, name@) <= u64::MAX,
    ensures
        r == ui::category_bytes(jobs@, name@),
{
    let mut total: u64 = 0;
    let mut i: usize = 0;
    while i < jobs.len()
        invariant
            i <= jobs.len(),
            ui::category_bytes(jobs@, name@) <= u64::MAX,
            total == ui::category_bytes(jobs@.take(i as int), name@),
        decreases jobs.len() - i,
    {
        proof {
            let next = jobs@.take(i + 1);
            assert(next.drop_last() =~= jobs@.take(i as int));
            assert(next.last() == jobs@[i as int]);
            lemma_category_bytes_grow(jobs@, name@, i + 1);
        }
        if same(category_of(jobs[i].path.as_str()), name) {
            total += jobs[i].size;
        }
        i += 1;
    }
    assert(jobs@.take(i as int) =~= jobs@);
    total
}

/// The work by content type for the breakdown panel, in the fixed display order and without
/// anything that has nothing to fetch.
pub fn category_totals(jobs: &Vec<FileEntry>) -> (r: Vec<(&'static str, u64)>)
    requires
        categories_fit(jobs@),
    ensures
        category_views(r@) == filled_categories(jobs@, 8),
{
    let mut r: Vec<(&'static str, u64)> = Vec::new();
    let mut i: usize = 0;
    assert(category_views(r@) =~= Seq::empty());
    while i < 8
        invariant
            i <= 8,
            categories_fit(jobs@),
            category_views(r@) == filled_categories(jobs@, i as int),
        decreases 8 - i,
    {
        let name: &'static str = CATEGORY_ORDER[i];
        assert(name@ == ui::category_names()[i as int]);
        let total: u64 = bytes_in_category(jobs, name);
        if total > 0 {
            let ghost before = category_views(r@);
            r.push((name, total));
            assert(category_views(r@) =~= before.push((name@, total as nat)));
        }
        i += 1;
    }
    r
}

/// Each job's bucket, resolved once and never on the byte-counting hot path.
pub fn job_categories(progress: &Progress, jobs: &Vec<FileEntry>) -> (r: Vec<Option<usize>>)
    ensures
        r@.len() == jobs@.len(),
        forall|i: int|
            0 <= i < r@.len() ==> match #[trigger] r@[i] {
                Some(k) => ui::slot_index(progress.categories@, ui::category(jobs@[i].path@)) == Some(k as nat) && k
                    < progress.categories@.len(),
                None => ui::slot_index(progress.categories@, ui::category(jobs@[i].path@)) is None,
            },
{
    let mut r: Vec<Option<usize>> = Vec::new();
    let mut i: usize = 0;
    while i < jobs.len()
        invariant
            i <= jobs.len(),
            r@.len() == i,
            forall|j: int|
                0 <= j < i ==> match #[trigger] r@[j] {
                    Some(k) => ui::slot_index(progress.categories@, ui::category(jobs@[j].path@)) == Some(k as nat) && k
                        < progress.categories@.len(),
                    None => ui::slot_index(progress.categories@, ui::category(jobs@[j].path@)) is None,
                },
        decreases jobs.len() - i,
    {
        r.push(progress.category_index(jobs[i].path.as_str()));
        i += 1;
    }
    r
}

/// The state of a download before it starts: a slot for each worker and for each bucket that has
/// anything to fetch.
pub fn prepare(jobs: &Vec<FileEntry>, total_bytes: u64, concurrency: usize, header: Header) -> (r: Progress)
    requires
        categories_fit(jobs@),
    ensures
        r.total_bytes == total_bytes,
        r.done_bytes == 0,
        r.files_total == jobs@.len(),
        r.files_done == 0,
        r.workers@.len() == if jobs@.len() == 0 || concurrency == 0 {
            1
        } else if concurrency <= jobs@.len() {
            concurrency as int
        } else {
            jobs@.len() as int
        },
        forall|i: int| 0 <= i < r.workers@.len() ==> ui::is_new_worker(#[trigger] r.workers@[i]),
        slot_totals(r.categories@) == filled_categories(jobs@, 8),
        forall|i: int| 0 <= i < r.categories@.len() ==> (#[trigger] r.categories@[i]).done == 0,
        r.header == header,
{
    let n: usize = worker_count(concurrency, jobs.len());
    let categories = category_totals(jobs);
    let ghost list = categories@;
    let r = Progress::new(total_bytes, jobs.len(), n, categories, header);
    assert(slot_totals(r.categories@) =~= category_views(list));
    r
}

/// The names and totals of bucket slots.
pub open spec fn slot_totals(slots: Seq<CategorySlot>) -> Seq<(Seq<char>, nat)> {
    slots.map_values(|c: CategorySlot| (c.name@, c.total as nat))
}

/// The bytes of all buckets of a list.
pub open spec fn sum_of(list: Seq<(Seq<char>, nat)>) -> nat
    decreases list.len(),
{
    if list.len() == 0 {
        0
    } else {
        sum_of(list.drop_last()) + list.last().1
    }
}

proof fn lemma_filled_sum(files: Seq<FileEntry>, n: int)
    requires
        0 <= n <= 8,
    ensures
        sum_of(filled_categories(files, n)) == ui::bytes_of_categories(files, n),
    decreases n,
{
    if n > 0 {
        lemma_filled_sum(files, n - 1);
        let name = ui::category_names()[n - 1];
        let front = filled_categories(files, n - 1);
        let pushed = front.push((name, ui::category_bytes(files, name)));
        assert(pushed.drop_last() =~= front);
    }
}

/// The buckets that have anything to fetch account for every byte exactly once.
pub proof fn law_filled_categories_conserve_bytes(files: Seq<FileEntry>)
    ensures
        sum_of(filled_categories(files, 8)) == manifest::total_size(files),
{
    lemma_filled_sum(files, 8);
    ui::law_category_totals_conserve_bytes(files);
}

/// Every file with anything in it is counted in some bucket.
pub proof fn law_every_byte_has_a_category(files: Seq<FileEntry>, slots: Seq<CategorySlot>, i: int)
    requires
        slot_totals(slots) == filled_categories(files, 8),
        0 <= i < files.len(),
        files[i].size > 0,
    ensures
        ui::slot_index(slots, ui::category(files[i].path@)) is Some,
{
    let name = ui::category(files[i].path@);
    ui::law_every_category_is_displayed(files[i].path@);
    let k = choose|k: int| 0 <= k < 8 && #[trigger] ui::category_names()[k] == name;
    lemma_category_bytes_positive(files, name, i);
    lemma_filled_has(files, 8, k);
    let j = choose|j: int| 0 <= j < filled_categories(files, 8).len() && #[trigger] filled_categories(files, 8)[j].0 == name;
    assert(slot_totals(slots)[j].0 == slots[j].name@);
    lemma_slot_index_found(slots, name, j);
}

proof fn lemma_category_bytes_positive(files: Seq<FileEntry>, name: Seq<char>, i: int)
    requires
        0 <= i < files.len(),
        files[i].size > 0,
        ui::category(files[i].path@) == name,
    ensures
        ui::category_bytes(files, name) > 0,
    decreases files.len(),
{
    if i < files.len() - 1 {
        assert(files.drop_last()[i] == files[i]);
        lemma_category_bytes_positive(files.drop_last(), name, i);
    }
}

proof fn lemma_filled_has(files: Seq<FileEntry>, n: int, k: int)
    requires
        0 <= k < n <= 8,
        ui::category_bytes(files, ui::category_names()[k]) > 0,
    ensures
        exists|j: int|
            0 <= j < filled_categories(files, n).len() && #[trigger] filled_categories(files, n)[j].0
                == ui::category_names()[k],
    decreases n,
{
    let list = filled_categories(files, n);
    if k == n - 1 {
        assert(list.last().0 == ui::category_names()[k]);
        assert(list[list.len() - 1].0 == ui::category_names()[k]);
    } else {
        lemma_filled_has(files, n - 1, k);
        let front = filled_categories(files, n - 1);
        let j = choose|j: int| 0 <= j < front.len() && #[trigger] front[j].0 == ui::category_names()[k];
        assert(list[j] == front[j]);
    }
}

proof fn lemma_slot_index_found(slots: Seq<CategorySlot>, name: Seq<char>, j: int)
    requires
        0 <= j < slots.len(),
        slots[j].name@ == name,
    ensures
        ui::slot_index(slots, name) is Some,
    decreases slots.len(),
{
    if slots[0].name@ != name {
        assert(slots.drop_first()[j - 1] == slots[j]);
        lemma_slot_index_found(slots.drop_first(), name, j - 1);
    }
}

/// The jobs that were not handed out yet.
#[derive(Debug)]
pub struct JobQueue {
    pub next: usize,
    pub len: usize,
}

/// What a queue hands out, and its next job after that.
pub open spec fn handed(next: nat, len: nat) -> (Option<nat>, nat) {
    if next < len {
        (Some(next), next + 1)
    } else {
        (None, next)
    }
}

/// The next job of a queue of `len` jobs after it was asked `n` times.
pub open spec fn next_after(len: nat, n: nat) -> nat
    decreases n,
{
    if n == 0 {
        0
    } else {
        handed(next_after(len, (n - 1) as nat), len).1
    }
}

/// What a queue of `len` jobs has handed out when it was asked `n` times, by whichever workers.
pub open spec fn handed_out(len: nat, n: nat) -> Seq<Option<nat>>
    decreases n,
{
    if n == 0 {
        Seq::empty()
    } else {
        handed_out(len, (n - 1) as nat).push(handed(next_after(len, (n - 1) as nat), len).0)
    }
}

proof fn lemma_handed_out(len: nat, n: nat)
    ensures
        next_after(len, n) == if n < len {
            n
        } else {
            len
        },
        handed_out(len, n).len() == n,
        forall|i: int|
            0 <= i < n ==> #[trigger] handed_out(len, n)[i] == if i < len {
                Some(i as nat)
            } else {
                None
            },
    decreases n,
{
    if n > 0 {
        lemma_handed_out(len, (n - 1) as nat);
    }
}

/// Once a worker finds the queue empty, every job was handed out, each exactly once.
pub proof fn law_every_job_is_handed_out_once(len: nat, n: nat, job: nat)
    requires
        n > 0,
        handed_out(len, n).last() is None,
        job < len,
    ensures
        handed_out(len, n).contains(Some(job)),
        forall|i: int, j: int|
            0 <= i < n && 0 <= j < n && #[trigger] handed_out(len, n)[i] == Some(job) && #[trigger] handed_out(len, n)[j]
                == Some(job) ==> i == j,
{
    lemma_handed_out(len, n);
    assert(handed_out(len, n)[job as int] == Some(job));
}

impl JobQueue {
    /// All jobs are to be done.
    pub fn new(len: usize) -> (r: Self)
        ensures
            r.next == 0,
            r.len == len,
    {
        JobQueue { next: 0, len }
    }

    /// Hands out the next job. Each job is handed out once, in order.
    pub fn take(&mut self) -> (r: Option<usize>)
        ensures
            match r {
                Some(i) => handed(old(self).next as nat, old(self).len as nat).0 == Some(i as nat),
                None => handed(old(self).next as nat, old(self).len as nat).0 is None,
            },
            final(self).next == handed(old(self).next as nat, old(self).len as nat).1,
            final(self).len == old(self).len,
    {
        if self.next < self.len {
            let i: usize = self.next;
            self.next = i + 1;
            Some(i)
        } else {
            None
        }
    }
}

/// Bucket slots with a chunk of `n` bytes counted in one of them, or in none.
pub open spec fn with_chunk(slots: Seq<CategorySlot>, cat: Option<usize>, n: u64) -> Seq<CategorySlot> {
    match cat {
        Some(i) => slots.update(
            i as int,
            (CategorySlot { done: slots[i as int].done.wrapping_add(n), ..slots[i as int] }),
        ),
        None => slots,
    }
}

/// A chunk is counted in its own bucket, to the byte, and changes no other; names and totals stay.
pub proof fn law_chunk_is_counted_in_its_bucket(slots: Seq<CategorySlot>, cat: Option<usize>, n: u64, k: int)
    requires
        0 <= k < slots.len(),
        cat matches Some(i) ==> i < slots.len() && slots[i as int].done + n <= u64::MAX,
    ensures
        ({
            let after = with_chunk(slots, cat, n);
            &&& after.len() == slots.len()
            &&& after[k].name == slots[k].name && after[k].total == slots[k].total
            &&& (cat matches Some(i) && i == k) ==> after[k].done == slots[k].done + n
            &&& (cat matches Some(i) ==> i != k) ==> after[k] == slots[k]
        }),
{
}

/// Counts a chunk of `n` bytes that worker `w` received for a file of bucket `cat`.
pub fn count_chunk(progress: &mut Progress, w: usize, cat: Option<usize>, n: u64)
    requires
        w < old(progress).workers@.len(),
        cat matches Some(i) ==> i < old(progress).categories@.len(),
    ensures
        final(progress).done_bytes == old(progress).done_bytes.wrapping_add(n),
        final(progress).workers@ == old(progress).workers@.update(
            w as int,
            (ui::WorkerSlot {
                cur: old(progress).workers@[w as int].cur.wrapping_add(n),
                ..old(progress).workers@[w as int]
            }),
        ),
        cat is None ==> final(progress).categories == old(progress).categories,
        cat matches Some(i) ==> final(progress).categories@ == old(progress).categories@.update(
            i as int,
            (CategorySlot {
                done: old(progress).categories@[i as int].done.wrapping_add(n),
                ..old(progress).categories@[i as int]
            }),
        ),
        final(progress).categories@ == with_chunk(old(progress).categories@, cat, n),
        *final(progress) == (Progress {
            done_bytes: final(progress).done_bytes,
            workers: final(progress).workers,
            categories: final(progress).categories,
            ..*old(progress)
        }),
{
    progress.worker_add(w, n);
    progress.add_bytes(n);
    progress.add_category_bytes(cat, n);
}

/// The bytes that were counted in all buckets.
pub open spec fn counted(slots: Seq<CategorySlot>) -> nat
    decreases slots.len(),
{
    if slots.len() == 0 {
        0
    } else {
        counted(slots.drop_last()) + slots.last().done as nat
    }
}

/// Counting a chunk in a bucket adds it to the sum of the buckets, as it adds it to the total:
/// the breakdown and the total never drift apart.
pub proof fn law_breakdown_follows_total(slots: Seq<CategorySlot>, i: int, n: u64)
    requires
        0 <= i < slots.len(),
        slots[i].done + n <= u64::MAX,
    ensures
        counted(slots.update(i, (CategorySlot { done: slots[i].done.wrapping_add(n), ..slots[i] }))) == counted(slots) + n,
    decreases slots.len(),
{
    let next = CategorySlot { done: slots[i].done.wrapping_add(n), ..slots[i] };
    let after = slots.update(i, next);
    if i == slots.len() - 1 {
        assert(after.drop_last() =~= slots.drop_last());
    } else {
        law_breakdown_follows_total(slots.drop_last(), i, n);
        assert(after.drop_last() =~= slots.drop_last().update(i, next));
        assert(after.last() == slots.last());
    }
}

/// A row of the post-download summary for a bucket.
pub open spec fn summary_row(slot: CategorySlot) -> (&'static str, u64, u64) {
    (
        slot.name,
        if slot.done <= slot.total {
            slot.done
        } else {
            slot.total
        },
        slot.total,
    )
}

/// How a number of files went: how many were fetched, and which were not, each with its error.
pub struct Tally {
    pub ok: nat,
    pub failed: Seq<(Seq<char>, Seq<char>)>,
}

/// A tally with one more file, which went wrong with an error or did not.
pub open spec fn tallied(tally: Tally, path: Seq<char>, error: Option<Seq<char>>) -> Tally {
    match error {
        None => Tally { ok: tally.ok + 1, failed: tally.failed },
        Some(e) => Tally { ok: tally.ok, failed: tally.failed.push((path, e)) },
    }
}

/// The tally of a number of files, each with its path and its error, if any.
pub open spec fn tally_of(results: Seq<(Seq<char>, Option<Seq<char>>)>) -> Tally
    decreases results.len(),
{
    if results.len() == 0 {
        Tally { ok: 0, failed: Seq::empty() }
    } else {
        tallied(tally_of(results.drop_last()), results.last().0, results.last().1)
    }
}

/// How the jobs went that were handed out, in that order; `jobs[i]` is how job number i went.
pub open spec fn results_of(
    handed: Seq<Option<nat>>,
    jobs: Seq<(Seq<char>, Option<Seq<char>>)>,
) -> Seq<(Seq<char>, Option<Seq<char>>)>
    decreases handed.len(),
{
    if handed.len() == 0 {
        Seq::empty()
    } else {
        let front = results_of(handed.drop_last(), jobs);
        match handed.last() {
            Some(i) => front.push(jobs[i as int]),
            None => front,
        }
    }
}

proof fn lemma_results_of(jobs: Seq<(Seq<char>, Option<Seq<char>>)>, n: nat)
    ensures
        results_of(handed_out(jobs.len(), n), jobs) == jobs.take(
            if n < jobs.len() {
                n as int
            } else {
                jobs.len() as int
            },
        ),
    decreases n,
{
    if n == 0 {
        assert(jobs.take(0) =~= Seq::empty());
    } else {
        let before = (n - 1) as nat;
        lemma_results_of(jobs, before);
        lemma_handed_out(jobs.len(), before);
        assert(handed_out(jobs.len(), n).drop_last() =~= handed_out(jobs.len(), before));
        if before < jobs.len() {
            assert(jobs.take(before as int).push(jobs[before as int]) =~= jobs.take(n as int));
        }
    }
}

proof fn lemma_tally(results: Seq<(Seq<char>, Option<Seq<char>>)>)
    ensures
        tally_of(results).ok + tally_of(results).failed.len() == results.len(),
        forall|f: (Seq<char>, Seq<char>)| #[trigger]
            tally_of(results).failed.to_multiset().count(f) == results.to_multiset().count((f.0, Some(f.1))),
    decreases results.len(),
{
    broadcast use vstd::seq_lib::group_to_multiset_ensures;

    if results.len() > 0 {
        let front = results.drop_last();
        let last = results.last();
        lemma_tally(front);
        assert(results =~= front.push(last));
        vstd::seq_lib::to_multiset_build(front, last);
        if let Some(e) = last.1 {
            vstd::seq_lib::to_multiset_build(tally_of(front).failed, (last.0, e));
        }
    }
}

/// The outcome accounts for every job: once a worker found the queue empty and how each job went
/// was recorded, in whatever order the jobs finished, there are as many successes and failures
/// together as there are jobs, and the failures are those of the jobs that failed, each with its
/// error.
pub proof fn law_outcome_accounts_for_every_job(
    jobs: Seq<(Seq<char>, Option<Seq<char>>)>,
    n: nat,
    recorded: Seq<(Seq<char>, Option<Seq<char>>)>,
)
    requires
        n > 0,
        handed_out(jobs.len(), n).last() is None,
        recorded.to_multiset() == results_of(handed_out(jobs.len(), n), jobs).to_multiset(),
    ensures
        tally_of(recorded).ok + tally_of(recorded).failed.len() == jobs.len(),
        tally_of(recorded).ok == tally_of(jobs).ok,
        tally_of(recorded).failed.to_multiset() == tally_of(jobs).failed.to_multiset(),
{
    lemma_handed_out(jobs.len(), n);
    lemma_results_of(jobs, n);
    assert(jobs.take(jobs.len() as int) =~= jobs);
    lemma_tally(recorded);
    lemma_tally(jobs);
    vstd::seq_lib::to_multiset_len(recorded);
    vstd::seq_lib::to_multiset_len(jobs);
    let a = tally_of(recorded).failed;
    let b = tally_of(jobs).failed;
    assert(a.to_multiset() =~= b.to_multiset());
    vstd::seq_lib::to_multiset_len(a);
    vstd::seq_lib::to_multiset_len(b);
}

/// The bucket slots after some chunks were counted, each for a bucket or for none.
pub open spec fn slots_after(slots: Seq<CategorySlot>, chunks: Seq<(Option<usize>, u64)>) -> Seq<CategorySlot>
    decreases chunks.len(),
{
    if chunks.len() == 0 {
        slots
    } else {
        let before = slots_after(slots, chunks.drop_last());
        match chunks.last().0 {
            Some(i) => before.update(
                i as int,
                (CategorySlot { done: before[i as int].done.wrapping_add(chunks.last().1), ..before[i as int] }),
            ),
            None => before,
        }
    }
}

/// The names and totals of summary rows.
pub open spec fn row_totals(rows: Seq<(&'static str, u64, u64)>) -> Seq<(Seq<char>, nat)> {
    rows.map_values(|r: (&'static str, u64, u64)| (r.0@, r.2 as nat))
}

proof fn lemma_counting_keeps_totals(slots: Seq<CategorySlot>, chunks: Seq<(Option<usize>, u64)>)
    requires
        forall|k: int|
            0 <= k < chunks.len() ==> (#[trigger] chunks[k].0 matches Some(i) ==> i < slots.len()),
    ensures
        slots_after(slots, chunks).len() == slots.len(),
        slot_totals(slots_after(slots, chunks)) == slot_totals(slots),
    decreases chunks.len(),
{
    if chunks.len() > 0 {
        let front = chunks.drop_last();
        assert forall|k: int| 0 <= k < front.len() implies (#[trigger] front[k].0 matches Some(i) ==> i < slots.len()) by {
            assert(front[k] == chunks[k]);
        }
        lemma_counting_keeps_totals(slots, front);
        let before = slots_after(slots, front);
        assert(chunks[chunks.len() - 1] == chunks.last());
        assert forall|j: int| 0 <= j < slots.len() implies slot_totals(slots_after(slots, chunks))[j] == slot_totals(
            slots,
        )[j] by {
            assert(slot_totals(before)[j] == slot_totals(slots)[j]);
        }
        assert(slot_totals(slots_after(slots, chunks)) =~= slot_totals(slots));
    }
}

/// The summary accounts for every byte: from the slots that a download starts with, whatever is
/// counted on the way, the rows at its end are the buckets that had anything to fetch, in display
/// order, each with the bytes of its files and with no more fetched than that; and the bytes of
/// all rows are the bytes of all files.
pub proof fn law_summary_accounts_for_every_byte(
    files: Seq<FileEntry>,
    slots: Seq<CategorySlot>,
    chunks: Seq<(Option<usize>, u64)>,
)
    requires
        slot_totals(slots) == filled_categories(files, 8),
        forall|k: int|
            0 <= k < chunks.len() ==> (#[trigger] chunks[k].0 matches Some(i) ==> i < slots.len()),
    ensures
        ({
            let rows = slots_after(slots, chunks).map_values(|c: CategorySlot| summary_row(c));
            &&& row_totals(rows) == filled_categories(files, 8)
            &&& sum_of(row_totals(rows)) == manifest::total_size(files)
            &&& forall|i: int| 0 <= i < rows.len() ==> (#[trigger] rows[i]).1 <= rows[i].2
        }),
{
    lemma_counting_keeps_totals(slots, chunks);
    law_filled_categories_conserve_bytes(files);
    let after = slots_after(slots, chunks);
    let rows = after.map_values(|c: CategorySlot| summary_row(c));
    assert(row_totals(rows) =~= slot_totals(after));
}

impl DlOutcome {
    /// What the outcome says of the files.
    pub open spec fn tally(&self) -> Tally {
        Tally { ok: self.ok as nat, failed: self.failed@.map_values(|f: (String, String)| (f.0@, f.1@)) }
    }

    /// Nothing was tried yet.
    pub fn new() -> (r: Self)
        ensures
            r.ok == 0,
            r.failed@.len() == 0,
            r.categories@.len() == 0,
            r.tally() == tally_of(Seq::empty()),
    {
        let r = DlOutcome { ok: 0, failed: Vec::new(), categories: Vec::new() };
        assert(r.tally().failed =~= Seq::empty());
        r
    }

    /// Notes how the file with this path went.
    pub fn record(&mut self, path: &str, result: Result<(), String>)
        ensures
            result is Ok ==> final(self).ok == old(self).ok.wrapping_add(1) && final(self).failed == old(self).failed,
            result matches Err(e) ==> {
                &&& final(self).ok == old(self).ok
                &&& final(self).failed@.len() == old(self).failed@.len() + 1
                &&& final(self).failed@.drop_last() == old(self).failed@
                &&& final(self).failed@.last().0@ == path@
                &&& final(self).failed@.last().1 == e
            },
            old(self).ok < u64::MAX ==> final(self).tally() == tallied(old(self).tally(), path@, error_of(result)),
            final(self).categories == old(self).categories,
    {
        let ghost before = self.tally().failed;
        match result {
            Ok(_) => {
                self.ok = self.ok.wrapping_add(1);
            },
            Err(e) => {
                self.failed.push((path.to_owned(), e));
                assert(self.failed@.drop_last() =~= old(self).failed@);
                assert(self.tally().failed =~= before.push((path@, e@)));
            },
        }
    }

    /// Adds the totals of the buckets. A bucket shows no more than was expected, even where a
    /// file had to be fetched twice.
    pub fn finish(&mut self, progress: &Progress)
        ensures
            final(self).categories@ == progress.categories@.map_values(|c: CategorySlot| summary_row(c)),
            final(self).ok == old(self).ok,
            final(self).failed == old(self).failed,
    {
        let mut rows: Vec<(&'static str, u64, u64)> = Vec::new();
        let mut i: usize = 0;
        while i < progress.categories.len()
            invariant
                i <= progress.categories.len(),
                rows@ == progress.categories@.take(i as int).map_values(|c: CategorySlot| summary_row(c)),
            decreases progress.categories.len() - i,
        {
            let c = &progress.categories[i];
            let done: u64 = if c.done <= c.total { c.done } else { c.total };
            rows.push((c.name, done, c.total));
            i += 1;
            assert(rows@ =~= progress.categories@.take(i as int).map_values(|c: CategorySlot| summary_row(c)));
        }
        assert(progress.categories@.take(i as int) =~= progress.categories@);
        self.categories = rows;
    }
}

/// The name of a file without its directories.
pub fn short_name(path: &str) -> (r: String)
    ensures
        r@ == text::after_last(path@, '/'),
{
    tail_of(path, '/').to_owned()
}

/// How often a file is tried: once with each mirror, and once more with the first. A hash mismatch
/// clears the part file, so a single working mirror still gets a clean-slate retry.
pub open spec fn attempts_with(mirrors: nat) -> nat {
    if mirrors == 0 {
        0
    } else {
        mirrors + 1
    }
}

/// Where an object lies on a mirror.
pub open spec fn object_url(base: Seq<char>, object: Seq<char>) -> Seq<char> {
    text::trim_end(base, '/') + "/"@ + object
}

/// What to do next for a file.
#[derive(Debug)]
pub enum ObjectStep {
    /// Ask a mirror for it, under this address.
    Try { url: String },
    Succeeded,
    Failed { error: String },
}

/// What a step says.
pub enum ObjectStepView {
    Try { url: Seq<char> },
    Succeeded,
    Failed { error: Seq<char> },
}

impl View for ObjectStep {
    type V = ObjectStepView;

    open spec fn view(&self) -> ObjectStepView {
        match *self {
            ObjectStep::Try { url } => ObjectStepView::Try { url: url@ },
            ObjectStep::Succeeded => ObjectStepView::Succeeded,
            ObjectStep::Failed { error } => ObjectStepView::Failed { error: error@ },
        }
    }
}

/// The step before anything was tried.
pub open spec fn opening_step(mirrors: Seq<Seq<char>>, object: Seq<char>) -> ObjectStepView {
    if mirrors.len() == 0 {
        ObjectStepView::Failed { error: "no mirrors configured"@ }
    } else {
        ObjectStepView::Try { url: object_url(mirrors[0], object) }
    }
}

/// The step after attempt number `attempt`, counted from 0, which ended in an error or in none.
/// The mirrors take turns, and the last error is the one that is reported.
pub open spec fn following_step(
    mirrors: Seq<Seq<char>>,
    object: Seq<char>,
    attempt: nat,
    error: Option<Seq<char>>,
) -> ObjectStepView {
    match error {
        None => ObjectStepView::Succeeded,
        Some(e) => if attempt + 1 < attempts_with(mirrors.len()) {
            ObjectStepView::Try { url: object_url(mirrors[((attempt + 1) % mirrors.len()) as int], object) }
        } else {
            ObjectStepView::Failed {
                error: "mirror "@ + number::dec((attempt % mirrors.len()) + 1) + ": "@ + e,
            }
        },
    }
}

fn object_address(base: &str, object: &str) -> (r: String)
    ensures
        r@ == object_url(base@, object@),
{
    let mut r = without_end(base, '/').to_owned();
    r.append("/");
    r.append(object);
    r
}

/// What to do first for the object `object`.
pub fn first_step(mirrors: &Vec<String>, object: &str) -> (r: ObjectStep)
    ensures
        r@ == opening_step(text::views(mirrors@), object@),
{
    if mirrors.len() == 0 {
        ObjectStep::Failed { error: "no mirrors configured".to_owned() }
    } else {
        ObjectStep::Try { url: object_address(mirrors[0].as_str(), object) }
    }
}

/// The error in an outcome.
pub open spec fn error_of(outcome: Result<(), String>) -> Option<Seq<char>> {
    match outcome {
        Ok(_) => None,
        Err(e) => Some(e@),
    }
}

/// What to do after attempt number `attempt`, counted from 0.
pub fn next_step(mirrors: &Vec<String>, object: &str, attempt: usize, outcome: Result<(), String>) -> (r: ObjectStep)
    requires
        attempt < attempts_with(mirrors@.len()),
    ensures
        r@ == following_step(text::views(mirrors@), object@, attempt as nat, error_of(outcome)),
{
    let n: usize = mirrors.len();
    match outcome {
        Ok(_) => ObjectStep::Succeeded,
        Err(e) => if attempt < n {
            let next: usize = (attempt + 1) % n;
            ObjectStep::Try { url: object_address(mirrors[next].as_str(), object) }
        } else {
            let mut error = "mirror ".to_owned();
            error.append(decimal((attempt % n) as u64 + 1).as_str());
            error.append(": ");
            error.append(e.as_str());
            ObjectStep::Failed { error }
        },
    }
}

/// The step after a run of errors: `errors[i]` is how attempt number i failed.
pub open spec fn step_after_errors(
    mirrors: Seq<Seq<char>>,
    object: Seq<char>,
    errors: Seq<Seq<char>>,
) -> ObjectStepView {
    if errors.len() == 0 {
        opening_step(mirrors, object)
    } else {
        following_step(mirrors, object, (errors.len() - 1) as nat, Some(errors.last()))
    }
}

/// No file is given up before every mirror was asked for it, and the first one twice; then it is.
pub proof fn law_every_mirror_is_asked(mirrors: Seq<Seq<char>>, object: Seq<char>, errors: Seq<Seq<char>>)
    requires
        mirrors.len() > 0,
        errors.len() <= mirrors.len() + 1,
    ensures
        errors.len() < mirrors.len() ==> step_after_errors(mirrors, object, errors) == (ObjectStepView::Try {
            url: object_url(mirrors[errors.len() as int], object),
        }),
        errors.len() == mirrors.len() ==> step_after_errors(mirrors, object, errors) == (ObjectStepView::Try {
            url: object_url(mirrors[0], object),
        }),
        errors.len() == mirrors.len() + 1 ==> step_after_errors(mirrors, object, errors) == (ObjectStepView::Failed {
            error: "mirror "@ + number::dec(1) + ": "@ + errors.last(),
        }),
{
    let n = mirrors.len();
    if errors.len() > 0 && errors.len() < n {
        vstd::arithmetic::div_mod::lemma_small_mod(errors.len(), n);
    }
    if errors.len() >= n {
        vstd::arithmetic::div_mod::lemma_mod_self_0(n as int);
    }
}

/// A part file is resumed from its end, unless it is longer than the file should be.
pub open spec fn resume_offset(part_len: Option<u64>, size: u64) -> u64 {
    match part_len {
        Some(len) => if len > size {
            0
        } else {
            len
        },
        None => 0,
    }
}

/// How to open the part file.
#[derive(Debug, Clone, Copy, PartialEq, Eq, Structural)]
pub enum PartFile {
    /// Empty it and start over.
    Truncate,
    /// Add to what is there.
    Append,
}

/// Whether a response says that nothing is left to fetch: all `size` bytes are there already, so
/// the range that was asked for starts at the end of the file and the server cannot satisfy it
/// (416). That is how an attempt ends that was cut short between its last byte and the move into
/// place.
pub open spec fn is_complete(length: nat, size: u64, status: u16) -> bool {
    status == 416 && 0 < length == size
}

/// Whether a response lets an attempt go on.
pub open spec fn is_accepted(length: nat, size: u64, status: u16) -> bool {
    200 <= status < 300 || is_complete(length, size, status)
}

/// What a response with this status leaves of the bytes that are there already: a server that was
/// asked for a range and sends the whole file (200, not 206) makes us start over.
pub open spec fn kept(prefix: Seq<u8>, size: u64, status: u16) -> Seq<u8> {
    if status == 206 || is_complete(prefix.len(), size, status) {
        prefix
    } else {
        Seq::empty()
    }
}

/// As much of some data as there is room for.
pub open spec fn fitting(data: Seq<u8>, room: int) -> Seq<u8> {
    if data.len() <= room {
        data
    } else {
        data.take(room)
    }
}

/// An attempt at a file, up to the response: the hasher is fed what is there already.
pub struct Transfer {
    pub hasher: Hasher,
    pub algo: String,
    /// How long the file is to be.
    pub size: u64,
    /// How much of the part file is to be kept.
    pub offset: u64,
    /// How much of it the hasher was fed.
    pub length: u64,
}

/// An attempt at a file, from the response on: the hasher is fed what arrives.
pub struct Reception {
    pub hasher: Hasher,
    /// How many bytes the hasher was fed.
    pub length: u64,
    /// Whether all of the file is there already. What the response holds is then no part of it.
    pub complete: bool,
}

/// What comes of a hash that is not the wanted one.
pub open spec fn mismatch_text(got: Seq<char>, want: Seq<char>) -> Seq<char> {
    "hash mismatch (got "@ + got.take(8) + "… want "@ + text::byte_prefix(want, short_len(want)) + "…)"@
}

/// The number of bytes of a hash that are shown.
pub open spec fn short_len(hash: Seq<char>) -> int {
    if encode_utf8(hash).len() < 8 {
        encode_utf8(hash).len() as int
    } else {
        8
    }
}

/// Whether a hash can be cut to its first bytes. Every hash of ASCII characters can.
pub open spec fn has_short_form(hash: Seq<char>) -> bool {
    is_char_boundary(encode_utf8(hash), short_len(hash))
}

/// A hash of ASCII characters can be cut anywhere: what a mismatch shows of it is its beginning.
pub proof fn law_ascii_hash_has_short_form(hash: Seq<char>)
    requires
        is_ascii_chars(hash),
    ensures
        has_short_form(hash),
        text::byte_prefix(hash, short_len(hash)) == hash.take(short_len(hash)),
{
    text::lemma_ascii_prefix(hash, 0);
    text::lemma_ascii_prefix(hash, short_len(hash));
}

impl Transfer {
    /// Whether the parts of the transfer belong together.
    pub open spec fn is_valid(&self) -> bool {
        &&& self.hasher.is_regular()
        &&& hashing::algorithm_named(self.algo@) == Some(self.hasher.algorithm())
        &&& self.length == self.hasher.input().len()
        &&& self.length <= self.offset <= self.size
    }

    /// Starts an attempt at a file of `size` bytes, of which `part_len` may be there already.
    pub fn start(algo: &str, size: u64, part_len: Option<u64>) -> (r: Result<Transfer, UnsupportedAlgorithm>)
        ensures
            match r {
                Ok(t) => {
                    &&& t.is_valid()
                    &&& t.algo@ == algo@
                    &&& t.size == size
                    &&& t.offset == resume_offset(part_len, size)
                    &&& t.hasher.input() == Seq::<u8>::empty()
                },
                Err(e) => hashing::algorithm_named(algo@) is None && e.name@ == algo@,
            },
    {
        let offset: u64 = match part_len {
            Some(len) => if len > size {
                0
            } else {
                len
            },
            None => 0,
        };
        match Hasher::new(algo) {
            Ok(hasher) => Ok(Transfer { hasher, algo: algo.to_owned(), size, offset, length: 0 }),
            Err(e) => Err(e),
        }
    }

    /// How many bytes of the part file are still to be fed.
    pub fn missing(&self) -> (r: u64)
        requires
            self.is_valid(),
        ensures
            r == self.offset - self.length,
    {
        self.offset - self.length
    }

    /// Feeds the next bytes of the part file, as far as they are to be kept.
    pub fn feed_prefix(&mut self, data: &[u8])
        requires
            old(self).is_valid(),
        ensures
            final(self).is_valid(),
            final(self).algo == old(self).algo,
            final(self).size == old(self).size,
            final(self).offset == old(self).offset,
            final(self).hasher.input() == old(self).hasher.input() + if data@.len() <= old(self).offset - old(
                self,
            ).length {
                data@
            } else {
                data@.take(old(self).offset - old(self).length)
            },
            final(self).hasher.input() == old(self).hasher.input() + fitting(data@, old(self).offset - old(self).length),
            final(self).hasher.algorithm() == old(self).hasher.algorithm(),
    {
        let want: u64 = self.offset - self.length;
        if data.len() as u64 <= want {
            self.hasher.update(data);
            self.length = self.length + data.len() as u64;
        } else {
            let piece = vstd::slice::slice_subrange(data, 0, want as usize);
            assert(piece@ =~= data@.take(want as int));
            self.hasher.update(piece);
            self.length = self.length + want;
        }
    }

    /// The range to ask for: everything behind what is there already; none when nothing is.
    pub fn range(&self) -> (r: Option<String>)
        ensures
            self.length == 0 ==> r is None,
            self.length > 0 ==> (r matches Some(s) && s@ == "bytes="@ + number::dec(self.length as nat) + "-"@),
    {
        if self.length == 0 {
            return None;
        }
        let mut r = "bytes=".to_owned();
        r.append(decimal(self.length).as_str());
        r.append("-");
        Some(r)
    }

    /// Takes note of the response. Anything but a success ends the attempt, unless it says that
    /// nothing is left to fetch.
    pub fn respond(self, status: u16, status_text: &str) -> (r: Result<(Reception, PartFile), String>)
        requires
            self.is_valid(),
        ensures
            match r {
                Ok((reception, part)) => {
                    &&& 200 <= status < 300 || (status == 416 && self.length > 0 && self.length == self.size)
                    &&& reception.is_valid()
                    &&& reception.hasher.algorithm() == self.hasher.algorithm()
                    &&& reception.hasher.input() == kept(self.hasher.input(), self.size, status)
                    &&& reception.complete == is_complete(self.length as nat, self.size, status)
                    &&& part == if self.length > 0 && (status == 206 || status == 416) {
                        PartFile::Append
                    } else {
                        PartFile::Truncate
                    }
                },
                Err(e) => {
                    &&& !is_accepted(self.length as nat, self.size, status)
                    &&& e@ == "HTTP "@ + status_text@
                },
            },
    {
        if status == 416 && self.length > 0 && self.length == self.size {
            return Ok(
                (Reception { hasher: self.hasher, length: self.length, complete: true }, PartFile::Append),
            );
        }
        if status < 200 || status >= 300 {
            return Err("HTTP ".to_owned().concat(status_text));
        }
        if self.length > 0 && status == 206 {
            return Ok(
                (Reception { hasher: self.hasher, length: self.length, complete: false }, PartFile::Append),
            );
        }
        match Hasher::new(self.algo.as_str()) {
            Ok(hasher) => {
                assert(kept(self.hasher.input(), self.size, status) =~= Seq::<u8>::empty());
                Ok((Reception { hasher, length: 0, complete: false }, PartFile::Truncate))
            },
            Err(e) => Err(e.message()),
        }
    }
}

impl Reception {
    /// Whether the parts belong together.
    pub open spec fn is_valid(&self) -> bool {
        self.hasher.is_regular() && self.length == self.hasher.input().len()
    }

    /// Takes in a chunk, which is also added to the part file.
    pub fn receive(&mut self, chunk: &[u8])
        requires
            old(self).is_valid(),
            !old(self).complete,
            old(self).length + chunk@.len() <= u64::MAX,
        ensures
            final(self).is_valid(),
            !final(self).complete,
            final(self).hasher.algorithm() == old(self).hasher.algorithm(),
            final(self).hasher.input() == old(self).hasher.input() + chunk@,
    {
        self.hasher.update(chunk);
        self.length = self.length + chunk.len() as u64;
    }

    /// Ends the attempt: the part file may be moved into place, or has to be deleted.
    pub fn finish(self, want: &str) -> (r: Result<(), String>)
        requires
            self.is_valid(),
            has_short_form(want@),
        ensures
            match r {
                Ok(_) => hashing::hash_text(self.hasher.algorithm(), self.hasher.input()) == want@,
                Err(e) => {
                    &&& hashing::hash_text(self.hasher.algorithm(), self.hasher.input()) != want@
                    &&& e@ == mismatch_text(
                        hashing::hash_text(self.hasher.algorithm(), self.hasher.input()),
                        want@,
                    )
                },
            },
    {
        let got = self.hasher.hex();
        if same(got.as_str(), want) {
            return Ok(());
        }
        let bytes: usize = want.as_bytes().len();
        let n: usize = if bytes < 8 { bytes } else { 8 };
        let mut e = "hash mismatch (got ".to_owned();
        let head = got.as_str().substring_char(0, 8);
        assert(head@ =~= got@.take(8));
        e.append(head);
        e.append("… want ");
        e.append(first_bytes(want, n));
        e.append("…)");
        Err(e)
    }
}

/// The chunks of a response that are part of the file: none where nothing is left to fetch.
pub open spec fn taken_in(length: nat, size: u64, status: u16, chunks: Seq<Seq<u8>>) -> Seq<Seq<u8>> {
    if is_complete(length, size, status) {
        Seq::empty()
    } else {
        chunks
    }
}

/// What a hasher has seen at the end of an attempt: what was kept of the part file, then the
/// chunks of the response.
pub open spec fn received(prefix: Seq<u8>, size: u64, status: u16, chunks: Seq<Seq<u8>>) -> Seq<u8> {
    hashing::fed(kept(prefix, size, status), taken_in(prefix.len(), size, status, chunks))
}

/// What a part file holds at the end of an attempt, if it held `file` at the start.
pub open spec fn part_file_after(file: Seq<u8>, size: u64, status: u16, chunks: Seq<Seq<u8>>) -> Seq<u8> {
    let offset = resume_offset(Some(file.len() as u64), size);
    let resumed = offset > 0 && (status == 206 || is_complete(offset as nat, size, status));
    hashing::fed(
        if resumed {
            file
        } else {
            Seq::empty()
        },
        taken_in(offset as nat, size, status, chunks),
    )
}

/// What is moved into place is what was hashed: if an attempt ends well, the hash of the part
/// file is the one that the manifest wants.
pub proof fn law_moved_into_place_only_when_hash_matches(
    algorithm: hashing::Algorithm,
    want: Seq<char>,
    file: Seq<u8>,
    size: u64,
    status: u16,
    chunks: Seq<Seq<u8>>,
)
    requires
        file.len() <= u64::MAX,
        hashing::hash_text(
            algorithm,
            received(file.take(resume_offset(Some(file.len() as u64), size) as int), size, status, chunks),
        ) == want,
    ensures
        hashing::hash_text(algorithm, part_file_after(file, size, status, chunks)) == want,
{
    let offset = resume_offset(Some(file.len() as u64), size) as int;
    if offset > 0 {
        assert(file.take(offset) =~= file);
    } else {
        assert(file.take(offset) =~= Seq::empty());
    }
}

/// A resumed download ends with the whole file, whether the server honours the range, starts over
/// or has nothing left to send, as long as it sends what it was asked for.
pub proof fn law_resume_gives_whole_file(content: Seq<u8>, k: int, status: u16, chunks: Seq<Seq<u8>>)
    requires
        0 <= k <= content.len() <= u64::MAX,
        is_complete(k as nat, content.len() as u64, status) || chunks.flatten() == if status == 206 {
            content.skip(k)
        } else {
            content
        },
    ensures
        received(content.take(k), content.len() as u64, status, chunks) == content,
{
    let size = content.len() as u64;
    let prefix = content.take(k);
    if is_complete(k as nat, size, status) {
        assert(prefix =~= content);
    } else {
        hashing::lemma_fed(kept(prefix, size, status), chunks);
        if status == 206 {
            assert(content.take(k) + content.skip(k) =~= content);
        } else {
            assert(Seq::<u8>::empty() + content =~= content);
        }
    }
}

/// A part file that holds the whole file already is resumed at its end. A server that has nothing
/// behind it (416) ends the attempt without an error of its own: the part file stays as it is,
/// whatever the response holds, and its hash alone decides. The wanted hash is accepted, any other
/// is a mismatch; once the part file is deleted for that, the next attempt starts from nothing.
pub proof fn law_complete_part_file_is_judged_by_its_hash(
    algorithm: hashing::Algorithm,
    want: Seq<char>,
    file: Seq<u8>,
    size: u64,
    chunks: Seq<Seq<u8>>,
)
    requires
        0 < file.len() == size,
    ensures
        resume_offset(Some(file.len() as u64), size) == size,
        is_accepted(file.len(), size, 416),
        received(file, size, 416, chunks) == file,
        part_file_after(file, size, 416, chunks) == file,
        hashing::hash_text(algorithm, received(file, size, 416, chunks)) == want <==> hashing::hash_text(
            algorithm,
            file,
        ) == want,
        resume_offset(None, size) == 0,
{
}

/// A step of dealing with a part file once its hash is known.
#[derive(Debug, Clone, Copy, PartialEq, Eq, Structural)]
pub enum PlaceStep {
    /// Delete the part file: its content is not what is wanted.
    DeletePart,
    /// Delete the file that the new one replaces.
    DeleteOld,
    /// Move the part file to the destination.
    MoveIntoPlace,
    /// Give the destination its execute bits.
    MarkRunnable,
    /// The file is in place.
    Done,
    /// The file was not what is wanted.
    Mismatched,
    /// The file could not be moved.
    Failed,
}

/// The first step, given whether the hash is the wanted one and whether the destination exists.
pub open spec fn placing_starts(matched: bool, dest_exists: bool) -> PlaceStep {
    if !matched {
        PlaceStep::DeletePart
    } else if dest_exists {
        PlaceStep::DeleteOld
    } else {
        PlaceStep::MoveIntoPlace
    }
}

/// The step that follows. Only the move has to succeed; the rest is best effort.
pub open spec fn placing_goes_on(step: PlaceStep, ok: bool, executable: bool) -> PlaceStep {
    match step {
        PlaceStep::DeletePart => PlaceStep::Mismatched,
        PlaceStep::DeleteOld => PlaceStep::MoveIntoPlace,
        PlaceStep::MoveIntoPlace => if !ok {
            PlaceStep::Failed
        } else if executable {
            PlaceStep::MarkRunnable
        } else {
            PlaceStep::Done
        },
        PlaceStep::MarkRunnable => PlaceStep::Done,
        PlaceStep::Done => PlaceStep::Done,
        PlaceStep::Mismatched => PlaceStep::Mismatched,
        PlaceStep::Failed => PlaceStep::Failed,
    }
}

/// What to do first with a part file.
pub fn first_place_step(matched: bool, dest_exists: bool) -> (r: PlaceStep)
    ensures
        r == placing_starts(matched, dest_exists),
{
    if !matched {
        PlaceStep::DeletePart
    } else if dest_exists {
        PlaceStep::DeleteOld
    } else {
        PlaceStep::MoveIntoPlace
    }
}

/// What to do after `step`, given whether it succeeded and whether the file must be runnable.
pub fn next_place_step(step: PlaceStep, ok: bool, executable: bool) -> (r: PlaceStep)
    ensures
        r == placing_goes_on(step, ok, executable),
{
    match step {
        PlaceStep::DeletePart => PlaceStep::Mismatched,
        PlaceStep::DeleteOld => PlaceStep::MoveIntoPlace,
        PlaceStep::MoveIntoPlace => if !ok {
            PlaceStep::Failed
        } else if executable {
            PlaceStep::MarkRunnable
        } else {
            PlaceStep::Done
        },
        PlaceStep::MarkRunnable => PlaceStep::Done,
        PlaceStep::Done => PlaceStep::Done,
        PlaceStep::Mismatched => PlaceStep::Mismatched,
        PlaceStep::Failed => PlaceStep::Failed,
    }
}

/// What the part file and the destination hold, as far as they exist.
pub struct Places {
    pub part: Option<Seq<u8>>,
    pub dest: Option<Seq<u8>>,
}

/// What a step leaves behind.
pub open spec fn places_after(places: Places, step: PlaceStep, ok: bool) -> Places {
    match step {
        PlaceStep::DeletePart => if ok {
            Places { part: None, dest: places.dest }
        } else {
            places
        },
        PlaceStep::DeleteOld => if ok {
            Places { part: places.part, dest: None }
        } else {
            places
        },
        PlaceStep::MoveIntoPlace => if ok {
            Places { part: None, dest: places.part }
        } else {
            places
        },
        _ => places,
    }
}

/// The step that is reached, and what the files hold, after `n` steps with these outcomes.
pub open spec fn placing_at(
    places: Places,
    matched: bool,
    executable: bool,
    outcomes: Seq<bool>,
    n: nat,
) -> (PlaceStep, Places)
    decreases n,
{
    if n == 0 {
        (placing_starts(matched, places.dest is Some), places)
    } else {
        let (step, before) = placing_at(places, matched, executable, outcomes, (n - 1) as nat);
        (placing_goes_on(step, outcomes[n - 1], executable), places_after(before, step, outcomes[n - 1]))
    }
}

/// The destination is touched for the wanted content alone. With any other it is as it was, at
/// every step. With the wanted one it holds, once the file is in place, what the part file held,
/// and the part file is gone.
pub proof fn law_destination_holds_the_wanted_content(
    algorithm: hashing::Algorithm,
    want: Seq<char>,
    content: Seq<u8>,
    dest: Option<Seq<u8>>,
    executable: bool,
    outcomes: Seq<bool>,
    n: nat,
)
    ensures
        ({
            let matched = hashing::hash_text(algorithm, content) == want;
            let (step, places) = placing_at(
                Places { part: Some(content), dest },
                matched,
                executable,
                outcomes,
                n,
            );
            &&& !matched ==> places.dest == dest && (step is DeletePart || step is Mismatched)
            &&& step is Done || step is MarkRunnable ==> {
                &&& places.dest matches Some(c) && hashing::hash_text(algorithm, c) == want
                &&& places.dest == Some(content)
                &&& places.part is None
            }
            &&& step is DeleteOld || step is MoveIntoPlace || step is Failed ==> matched && places.part == Some(content)
        }),
    decreases n,
{
    if n > 0 {
        law_destination_holds_the_wanted_content(algorithm, want, content, dest, executable, outcomes, (n - 1) as nat);
    }
}

/// Nothing that was fetched is fetched again: an attempt goes on at the end of the part file,
/// however much or little that holds, as long as it is no longer than the file is to be. It starts
/// over only where there is no part file, where that is empty, or where it is too long.
pub proof fn law_attempt_goes_on_where_the_last_stopped(algo: &str, size: u64, part_len: Option<u64>, t: Transfer)
    requires
        call_ensures(Transfer::start, (algo, size, part_len), Ok(t)),
    ensures
        part_len matches Some(len) ==> len <= size ==> t.offset == len,
        t.offset == 0 <==> (part_len is None || part_len == Some(0u64) || part_len->0 > size),
        t.size == size,
        t.length == 0,
{
}

/// A longer part file is never worth less than a shorter one, up to the length of the file; beyond
/// that it is worth nothing.
pub proof fn law_more_fetched_is_less_to_fetch(a: u64, b: u64, size: u64)
    requires
        a <= b,
    ensures
        b <= size ==> resume_offset(Some(a), size) <= resume_offset(Some(b), size),
        b <= size ==> resume_offset(Some(b), size) - resume_offset(Some(a), size) == b - a,
        b > size ==> resume_offset(Some(b), size) == 0,
        resume_offset(None, size) == 0,
{
}

/// The request is for everything behind what was read of the part file, and for everything where
/// that is nothing.
pub proof fn law_request_is_for_the_rest(t: Transfer, range: Option<String>, missing: u64)
    requires
        t.is_valid(),
        call_ensures(Transfer::range, (&t,), range),
        call_ensures(Transfer::missing, (&t,), missing),
    ensures
        range is Some <==> t.hasher.input().len() > 0,
        range matches Some(text) ==> text@ == "bytes="@ + number::dec(t.hasher.input().len()) + "-"@,
        missing + t.hasher.input().len() == t.offset,
{
}

/// An answer with part of the file is put behind what is there; an answer with all of it takes its
/// place; one that says that nothing is left to fetch changes nothing; and anything else ends the
/// attempt, with the status for an error.
pub proof fn law_answer_decides_what_is_kept(
    t: Transfer,
    status: u16,
    status_text: &str,
    r: Result<(Reception, PartFile), String>,
)
    requires
        t.is_valid(),
        call_ensures(Transfer::respond, (t, status, status_text), r),
    ensures
        200 <= status < 300 ==> r is Ok,
        r is Ok ==> 200 <= status < 300 || (status == 416 && 0 < t.hasher.input().len() == t.size),
        status == 416 && 0 < t.hasher.input().len() == t.size ==> r is Ok,
        r matches Ok((reception, part)) ==> {
            &&& reception.hasher.algorithm() == t.hasher.algorithm()
            &&& status == 206 ==> reception.hasher.input() == t.hasher.input() && !reception.complete && (part is Append
                <==> t.hasher.input().len() > 0)
            &&& status == 416 ==> reception.hasher.input() == t.hasher.input() && reception.complete && part is Append
            &&& status != 206 && status != 416 ==> reception.hasher.input() == Seq::<u8>::empty() && !reception.complete
                && part is Truncate
        },
        r matches Err(e) ==> e@ == "HTTP "@ + status_text@,
{
}

/// A part file is moved into place exactly if the hash of what it holds is the wanted one.
pub proof fn law_hash_decides(reception: Reception, want: &str, r: Result<(), String>)
    requires
        reception.is_valid(),
        has_short_form(want@),
        call_ensures(Reception::finish, (reception, want), r),
    ensures
        r is Ok <==> hashing::hash_text(reception.hasher.algorithm(), reception.hasher.input()) == want@,
{
}

/// The part file after an attempt: a partial answer is added to what was there, so that nothing is
/// lost, even where the attempt breaks off again; a whole answer takes its place; and a part file
/// that is too long, or empty, counts as none.
pub proof fn law_part_file_keeps_what_was_fetched(file: Seq<u8>, size: u64, status: u16, chunks: Seq<Seq<u8>>)
    requires
        file.len() <= u64::MAX,
        200 <= status < 300,
    ensures
        status == 206 && file.len() <= size ==> part_file_after(file, size, status, chunks) == file + chunks.flatten(),
        status != 206 || file.len() > size ==> part_file_after(file, size, status, chunks) == chunks.flatten(),
        status == 206 && file.len() <= size ==> file.is_prefix_of(part_file_after(file, size, status, chunks)),
{
    hashing::lemma_fed(file, chunks);
    hashing::lemma_fed(Seq::empty(), chunks);
    assert(Seq::<u8>::empty() + chunks.flatten() =~= chunks.flatten());
    if file.len() == 0 {
        assert(file =~= Seq::empty());
    }
    assert(file =~= (file + chunks.flatten()).subrange(0, file.len() as int));
}

/// Two attempts that are both cut short fetch what one would have: the second goes on where the first
/// stopped, and together they hold the pieces of both.
pub proof fn law_interrupted_attempts_add_up(size: u64, first: Seq<Seq<u8>>, second: Seq<Seq<u8>>)
    requires
        first.flatten().len() <= size,
    ensures
        part_file_after(part_file_after(Seq::empty(), size, 200, first), size, 206, second) == first.flatten()
            + second.flatten(),
        resume_offset(Some(part_file_after(Seq::empty(), size, 200, first).len() as u64), size) == first.flatten().len(),
{
    law_part_file_keeps_what_was_fetched(Seq::empty(), size, 200, first);
    law_part_file_keeps_what_was_fetched(first.flatten(), size, 206, second);
}

/// There is always a worker, never more of them than were asked for or than there are jobs, and no
/// fewer than both allow.
pub proof fn law_workers_share_the_jobs(concurrency: usize, jobs: usize, workers: usize)
    requires
        call_ensures(worker_count, (concurrency, jobs), workers),
    ensures
        workers >= 1,
        jobs >= 1 ==> workers <= jobs,
        concurrency >= 1 ==> workers <= concurrency,
        workers < jobs ==> workers >= concurrency,
{
}

/// The jobs are handed out in their order, one for each request, until none is left; and then none.
pub proof fn law_jobs_are_handed_out_in_order(len: nat, n: nat, i: int)
    requires
        0 <= i < n,
    ensures
        handed_out(len, n).len() == n,
        i < len ==> handed_out(len, n)[i] == Some(i as nat),
        i >= len ==> handed_out(len, n)[i] is None,
{
    lemma_handed_out(len, n);
}

/// The breakdown has a row for each bucket with anything to fetch, with the bytes of its files, and
/// no other row.
pub proof fn law_breakdown_is_exact(files: Seq<FileEntry>, name: Seq<char>, bytes: nat)
    ensures
        filled_categories(files, 8).contains((name, bytes)) <==> ui::category_names().contains(name) && bytes > 0 && bytes
            == ui::category_bytes(files, name),
{
    lemma_breakdown(files, 8, name, bytes);
    let names = ui::category_names();
    if names.contains(name) {
        let k = choose|k: int| 0 <= k < names.len() && names[k] == name;
        assert(0 <= k < 8 && ui::category_names()[k] == name);
    }
}

proof fn lemma_breakdown(files: Seq<FileEntry>, n: int, name: Seq<char>, bytes: nat)
    requires
        0 <= n <= 8,
    ensures
        filled_categories(files, n).contains((name, bytes)) <==> (exists|k: int|
            0 <= k < n && #[trigger] ui::category_names()[k] == name) && bytes > 0 && bytes == ui::category_bytes(
            files,
            name,
        ),
    decreases n,
{
    if n > 0 {
        lemma_breakdown(files, n - 1, name, bytes);
        let front = filled_categories(files, n - 1);
        let all = filled_categories(files, n);
        let last = ui::category_names()[n - 1];
        if all.contains((name, bytes)) {
            let k = choose|k: int| 0 <= k < all.len() && all[k] == (name, bytes);
            if k < front.len() {
                assert(front[k] == (name, bytes));
                assert(front.contains((name, bytes)));
            } else {
                assert(ui::category_names()[n - 1] == name);
            }
        }
        if front.contains((name, bytes)) {
            let k = choose|k: int| 0 <= k < front.len() && front[k] == (name, bytes);
            assert(all[k] == (name, bytes));
        }
        if last == name && bytes > 0 && bytes == ui::category_bytes(files, name) {
            assert(all[all.len() - 1] == (name, bytes));
        }
    }
}

/// A row of the summary is its bucket's: the same name, all that was expected, and what was fetched,
/// but no more than was expected.
pub proof fn law_summary_row_is_its_buckets(slot: CategorySlot)
    ensures
        summary_row(slot).0 == slot.name,
        summary_row(slot).2 == slot.total,
        slot.done <= slot.total ==> summary_row(slot).1 == slot.done,
        slot.done > slot.total ==> summary_row(slot).1 == slot.total,
{
}

/// A file that failed is named with its error, and no other is; every other counts as fetched.
pub proof fn law_failures_are_named(results: Seq<(Seq<char>, Option<Seq<char>>)>, path: Seq<char>, error: Seq<char>)
    ensures
        tally_of(results).ok + tally_of(results).failed.len() == results.len(),
        tally_of(results).failed.contains((path, error)) <==> results.contains((path, Some(error))),
        (forall|i: int| 0 <= i < results.len() ==> #[trigger] results[i].1 is None) ==> tally_of(results).ok
            == results.len() && tally_of(results).failed.len() == 0,
    decreases results.len(),
{
    broadcast use vstd::seq_lib::group_to_multiset_ensures;

    lemma_tally(results);
    let failed = tally_of(results).failed;
    assert(failed.to_multiset().count((path, error)) == results.to_multiset().count((path, Some(error))));
    if forall|i: int| 0 <= i < results.len() ==> #[trigger] results[i].1 is None {
        lemma_no_failure(results);
    }
}

proof fn lemma_no_failure(results: Seq<(Seq<char>, Option<Seq<char>>)>)
    requires
        forall|i: int| 0 <= i < results.len() ==> #[trigger] results[i].1 is None,
    ensures
        tally_of(results).ok == results.len(),
        tally_of(results).failed.len() == 0,
    decreases results.len(),
{
    if results.len() > 0 {
        let front = results.drop_last();
        assert forall|i: int| 0 <= i < front.len() implies #[trigger] front[i].1 is None by {
            assert(front[i] == results[i]);
        }
        lemma_no_failure(front);
        assert(results[results.len() - 1].1 is None);
    }
}

/// An object lies below its mirror, behind a single slash, with however many the mirror's address ends.
pub proof fn law_object_lies_below_its_mirror(base: Seq<char>, object: Seq<char>)
    ensures
        base.len() > 0 && base.last() != '/' ==> object_url(base, object) == base + "/"@ + object,
        object_url(base.push('/'), object) == object_url(base, object),
{
    text::law_trimmed_end(base, '/');
}

/// The first attempt goes to the first mirror, a file that was fetched is not asked for again, and
/// without a mirror there is nothing to try.
pub proof fn law_attempts_begin_and_end(
    mirrors: Vec<String>,
    object: &str,
    attempt: usize,
    first: ObjectStep,
    after_success: ObjectStep,
)
    requires
        call_ensures(first_step, (&mirrors, object), first),
        call_ensures(next_step, (&mirrors, object, attempt, Ok(())), after_success),
        attempt < attempts_with(mirrors@.len()),
    ensures
        after_success is Succeeded,
        mirrors@.len() > 0 ==> (first matches ObjectStep::Try { url } && url@ == object_url(mirrors@[0]@, object@)),
        mirrors@.len() == 0 ==> (first matches ObjectStep::Failed { error } && error@ == "no mirrors configured"@),
{
    if mirrors@.len() > 0 {
        assert(text::views(mirrors@)[0] == mirrors@[0]@);
        assert(first@ is Try);
    } else {
        assert(first@ is Failed);
    }
    assert(after_success@ is Succeeded);
}

/// After an error the next mirror is asked, and after the last of them the first once more; the error
/// of that attempt is then the file's, with the mirror that it came from.
pub proof fn law_error_leads_to_the_next_mirror(
    mirrors: Vec<String>,
    object: &str,
    attempt: usize,
    error: String,
    next: ObjectStep,
)
    requires
        call_ensures(next_step, (&mirrors, object, attempt, Err(error)), next),
        mirrors@.len() > 0,
        attempt <= mirrors@.len(),
    ensures
        attempt + 1 < mirrors@.len() ==> (next matches ObjectStep::Try { url } && url@ == object_url(
            mirrors@[attempt + 1]@,
            object@,
        )),
        attempt + 1 == mirrors@.len() ==> (next matches ObjectStep::Try { url } && url@ == object_url(
            mirrors@[0]@,
            object@,
        )),
        attempt == mirrors@.len() ==> (next matches ObjectStep::Failed { error: e } && e@ == "mirror "@ + number::dec(1)
            + ": "@ + error@),
{
    let list = text::views(mirrors@);
    let errors = Seq::new((attempt + 1) as nat, |i: int| error@);
    assert(errors.last() == error@);
    law_every_mirror_is_asked(list, object@, errors);
    assert(error_of(Err::<(), String>(error)) == Some(error@));
    assert(next@ == step_after_errors(list, object@, errors));
}

/// A file whose hash is the wanted one reaches its destination: the old file goes, the new one takes its
/// place, and it is made runnable where it must be. Only the move can fail. A file with any other hash
/// is deleted, and nothing else happens.
pub proof fn law_wanted_file_reaches_its_place(places: Places, matched: bool, executable: bool, outcomes: Seq<bool>)
    ensures
        ({
            let at = |n: nat| placing_at(places, matched, executable, outcomes, n).0;
            let k: nat = if places.dest is Some {
                1
            } else {
                0
            };
            &&& !matched ==> at(0) is DeletePart && at(1) is Mismatched
            &&& matched && places.dest is Some ==> at(0) is DeleteOld
            &&& matched ==> at(k) is MoveIntoPlace
            &&& matched && !outcomes[k as int] ==> at(k + 1) is Failed
            &&& matched && outcomes[k as int] && !executable ==> at(k + 1) is Done
            &&& matched && outcomes[k as int] && executable ==> at(k + 1) is MarkRunnable && at(k + 2) is Done
        }),
{
    reveal_with_fuel(placing_at, 4);
}

/// What a hasher is fed of a part file that is read piece by piece, with room for `offset` bytes.
pub open spec fn prefix_fed(offset: int, pieces: Seq<Seq<u8>>) -> Seq<u8>
    decreases pieces.len(),
{
    if pieces.len() == 0 {
        Seq::empty()
    } else {
        let before = prefix_fed(offset, pieces.drop_last());
        before + fitting(pieces.last(), offset - before.len())
    }
}

/// The hasher is fed the beginning of the part file that is kept, all of it and nothing behind it, in
/// whatever pieces the file is read.
pub proof fn law_kept_beginning_is_hashed(offset: int, pieces: Seq<Seq<u8>>)
    requires
        offset >= 0,
    ensures
        prefix_fed(offset, pieces) == if pieces.flatten().len() <= offset {
            pieces.flatten()
        } else {
            pieces.flatten().take(offset)
        },
    decreases pieces.len(),
{
    if pieces.len() == 0 {
        assert(pieces.flatten() =~= Seq::empty());
    } else {
        let front = pieces.drop_last();
        law_kept_beginning_is_hashed(offset, front);
        pieces.lemma_flatten_and_flatten_alt_are_equivalent();
        front.lemma_flatten_and_flatten_alt_are_equivalent();
        let all = pieces.flatten();
        assert(all =~= front.flatten() + pieces.last());
        assert(prefix_fed(offset, pieces) =~= if all.len() <= offset {
            all
        } else {
            all.take(offset)
        });
    }
}

/// A worker shows the name of its file without the directories.
pub proof fn law_short_name_is_the_last_piece(path: &str, dir: Seq<char>, name: Seq<char>, short: String)
    requires
        call_ensures(short_name, (path,), short),
        !name.contains('/'),
        path@ == dir.push('/') + name || path@ == name,
    ensures
        short@ == name,
{
    text::law_tail_is_behind_the_last(dir, name, '/');
}

/// A download starts with nothing done, a worker for every job as far as that was asked for, and a slot for every bucket
/// with anything to fetch.
pub proof fn law_download_starts_with_nothing_done(
    jobs: Vec<FileEntry>,
    total_bytes: u64,
    concurrency: usize,
    header: Header,
    progress: Progress,
)
    requires
        call_ensures(prepare, (&jobs, total_bytes, concurrency, header), progress),
    ensures
        progress.total_bytes == total_bytes,
        progress.done_bytes == 0,
        progress.files_total == jobs@.len(),
        progress.files_done == 0,
        progress.workers@.len() >= 1,
        jobs@.len() >= 1 ==> progress.workers@.len() <= jobs@.len(),
        concurrency >= 1 ==> progress.workers@.len() <= concurrency,
        progress.workers@.len() < jobs@.len() ==> progress.workers@.len() >= concurrency,
        slot_totals(progress.categories@) == filled_categories(jobs@, 8),
        forall|i: int| 0 <= i < progress.categories@.len() ==> (#[trigger] progress.categories@[i]).done == 0,
{
}

/// Each job is counted in the slot of its bucket; every job with anything to fetch has one.
pub proof fn law_jobs_are_counted_in_their_buckets(
    progress: Progress,
    jobs: Vec<FileEntry>,
    slots: Vec<Option<usize>>,
    i: int,
)
    requires
        call_ensures(job_categories, (&progress, &jobs), slots),
        slot_totals(progress.categories@) == filled_categories(jobs@, 8),
        0 <= i < jobs@.len(),
    ensures
        slots@.len() == jobs@.len(),
        slots@[i] matches Some(k) ==> k < progress.categories@.len() && progress.categories@[k as int].name@ == ui::category(
            jobs@[i].path@,
        ),
        jobs@[i].size > 0 ==> slots@[i] is Some,
{
    if slots@[i] is Some {
        lemma_slot_index_names(progress.categories@, ui::category(jobs@[i].path@));
    }
    if jobs@[i].size > 0 {
        law_every_byte_has_a_category(jobs@, progress.categories@, i);
        assert(slots@[i] is Some);
    }
}

proof fn lemma_slot_index_names(slots: Seq<CategorySlot>, name: Seq<char>)
    ensures
        ui::slot_index(slots, name) matches Some(k) ==> k < slots.len() && slots[k as int].name@ == name,
    decreases slots.len(),
{
    if slots.len() > 0 && slots[0].name@ != name {
        lemma_slot_index_names(slots.drop_first(), name);
    }
}

/// Every chunk that arrives is hashed, all of it, behind what was hashed before.
pub proof fn law_every_chunk_is_hashed(reception: &mut Reception, chunk: &[u8])
    requires
        call_ensures(Reception::receive, (reception, chunk), ()),
    ensures
        final(reception).hasher.input() == old(reception).hasher.input() + chunk@,
        final(reception).hasher.algorithm() == old(reception).hasher.algorithm(),
        final(reception).is_valid(),
{
}

/// What is read of the part file is hashed as far as it is to be kept, behind what was read before; the attempt stays
/// what it was.
pub proof fn law_part_file_is_hashed(t: &mut Transfer, data: &[u8])
    requires
        old(t).is_valid(),
        call_ensures(Transfer::feed_prefix, (t, data), ()),
    ensures
        data@.len() <= old(t).offset - old(t).length ==> final(t).hasher.input() == old(t).hasher.input() + data@,
        data@.len() > old(t).offset - old(t).length ==> final(t).hasher.input().len() == old(t).offset
            && final(t).hasher.input() == old(t).hasher.input() + data@.take(old(t).offset - old(t).length),
        final(t).is_valid(),
        final(t).offset == old(t).offset,
        final(t).size == old(t).size,
        final(t).algo@ == old(t).algo@,
{
}

/// A queue hands out its jobs by number, from the first, and each only once; an empty one hands out none.
pub proof fn law_queue_hands_out_the_next(queue: &mut JobQueue, len: usize, fresh: JobQueue, job: Option<usize>)
    requires
        call_ensures(JobQueue::new, (len,), fresh),
        call_ensures(JobQueue::take, (queue,), job),
    ensures
        fresh.next == 0 && fresh.len == len,
        old(queue).next < old(queue).len ==> job == Some(old(queue).next) && final(queue).next == old(queue).next + 1,
        old(queue).next >= old(queue).len ==> job is None && final(queue).next == old(queue).next,
        final(queue).len == old(queue).len,
{
}

/// A chunk is counted everywhere at once: in the total, for its worker and in its bucket, to the byte; nothing else
/// changes.
pub proof fn law_chunk_is_counted_everywhere(progress: &mut Progress, w: usize, cat: Option<usize>, n: u64)
    requires
        w < old(progress).workers@.len(),
        cat matches Some(i) ==> i < old(progress).categories@.len(),
        call_ensures(count_chunk, (progress, w, cat, n), ()),
    ensures
        old(progress).done_bytes + n <= u64::MAX ==> final(progress).done_bytes == old(progress).done_bytes + n,
        old(progress).workers@[w as int].cur + n <= u64::MAX ==> final(progress).workers@[w as int].cur == old(
            progress,
        ).workers@[w as int].cur + n,
        forall|k: int|
            0 <= k < old(progress).workers@.len() && k != w ==> #[trigger] final(progress).workers@[k] == old(
                progress,
            ).workers@[k],
        final(progress).categories@ == with_chunk(old(progress).categories@, cat, n),
        final(progress).files_done == old(progress).files_done,
        final(progress).total_bytes == old(progress).total_bytes,
{
}

/// A file that was fetched is counted, and one that was not is named with its error; what was noted before stays.
pub proof fn law_every_file_is_noted(outcome: &mut DlOutcome, path: &str, result: Result<(), String>)
    requires
        old(outcome).ok < u64::MAX,
        call_ensures(DlOutcome::record, (outcome, path, result), ()),
    ensures
        result is Ok ==> final(outcome).ok == old(outcome).ok + 1 && final(outcome).failed@ == old(outcome).failed@,
        result matches Err(e) ==> final(outcome).ok == old(outcome).ok && final(outcome).failed@.len() == old(
            outcome,
        ).failed@.len() + 1 && final(outcome).failed@.last().0@ == path@ && final(outcome).failed@.last().1@ == e@
            && final(outcome).failed@.drop_last() == old(outcome).failed@,
{
}

/// The summary has a row for each bucket, in the order of the view; what was noted of the files stays.
pub proof fn law_summary_has_a_row_for_each_bucket(outcome: &mut DlOutcome, progress: Progress, i: int)
    requires
        call_ensures(DlOutcome::finish, (outcome, &progress), ()),
        0 <= i < progress.categories@.len(),
    ensures
        final(outcome).categories@.len() == progress.categories@.len(),
        final(outcome).categories@[i].0 == progress.categories@[i].name,
        final(outcome).categories@[i].2 == progress.categories@[i].total,
        final(outcome).categories@[i].1 <= progress.categories@[i].total,
        progress.categories@[i].done <= progress.categories@[i].total ==> final(outcome).categories@[i].1
            == progress.categories@[i].done,
        final(outcome).ok == old(outcome).ok,
        final(outcome).failed@ == old(outcome).failed@,
{
}

/// A file is put into place as it is carried out along its course.
pub proof fn law_placing_follows_its_course(
    matched: bool,
    dest_exists: bool,
    step: PlaceStep,
    ok: bool,
    executable: bool,
    first: PlaceStep,
    next: PlaceStep,
)
    requires
        call_ensures(first_place_step, (matched, dest_exists), first),
        call_ensures(next_place_step, (step, ok, executable), next),
    ensures
        first == placing_starts(matched, dest_exists),
        next == placing_goes_on(step, ok, executable),
        first is DeletePart <==> !matched,
        next is Done ==> step is Done || step is MarkRunnable || (step is MoveIntoPlace && ok && !executable),
{
}

/// An attempt can be made with either of the known algorithms, and with no other.
pub proof fn law_attempt_takes_a_known_algorithm(
    algo: &str,
    size: u64,
    part_len: Option<u64>,
    t: Result<Transfer, UnsupportedAlgorithm>,
)
    requires
        call_ensures(Transfer::start, (algo, size, part_len), t),
    ensures
        t is Ok <==> algo@ == "blake3"@ || algo@ == "blake2b-256"@,
        t matches Ok(attempt) ==> attempt.hasher.input() == Seq::<u8>::empty() && (attempt.hasher.algorithm() is Blake3
            <==> algo@ == "blake3"@),
        t matches Err(e) ==> e.name@ == algo@,
{
}

/// The rows of the breakdown are in the order of the display, each bucket at most once.
pub proof fn law_breakdown_is_in_display_order(files: Seq<FileEntry>, i: int, j: int)
    requires
        0 <= i < j < filled_categories(files, 8).len(),
    ensures
        exists|a: int, b: int|
            0 <= a < b < 8 && #[trigger] ui::category_names()[a] == filled_categories(files, 8)[i].0
                && #[trigger] ui::category_names()[b] == filled_categories(files, 8)[j].0,
{
    let places = lemma_display_order(files, 8);
    assert(places[i] < places[j]);
    assert(ui::category_names()[places[i]] == filled_categories(files, 8)[i].0);
    assert(ui::category_names()[places[j]] == filled_categories(files, 8)[j].0);
}

proof fn lemma_display_order(files: Seq<FileEntry>, n: int) -> (places: Seq<int>)
    requires
        0 <= n <= 8,
    ensures
        places.len() == filled_categories(files, n).len(),
        forall|k: int|
            0 <= k < places.len() ==> 0 <= #[trigger] places[k] < n && ui::category_names()[places[k]]
                == filled_categories(files, n)[k].0,
        forall|k: int, m: int| 0 <= k < m < places.len() ==> #[trigger] places[k] < #[trigger] places[m],
    decreases n,
{
    if n == 0 {
        Seq::empty()
    } else {
        let before = lemma_display_order(files, n - 1);
        if ui::category_bytes(files, ui::category_names()[n - 1]) > 0 {
            before.push(n - 1)
        } else {
            before
        }
    }
}

/// The breakdown as it is carried out, and the bucket of a path.
pub proof fn law_breakdown_as_it_is_carried_out(
    jobs: Vec<FileEntry>,
    path: &str,
    rows: Vec<(&'static str, u64)>,
    bucket: &'static str,
)
    requires
        call_ensures(category_totals, (&jobs,), rows),
        call_ensures(category_of, (path,), bucket),
    ensures
        category_views(rows@) == filled_categories(jobs@, 8),
        sum_of(category_views(rows@)) == manifest::total_size(jobs@),
        bucket@ == ui::category(path@),
        !path@.contains('/') ==> bucket@ == "Engine"@,
{
    law_filled_categories_conserve_bytes(jobs@);
}

} // verus!
