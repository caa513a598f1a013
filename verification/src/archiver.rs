//! Admission and completion bookkeeping for concurrent archival: each
//! catalog entry is transferred at most once per run, already-archived
//! entries are skipped, and the run's counters only grow.
//!
//! The transfer itself is unbounded-duration I/O the library cannot make, so
//! one archival is two short serialized steps around it: `try_start` claims
//! an identifier (or refuses, where it is in flight or already archived) and
//! `done` releases the claim, recording the fact and counting the outcome.

use crate::date::UtcDate;
use crate::item::Item;
use crate::item::ItemView;
use crate::item::item_views;
use crate::item::spec_storage_path;
use crate::metadata::Media;
use crate::metadata::MediaView;
use crate::metadata::Metadata;
use vstd::hash_set::StringHashSet;
use vstd::prelude::*;

verus! {

/// Counts of archival outcomes over one run, each only ever incremented.
#[derive(Clone, Copy, Debug, PartialEq, Eq, Structural)]
pub struct Stats {
    pub downloaded: u64,
    pub skipped: u64,
    pub errored: u64,
}

/// The abstract value of `Stats`, over unbounded integers.
#[verifier::ext_equal]
pub struct StatsView {
    pub downloaded: int,
    pub skipped: int,
    pub errored: int,
}

impl View for Stats {
    type V = StatsView;

    open spec fn view(&self) -> StatsView {
        StatsView {
            downloaded: self.downloaded as int,
            skipped: self.skipped as int,
            errored: self.errored as int,
        }
    }
}

impl Stats {
    /// All counters at zero.
    pub fn new() -> (r: Stats)
        ensures
            r@ == (StatsView { downloaded: 0, skipped: 0, errored: 0 }),
    {
        Stats { downloaded: 0, skipped: 0, errored: 0 }
    }
}

impl Default for Stats {
    fn default() -> (r: Stats)
        ensures
            r@ == (StatsView { downloaded: 0, skipped: 0, errored: 0 }),
    {
        Stats::new()
    }
}

/// What the admission check decided for one entry.
#[derive(Clone, Copy, Debug, PartialEq, Eq, Structural)]
pub enum ShouldDownload {
    Download,
    Skip,
}

/// How one entry's archival ended. A transfer failure's reason stays with
/// the caller that ran the transfer; the bookkeeping records only that it
/// failed.
#[derive(Clone, Copy, Debug, PartialEq, Eq, Structural)]
pub enum Outcome {
    Downloaded,
    Skipped,
    Errored,
}

/// The abstract value of the archiver's shared state: the identifiers some
/// worker has claimed, the ledger of archived entries, and the counters.
#[verifier::ext_equal]
pub struct StateView {
    pub in_flight: Set<Seq<char>>,
    pub archived: Map<Seq<char>, MediaView>,
    pub stats: StatsView,
}

/// The admission check: an identifier is refused while a worker has it in
/// flight or the ledger already holds its record.
pub open spec fn spec_claimed(v: StateView, id: Seq<char>) -> bool {
    v.in_flight.contains(id) || v.archived.contains_key(id)
}

/// Count one skipped entry; nothing else moves.
pub open spec fn spec_skip(v: StateView) -> StateView {
    StateView {
        in_flight: v.in_flight,
        archived: v.archived,
        stats: StatsView {
            downloaded: v.stats.downloaded,
            skipped: v.stats.skipped + 1,
            errored: v.stats.errored,
        },
    }
}

/// What one admission attempt does: refused entries are counted as skipped;
/// otherwise the identifier becomes claimed.
pub open spec fn spec_admit(v: StateView, id: Seq<char>) -> (StateView, ShouldDownload) {
    if spec_claimed(v, id) {
        (spec_skip(v), ShouldDownload::Skip)
    } else {
        (
            StateView {
                in_flight: v.in_flight.insert(id),
                archived: v.archived,
                stats: v.stats,
            },
            ShouldDownload::Download,
        )
    }
}

/// The ledger record written for one successfully transferred entry.
pub open spec fn spec_record_of(item: ItemView, download_time: UtcDate) -> MediaView {
    MediaView {
        id: item.id,
        file_path: spec_storage_path(item.creation_time, item.filename),
        creation_date: item.creation_time,
        download_date: download_time,
    }
}

/// What completion does: the claim is released; a successful transfer is
/// recorded and counted as downloaded (or, were its record somehow already
/// present, counted as skipped and the ledger left untouched); a failed one
/// is counted as errored and leaves no record, so a later run retries it.
pub open spec fn spec_complete(
    v: StateView,
    item: ItemView,
    success: bool,
    download_time: UtcDate,
) -> StateView {
    let released = v.in_flight.remove(item.id);
    if success {
        if v.archived.contains_key(item.id) {
            StateView {
                in_flight: released,
                archived: v.archived,
                stats: StatsView {
                    downloaded: v.stats.downloaded,
                    skipped: v.stats.skipped + 1,
                    errored: v.stats.errored,
                },
            }
        } else {
            StateView {
                in_flight: released,
                archived: v.archived.insert(item.id, spec_record_of(item, download_time)),
                stats: StatsView {
                    downloaded: v.stats.downloaded + 1,
                    skipped: v.stats.skipped,
                    errored: v.stats.errored,
                },
            }
        }
    } else {
        StateView {
            in_flight: released,
            archived: v.archived,
            stats: StatsView {
                downloaded: v.stats.downloaded,
                skipped: v.stats.skipped,
                errored: v.stats.errored + 1,
            },
        }
    }
}

/// The outcome completion reports.
pub open spec fn spec_complete_outcome(v: StateView, item: ItemView, success: bool) -> Outcome {
    if success {
        if v.archived.contains_key(item.id) {
            Outcome::Skipped
        } else {
            Outcome::Downloaded
        }
    } else {
        Outcome::Errored
    }
}

/// One whole archival decision, admission through completion, given how the
/// transfer went.
pub open spec fn spec_archive_one(
    v: StateView,
    item: ItemView,
    transfer_ok: bool,
    download_time: UtcDate,
) -> (StateView, Outcome) {
    if spec_claimed(v, item.id) {
        (spec_skip(v), Outcome::Skipped)
    } else if transfer_ok {
        (
            StateView {
                in_flight: v.in_flight,
                archived: v.archived.insert(item.id, spec_record_of(item, download_time)),
                stats: StatsView {
                    downloaded: v.stats.downloaded + 1,
                    skipped: v.stats.skipped,
                    errored: v.stats.errored,
                },
            },
            Outcome::Downloaded,
        )
    } else {
        (
            StateView {
                in_flight: v.in_flight,
                archived: v.archived,
                stats: StatsView {
                    downloaded: v.stats.downloaded,
                    skipped: v.stats.skipped,
                    errored: v.stats.errored + 1,
                },
            },
            Outcome::Errored,
        )
    }
}

/// A batch of archival decisions, one entry after the other.
pub open spec fn spec_archive_batch(
    v: StateView,
    items: Seq<ItemView>,
    transfer_ok: Seq<bool>,
    download_time: UtcDate,
) -> (StateView, Seq<Outcome>)
    decreases items.len(),
{
    if items.len() == 0 {
        (v, Seq::<Outcome>::empty())
    } else {
        let head = spec_archive_one(v, items[0], transfer_ok[0], download_time);
        let tail = spec_archive_batch(
            head.0,
            items.drop_first(),
            transfer_ok.drop_first(),
            download_time,
        );
        (tail.0, seq![head.1] + tail.1)
    }
}

/// The absolute destination of one entry's bytes: the archive root and the
/// entry's relative storage path, joined by the path separator.
pub fn full_path(root: &str, relative: &str) -> (r: String)
    ensures
        r@ == root@ + seq!['/'] + relative@,
{
    let mut p = root.to_owned();
    p.append("/");
    p.append(relative);
    proof {
        reveal_strlit("/");
        assert(p@ =~= root@ + seq!['/'] + relative@);
    }
    p
}

/// How many of `n` successive admission attempts for one identifier are
/// granted, with no completion for it in between.
pub open spec fn spec_admit_grants(v: StateView, id: Seq<char>, n: nat) -> int
    decreases n,
{
    if n == 0 {
        0
    } else {
        (if spec_admit(v, id).1 == ShouldDownload::Download {
            1int
        } else {
            0int
        }) + spec_admit_grants(spec_admit(v, id).0, id, (n - 1) as nat)
    }
}

/// A claimed identifier is refused by every further admission attempt.
proof fn lemma_claimed_grants_none(v: StateView, id: Seq<char>, n: nat)
    requires
        spec_claimed(v, id),
    ensures
        spec_admit_grants(v, id, n) == 0,
    decreases n,
{
    if n > 0 {
        lemma_claimed_grants_none(spec_admit(v, id).0, id, (n - 1) as nat);
    }
}

/// At-most-once transfer: of any number of admission attempts for one
/// identifier within a run, with no completion for it in between, at most
/// one is granted a transfer — and where the identifier starts unclaimed,
/// exactly the first one is.
pub proof fn lemma_at_most_once_transfer(v: StateView, id: Seq<char>, n: nat)
    ensures
        spec_admit_grants(v, id, n) <= 1,
        spec_claimed(v, id) ==> spec_admit_grants(v, id, n) == 0,
        !spec_claimed(v, id) && n >= 1 ==> spec_admit(v, id).1 == ShouldDownload::Download
            && spec_admit_grants(v, id, n) == 1,
{
    if spec_claimed(v, id) {
        lemma_claimed_grants_none(v, id, n);
    } else if n >= 1 {
        assert(spec_claimed(spec_admit(v, id).0, id));
        lemma_claimed_grants_none(spec_admit(v, id).0, id, (n - 1) as nat);
    }
}

/// A record once in the ledger stays there through any batch.
proof fn lemma_batch_keeps_archived(
    v: StateView,
    items: Seq<ItemView>,
    transfer_ok: Seq<bool>,
    download_time: UtcDate,
    id: Seq<char>,
)
    requires
        v.archived.contains_key(id),
    ensures
        spec_archive_batch(v, items, transfer_ok, download_time).0.archived.contains_key(id),
    decreases items.len(),
{
    if items.len() > 0 {
        lemma_batch_keeps_archived(
            spec_archive_one(v, items[0], transfer_ok[0], download_time).0,
            items.drop_first(),
            transfer_ok.drop_first(),
            download_time,
            id,
        );
    }
}

/// After a run over a catalog in which every attempted transfer succeeded,
/// every entry of the catalog has a record in the ledger.
pub proof fn lemma_successful_run_archives_all(
    v: StateView,
    items: Seq<ItemView>,
    transfer_ok: Seq<bool>,
    download_time: UtcDate,
    j: int,
)
    requires
        v.in_flight == Set::<Seq<char>>::empty(),
        transfer_ok.len() == items.len(),
        forall|k: int| 0 <= k < transfer_ok.len() ==> transfer_ok[k],
        0 <= j < items.len(),
    ensures
        spec_archive_batch(v, items, transfer_ok, download_time).0.archived.contains_key(
            items[j].id,
        ),
    decreases items.len(),
{
    let head = spec_archive_one(v, items[0], transfer_ok[0], download_time);
    assert(head.0.in_flight == v.in_flight);
    if j == 0 {
        assert(head.0.archived.contains_key(items[0].id));
        lemma_batch_keeps_archived(
            head.0,
            items.drop_first(),
            transfer_ok.drop_first(),
            download_time,
            items[0].id,
        );
    } else {
        lemma_successful_run_archives_all(
            head.0,
            items.drop_first(),
            transfer_ok.drop_first(),
            download_time,
            j - 1,
        );
    }
}

/// Against a ledger that already holds every entry of the catalog, a run
/// downloads nothing: every entry is skipped, the skip count grows by the
/// catalog's size, and the ledger and the other counters do not move.
pub proof fn lemma_archived_run_all_skipped(
    v: StateView,
    items: Seq<ItemView>,
    transfer_ok: Seq<bool>,
    download_time: UtcDate,
)
    requires
        forall|k: int| 0 <= k < items.len() ==> v.archived.contains_key((#[trigger] items[k]).id),
    ensures
        spec_archive_batch(v, items, transfer_ok, download_time).1.len() == items.len(),
        forall|k: int|
            0 <= k < items.len() ==> spec_archive_batch(v, items, transfer_ok, download_time).1[k]
                == Outcome::Skipped,
        spec_archive_batch(v, items, transfer_ok, download_time).0.archived == v.archived,
        spec_archive_batch(v, items, transfer_ok, download_time).0.in_flight == v.in_flight,
        spec_archive_batch(v, items, transfer_ok, download_time).0.stats.downloaded
            == v.stats.downloaded,
        spec_archive_batch(v, items, transfer_ok, download_time).0.stats.errored
            == v.stats.errored,
        spec_archive_batch(v, items, transfer_ok, download_time).0.stats.skipped
            == v.stats.skipped + items.len(),
    decreases items.len(),
{
    if items.len() > 0 {
        assert(spec_claimed(v, items[0].id));
        assert(forall|k: int|
            0 <= k < items.drop_first().len() ==> (#[trigger] items.drop_first()[k])
                == items[k + 1]);
        lemma_archived_run_all_skipped(
            spec_skip(v),
            items.drop_first(),
            transfer_ok.drop_first(),
            download_time,
        );
    }
}

/// Idempotence: a second run over the same catalog, against the ledger a
/// fully successful run left behind, downloads nothing — every entry is
/// skipped and the skip count of the second run equals the catalog's size.
pub proof fn lemma_idempotent_rerun(
    v: StateView,
    items: Seq<ItemView>,
    first_ok: Seq<bool>,
    second_ok: Seq<bool>,
    t1: UtcDate,
    t2: UtcDate,
)
    requires
        v.in_flight == Set::<Seq<char>>::empty(),
        first_ok.len() == items.len(),
        forall|k: int| 0 <= k < first_ok.len() ==> first_ok[k],
    ensures
        ({
            let after_first = spec_archive_batch(v, items, first_ok, t1).0;
            let second = spec_archive_batch(after_first, items, second_ok, t2);
            &&& second.1.len() == items.len()
            &&& forall|k: int| 0 <= k < items.len() ==> second.1[k] == Outcome::Skipped
            &&& second.0.stats.downloaded == after_first.stats.downloaded
            &&& second.0.stats.skipped == after_first.stats.skipped + items.len()
            &&& second.0.archived == after_first.archived
        }),
{
    let after_first = spec_archive_batch(v, items, first_ok, t1).0;
    assert forall|k: int| 0 <= k < items.len() implies after_first.archived.contains_key(
        (#[trigger] items[k]).id,
    ) by {
        lemma_successful_run_archives_all(v, items, first_ok, t1, k);
    }
    lemma_archived_run_all_skipped(after_first, items, second_ok, t2);
}

/// The archiver's shared state: the ledger, the run's counters, and the
/// identifiers currently claimed by a worker.
pub struct State {
    metadata: Metadata,
    stats: Stats,
    in_progress_ids: StringHashSet,
}

impl View for State {
    type V = StateView;

    closed spec fn view(&self) -> StateView {
        StateView {
            in_flight: self.in_progress_ids@,
            archived: self.metadata@,
            stats: self.stats@,
        }
    }
}

impl State {
    /// The state's internal invariant, established by its constructors and
    /// preserved by every operation.
    pub closed spec fn wf(self) -> bool {
        self.metadata.wf()
    }

    /// Fresh state over an already-loaded ledger: nothing in flight, all
    /// counters at zero. A run against an archive that already holds records
    /// starts here, which is what makes repeated runs idempotent.
    pub fn create(metadata: Metadata) -> (r: State)
        requires
            metadata.wf(),
        ensures
            r.wf(),
            r@ == (StateView {
                in_flight: Set::<Seq<char>>::empty(),
                archived: metadata@,
                stats: StatsView { downloaded: 0, skipped: 0, errored: 0 },
            }),
    {
        State { metadata, stats: Stats::new(), in_progress_ids: StringHashSet::new() }
    }

    /// Whether the ledger holds a record for an identifier.
    pub fn is_archived(&self, id: &str) -> (r: bool)
        requires
            self.wf(),
        ensures
            r == self@.archived.contains_key(id@),
    {
        self.metadata.contains(id)
    }

    /// Hand the ledger back when the run is over, so the next run resumes
    /// against it.
    pub fn into_metadata(self) -> (r: Metadata)
        requires
            self.wf(),
        ensures
            r.wf(),
            r@ == self@.archived,
    {
        self.metadata
    }

    /// A point-in-time snapshot of the counters.
    pub fn stats(&self) -> (r: Stats)
        ensures
            r@ == self@.stats,
    {
        self.stats
    }

    /// The admission check: claim the entry's identifier, or refuse it when
    /// it is in flight or already archived, counting the skip.
    pub fn try_start(&mut self, item: &Item) -> (r: ShouldDownload)
        requires
            old(self).wf(),
            old(self)@.stats.skipped < u64::MAX,
        ensures
            final(self).wf(),
            final(self)@ == spec_admit(old(self)@, item@.id).0,
            r == spec_admit(old(self)@, item@.id).1,
    {
        let id = item.id();
        if self.in_progress_ids.contains(id.as_str()) || self.metadata.contains(id.as_str()) {
            self.stats.skipped = self.stats.skipped + 1;
            ShouldDownload::Skip
        } else {
            self.in_progress_ids.insert(id);
            ShouldDownload::Download
        }
    }

    /// Completion: release the claim; record and count a successful
    /// transfer, count a failed one and leave no record. A record already
    /// present (which correct admission control never lets happen) is left
    /// untouched and the entry counted as skipped, never a crash.
    pub fn done(&mut self, item: &Item, success: bool, download_time: UtcDate) -> (r: Outcome)
        requires
            old(self).wf(),
            old(self)@.stats.downloaded < u64::MAX,
            old(self)@.stats.skipped < u64::MAX,
            old(self)@.stats.errored < u64::MAX,
        ensures
            final(self).wf(),
            final(self)@ == spec_complete(old(self)@, item@, success, download_time),
            r == spec_complete_outcome(old(self)@, item@, success),
    {
        let id = item.id();
        self.in_progress_ids.remove(id.as_str());
        if success {
            let fs_path = item.fs_path();
            let record = Media::new(
                id.as_str(),
                fs_path.as_str(),
                item.creation_time(),
                download_time,
            );
            match self.metadata.insert(&record) {
                Ok(_) => {
                    self.stats.downloaded = self.stats.downloaded + 1;
                    Outcome::Downloaded
                },
                Err(_) => {
                    self.stats.skipped = self.stats.skipped + 1;
                    Outcome::Skipped
                },
            }
        } else {
            self.stats.errored = self.stats.errored + 1;
            Outcome::Errored
        }
    }

    /// One whole archival, admission through completion: `transfer_ok` says
    /// how the transfer went for an entry that was admitted (it is ignored
    /// for a skipped one), `download_time` stamps its record.
    pub fn archive_one(&mut self, item: &Item, transfer_ok: bool, download_time: UtcDate) -> (r:
        Outcome)
        requires
            old(self).wf(),
            old(self)@.stats.downloaded < u64::MAX,
            old(self)@.stats.skipped < u64::MAX,
            old(self)@.stats.errored < u64::MAX,
        ensures
            final(self).wf(),
            final(self)@ == spec_archive_one(old(self)@, item@, transfer_ok, download_time).0,
            r == spec_archive_one(old(self)@, item@, transfer_ok, download_time).1,
    {
        match self.try_start(item) {
            ShouldDownload::Skip => Outcome::Skipped,
            ShouldDownload::Download => {
                let r = self.done(item, transfer_ok, download_time);
                proof {
                    assert(old(self)@.in_flight.insert(item@.id).remove(item@.id)
                        =~= old(self)@.in_flight);
                    assert(self@ =~= spec_archive_one(
                        old(self)@,
                        item@,
                        transfer_ok,
                        download_time,
                    ).0);
                }
                r
            },
        }
    }

    /// Archive a batch of entries in order, entry by entry; `transfer_ok[i]`
    /// says how entry `i`'s transfer went where one was attempted.
    pub fn archive_batch(
        &mut self,
        items: &Vec<Item>,
        transfer_ok: &Vec<bool>,
        download_time: UtcDate,
    ) -> (outcomes: Vec<Outcome>)
        requires
            old(self).wf(),
            items@.len() == transfer_ok@.len(),
            old(self)@.stats.downloaded + items@.len() <= u64::MAX,
            old(self)@.stats.skipped + items@.len() <= u64::MAX,
            old(self)@.stats.errored + items@.len() <= u64::MAX,
        ensures
            final(self).wf(),
            final(self)@ == spec_archive_batch(
                old(self)@,
                item_views(items@),
                transfer_ok@,
                download_time,
            ).0,
            outcomes@ == spec_archive_batch(
                old(self)@,
                item_views(items@),
                transfer_ok@,
                download_time,
            ).1,
    {
        let ghost vitems: Seq<ItemView> = item_views(items@);
        let ghost voks: Seq<bool> = transfer_ok@;
        let ghost v0: StateView = old(self)@;
        let n = items.len();
        let mut outcomes: Vec<Outcome> = Vec::new();
        proof {
            assert(vitems.skip(0) =~= vitems);
            assert(voks.skip(0) =~= voks);
        }
        for i in 0..n
            invariant
                self.wf(),
                n == items@.len(),
                n == transfer_ok@.len(),
                vitems == item_views(items@),
                voks == transfer_ok@,
                outcomes@.len() == i,
                v0.stats.downloaded <= self@.stats.downloaded <= v0.stats.downloaded + i,
                v0.stats.skipped <= self@.stats.skipped <= v0.stats.skipped + i,
                v0.stats.errored <= self@.stats.errored <= v0.stats.errored + i,
                v0.stats.downloaded + n <= u64::MAX,
                v0.stats.skipped + n <= u64::MAX,
                v0.stats.errored + n <= u64::MAX,
                spec_archive_batch(v0, vitems, voks, download_time).0 == spec_archive_batch(
                    self@,
                    vitems.skip(i as int),
                    voks.skip(i as int),
                    download_time,
                ).0,
                spec_archive_batch(v0, vitems, voks, download_time).1 == outcomes@
                    + spec_archive_batch(
                    self@,
                    vitems.skip(i as int),
                    voks.skip(i as int),
                    download_time,
                ).1,
        {
            let ghost pre: StateView = self@;
            let r = self.archive_one(&items[i], transfer_ok[i], download_time);
            outcomes.push(r);
            proof {
                assert(vitems.skip(i as int)[0] == vitems[i as int]);
                assert(vitems.skip(i as int).drop_first() =~= vitems.skip(i + 1));
                assert(voks.skip(i as int).drop_first() =~= voks.skip(i + 1));
                assert(spec_archive_batch(
                    pre,
                    vitems.skip(i as int),
                    voks.skip(i as int),
                    download_time,
                ).1 =~= seq![r] + spec_archive_batch(
                    self@,
                    vitems.skip(i + 1),
                    voks.skip(i + 1),
                    download_time,
                ).1);
                assert(outcomes@ =~= outcomes@.subrange(0, i as int).push(r));
            }
        }
        proof {
            assert(vitems.skip(n as int) =~= Seq::<ItemView>::empty());
            assert(voks.skip(n as int) =~= Seq::<bool>::empty());
            assert(spec_archive_batch(v0, vitems, voks, download_time).1 =~= outcomes@);
        }
        outcomes
    }
}

} // verus!
