//! The photo downloader's verified core: partitioning photosets, the
//! bounded-concurrency schedule for single-photo sets, the all-or-nothing
//! resolution of multi-photo batches, the temp-file discipline of one
//! transfer, and destination naming.
//!
//! Transfers themselves are network and file I/O and run in the unverified
//! shell.  The shell owns one `TransferFile` per transfer, reports received
//! data and failures to it, and performs exactly the file actions the
//! machine hands back; under that discipline the machine's footprint tells
//! which files exist.

use vstd::prelude::*;

use crate::store::{Photoset, PhotosetV, photoset_views};
use crate::text::{dec_rep, is_digit, lemma_dec_rep_digits, lemma_dec_rep_injective};

verus! {

/// The concurrency cap for single-photo transfers.
pub const MAX_CONCURRENCY: usize = 4;

/// The single-photo photosets of a list, in order.
pub open spec fn spec_singles(ps: Seq<PhotosetV>) -> Seq<PhotosetV>
    decreases ps.len(),
{
    if ps.len() == 0 {
        Seq::empty()
    } else {
        let rest = spec_singles(ps.drop_last());
        if ps.last().photo_urls.len() == 1 {
            rest.push(ps.last())
        } else {
            rest
        }
    }
}

/// The multi-photo photosets of a list (every set not of exactly one
/// photo), in order.
pub open spec fn spec_multis(ps: Seq<PhotosetV>) -> Seq<PhotosetV>
    decreases ps.len(),
{
    if ps.len() == 0 {
        Seq::empty()
    } else {
        let rest = spec_multis(ps.drop_last());
        if ps.last().photo_urls.len() == 1 {
            rest
        } else {
            rest.push(ps.last())
        }
    }
}

impl Clone for Photoset {
    fn clone(&self) -> (r: Self)
        ensures
            r@ == self@,
    {
        let mut urls: Vec<String> = Vec::new();
        let mut i: usize = 0;
        while i < self.photo_urls.len()
            invariant
                0 <= i <= self.photo_urls@.len(),
                urls@.len() == i,
                forall|k: int| 0 <= k < i ==> (#[trigger] urls@[k])@ == self.photo_urls@[k]@,
            decreases self.photo_urls@.len() - i,
        {
            urls.push(self.photo_urls[i].clone());
            i = i + 1;
        }
        let r = Photoset {
            rowid: self.rowid,
            screen_name: self.screen_name.clone(),
            id_str: self.id_str.clone(),
            photo_urls: urls,
        };
        proof {
            assert(r@.photo_urls =~= self@.photo_urls);
            assert(r@ =~= self@);
        }
        r
    }
}

/// The downloader's work, split into the two processing modes: single-photo
/// sets run under the bounded concurrent scheduler, multi-photo sets run one
/// batch at a time.
pub struct Downloader {
    pub single_photo_photosets: Vec<Photoset>,
    pub multi_photo_photosets: Vec<Photoset>,
}

impl Downloader {
    /// Partitions the photosets by photo count, keeping order: exactly the
    /// one-photo sets go to the single list, all others to the multi list.
    #[verifier::loop_isolation(false)]
    pub fn new(photosets: Vec<Photoset>) -> (d: Downloader)
        ensures
            photoset_views(d.single_photo_photosets@) == spec_singles(photoset_views(photosets@)),
            photoset_views(d.multi_photo_photosets@) == spec_multis(photoset_views(photosets@)),
    {
        let ghost pv = photoset_views(photosets@);
        let mut singles: Vec<Photoset> = Vec::new();
        let mut multis: Vec<Photoset> = Vec::new();
        let mut i: usize = 0;
        while i < photosets.len()
            invariant
                0 <= i <= photosets@.len(),
                photoset_views(singles@) == spec_singles(pv.take(i as int)),
                photoset_views(multis@) == spec_multis(pv.take(i as int)),
            decreases photosets@.len() - i,
        {
            let ghost s0 = photoset_views(singles@);
            let ghost m0 = photoset_views(multis@);
            proof {
                assert(pv.take(i + 1).drop_last() =~= pv.take(i as int));
                assert(pv.take(i + 1).last() == pv[i as int]);
                assert(pv[i as int] == photosets@[i as int]@);
            }
            let p = photosets[i].clone();
            if p.photo_urls.len() == 1 {
                singles.push(p);
                proof {
                    assert(photoset_views(singles@) =~= s0.push(pv[i as int]));
                }
            } else {
                multis.push(p);
                proof {
                    assert(photoset_views(multis@) =~= m0.push(pv[i as int]));
                }
            }
            i = i + 1;
        }
        proof {
            assert(pv.take(pv.len() as int) =~= pv);
        }
        Downloader { single_photo_photosets: singles, multi_photo_photosets: multis }
    }
}

// ---------------------------------------------------------------------------
// Bounded-concurrency schedule for single-photo sets

/// The schedule of single-photo transfers: a fixed queue, a cursor past the
/// sets already started, and the number still in flight.  At most
/// `MAX_CONCURRENCY` transfers are ever in flight.
pub struct SingleScheduler {
    pub sets: Vec<Photoset>,
    pub next: usize,
    pub in_flight: usize,
}

impl SingleScheduler {
    /// The scheduler's invariant: the cursor stays within the queue and the
    /// in-flight count never exceeds the cap nor the number started.
    pub open spec fn wf(self) -> bool {
        &&& self.next <= self.sets@.len()
        &&& self.in_flight <= self.next
        &&& self.in_flight <= MAX_CONCURRENCY
    }

    /// A fresh schedule over a queue of sets.
    pub fn new(sets: Vec<Photoset>) -> (s: SingleScheduler)
        ensures
            s.wf(),
            s.sets == sets,
            s.next == 0,
            s.in_flight == 0,
    {
        SingleScheduler { sets, next: 0, in_flight: 0 }
    }

    /// Starts as many queued sets as fit under the cap; returns the range of
    /// queue indices to start now.  As transfers complete, calling this
    /// again immediately starts the next queued sets.
    pub fn start_jobs(&mut self) -> (range: (usize, usize))
        requires
            old(self).wf(),
        ensures
            final(self).wf(),
            final(self).sets == old(self).sets,
            range.0 == old(self).next,
            range.1 == final(self).next,
            final(self).next - old(self).next == final(self).in_flight - old(self).in_flight,
            final(self).in_flight <= MAX_CONCURRENCY,
            // fills up to the cap unless the queue runs out first
            final(self).in_flight == MAX_CONCURRENCY || final(self).next == final(self).sets@.len(),
    {
        let start = self.next;
        while self.in_flight < MAX_CONCURRENCY && self.next < self.sets.len()
            invariant
                self.wf(),
                self.sets == old(self).sets,
                start <= self.next,
                self.next - start == self.in_flight - old(self).in_flight,
                old(self).next == start,
                old(self).in_flight <= self.in_flight,
            decreases self.sets@.len() - self.next,
        {
            self.next = self.next + 1;
            self.in_flight = self.in_flight + 1;
        }
        (start, self.next)
    }

    /// Records one completed transfer, freeing a slot under the cap.
    pub fn on_complete(&mut self)
        requires
            old(self).wf(),
            old(self).in_flight > 0,
        ensures
            final(self).wf(),
            final(self).sets == old(self).sets,
            final(self).next == old(self).next,
            final(self).in_flight == old(self).in_flight - 1,
    {
        self.in_flight = self.in_flight - 1;
    }

    /// The schedule is exhausted: everything started and everything
    /// completed.
    pub fn is_done(&self) -> (b: bool)
        ensures
            b == (self.next == self.sets@.len() && self.in_flight == 0),
    {
        self.next == self.sets.len() && self.in_flight == 0
    }
}

// ---------------------------------------------------------------------------
// One transfer's file discipline

/// A file action the shell must perform, in order, on behalf of one
/// transfer.  The part file is the transfer's temporary sibling
/// (destination name plus the reserved suffix).
#[derive(Clone, Copy, Debug, PartialEq, Eq, Structural)]
pub enum FsAction {
    /// Create the part file, empty, ready for appending.
    CreatePart,
    /// Append the received bytes to the open part file.
    WriteChunk,
    /// Atomically rename the part file to the destination name.
    RenamePartToDest,
    /// Delete the part file.
    RemovePart,
}

/// Which of the transfer's two files exist on disk, assuming the shell
/// started from neither existing and performed every action handed back.
#[verifier::ext_equal]
pub ghost struct DiskV {
    pub part: bool,
    pub dest: bool,
}

/// The effect of one action on the transfer's two files.
pub open spec fn apply_action(d: DiskV, a: FsAction) -> DiskV {
    match a {
        FsAction::CreatePart => DiskV { part: true, ..d },
        FsAction::WriteChunk => d,
        FsAction::RenamePartToDest => DiskV { part: false, dest: true },
        FsAction::RemovePart => DiskV { part: false, ..d },
    }
}

/// The effect of a list of actions, applied in order.
pub open spec fn apply_actions(d: DiskV, acts: Seq<FsAction>) -> DiskV
    decreases acts.len(),
{
    if acts.len() == 0 {
        d
    } else {
        apply_action(apply_actions(d, acts.drop_last()), acts.last())
    }
}

/// Applying a single action.
pub proof fn lemma_apply_one(d: DiskV, a: FsAction)
    ensures
        apply_actions(d, seq![a]) == apply_action(d, a),
{
    assert(seq![a].drop_last() =~= Seq::<FsAction>::empty());
    assert(apply_actions(d, Seq::<FsAction>::empty()) == d);
}

/// Applying two actions in order.
pub proof fn lemma_apply_two(d: DiskV, a: FsAction, b: FsAction)
    ensures
        apply_actions(d, seq![a, b]) == apply_action(apply_action(d, a), b),
{
    lemma_apply_one(d, a);
    assert(seq![a, b].drop_last() =~= seq![a]);
    assert(seq![a, b].last() == b);
}

/// The lifecycle of a transfer's file handle.
#[derive(Clone, Copy, Debug, PartialEq, Eq, Structural)]
pub enum WriterFile {
    Unopened,
    Opened,
    Closed,
}

/// The bookkeeping of one transfer: its file state, whether an error has
/// poisoned it, and whether it was finalized (renamed to the destination).
pub struct TransferFile {
    pub dest: String,
    pub state: WriterFile,
    pub failed: bool,
    pub finalized: bool,
}

/// What a sequence of performed actions must have left on disk for this
/// bookkeeping state: the part file exists exactly while the handle is
/// open, the destination exactly once finalized.
pub open spec fn footprint(t: TransferFile) -> DiskV {
    DiskV { part: t.state is Opened, dest: t.finalized }
}

/// The clean disk: neither file exists.
pub open spec fn clean_disk() -> DiskV {
    DiskV { part: false, dest: false }
}

/// Receiving data: a closed handle poisons the transfer instead; otherwise
/// the part file is opened lazily on the first byte and appended to.
pub open spec fn spec_on_data(t: TransferFile) -> TransferFile {
    if t.failed {
        t
    } else {
        match t.state {
            WriterFile::Unopened => TransferFile { state: WriterFile::Opened, ..t },
            WriterFile::Opened => t,
            WriterFile::Closed => TransferFile { failed: true, ..t },
        }
    }
}

/// Finishing: a poisoned transfer refuses; otherwise the handle closes, and
/// a part file that was ever written is renamed to the destination.
pub open spec fn spec_finish(t: TransferFile) -> TransferFile {
    if t.failed {
        t
    } else if t.state is Opened {
        TransferFile { state: WriterFile::Closed, finalized: true, ..t }
    } else {
        TransferFile { state: WriterFile::Closed, ..t }
    }
}

/// The actions that receiving one chunk entails.
pub open spec fn spec_on_data_actions(t: TransferFile) -> Seq<FsAction> {
    if t.failed || t.state is Closed {
        Seq::empty()
    } else if t.state is Unopened {
        seq![FsAction::CreatePart, FsAction::WriteChunk]
    } else {
        seq![FsAction::WriteChunk]
    }
}

/// The actions that finishing entails: the rename exactly when a part file
/// was written.
pub open spec fn spec_finish_actions(t: TransferFile) -> Seq<FsAction> {
    if !t.failed && t.state is Opened {
        seq![FsAction::RenamePartToDest]
    } else {
        Seq::empty()
    }
}

/// The actions that discarding entails: the deletion exactly when a part
/// file exists.
pub open spec fn spec_discard_actions(t: TransferFile) -> Seq<FsAction> {
    if t.state is Opened {
        seq![FsAction::RemovePart]
    } else {
        Seq::empty()
    }
}

/// Discarding: the handle closes and the part file, if any, is deleted;
/// runs the same from every state, so cleanup works identically whether the
/// caller discards explicitly or abandons the transfer.
pub open spec fn spec_discard(t: TransferFile) -> TransferFile {
    TransferFile { state: WriterFile::Closed, ..t }
}

impl TransferFile {
    /// A fresh transfer toward `dest`.  No file exists yet: a transfer that
    /// never receives data never creates one.
    pub fn new(dest: String) -> (t: TransferFile)
        ensures
            t.dest == dest,
            t.state is Unopened,
            !t.failed,
            !t.finalized,
            footprint(t) == clean_disk(),
    {
        TransferFile { dest, state: WriterFile::Unopened, failed: false, finalized: false }
    }

    /// Absorbs one received chunk.  Returns the actions to perform and
    /// whether the data was accepted; data arriving after the handle closed
    /// poisons the transfer, as does an I/O failure reported through
    /// `mark_failed`.
    pub fn on_data(&mut self) -> (r: (Vec<FsAction>, bool))
        ensures
            *final(self) == spec_on_data(*old(self)),
            r.1 == (!old(self).failed && !(old(self).state is Closed)),
            r.0@ == spec_on_data_actions(*old(self)),
            apply_actions(footprint(*old(self)), r.0@) == footprint(*final(self)),
            final(self).finalized == old(self).finalized,
    {
        if self.failed {
            let acts: Vec<FsAction> = Vec::new();
            proof {
                assert(acts@ =~= spec_on_data_actions(*old(self)));
                assert(apply_actions(footprint(*old(self)), acts@) == footprint(*self));
            }
            return (acts, false);
        }
        match self.state {
            WriterFile::Unopened => {
                self.state = WriterFile::Opened;
                let mut acts: Vec<FsAction> = Vec::new();
                acts.push(FsAction::CreatePart);
                acts.push(FsAction::WriteChunk);
                proof {
                    assert(acts@ =~= seq![FsAction::CreatePart, FsAction::WriteChunk]);
                    lemma_apply_two(
                        footprint(*old(self)),
                        FsAction::CreatePart,
                        FsAction::WriteChunk,
                    );
                    assert(apply_actions(footprint(*old(self)), acts@) =~= footprint(*self));
                }
                (acts, true)
            },
            WriterFile::Opened => {
                let mut acts: Vec<FsAction> = Vec::new();
                acts.push(FsAction::WriteChunk);
                proof {
                    assert(acts@ =~= seq![FsAction::WriteChunk]);
                    lemma_apply_one(footprint(*old(self)), FsAction::WriteChunk);
                    assert(apply_actions(footprint(*old(self)), acts@) =~= footprint(*self));
                }
                (acts, true)
            },
            WriterFile::Closed => {
                self.failed = true;
                let acts: Vec<FsAction> = Vec::new();
                proof {
                    assert(acts@ =~= spec_on_data_actions(*old(self)));
                    assert(apply_actions(footprint(*old(self)), acts@) == footprint(*self));
                }
                (acts, false)
            },
        }
    }

    /// Records an I/O failure reported by the shell for this transfer's
    /// part file.
    pub fn mark_failed(&mut self)
        ensures
            *final(self) == (TransferFile { failed: true, ..*old(self) }),
            footprint(*final(self)) == footprint(*old(self)),
    {
        self.failed = true;
    }

    /// Finalizes the transfer on success: closes the handle and, if a part
    /// file was written, renames it to the destination.  A poisoned
    /// transfer refuses and is left for `discard_part`.
    pub fn finish(&mut self) -> (r: Result<Vec<FsAction>, ()>)
        ensures
            match r {
                Result::Ok(acts) => {
                    &&& !old(self).failed
                    &&& *final(self) == spec_finish(*old(self))
                    &&& acts@ == spec_finish_actions(*old(self))
                    &&& apply_actions(footprint(*old(self)), acts@) == footprint(*final(self))
                },
                Result::Err(_) => {
                    &&& old(self).failed
                    &&& *final(self) == *old(self)
                },
            },
            final(self).finalized == (old(self).finalized || (!old(self).failed && old(
                self,
            ).state is Opened)),
    {
        if self.failed {
            return Err(());
        }
        match self.state {
            WriterFile::Opened => {
                self.state = WriterFile::Closed;
                self.finalized = true;
                let mut acts: Vec<FsAction> = Vec::new();
                acts.push(FsAction::RenamePartToDest);
                proof {
                    assert(acts@ =~= seq![FsAction::RenamePartToDest]);
                    lemma_apply_one(footprint(*old(self)), FsAction::RenamePartToDest);
                    assert(apply_actions(footprint(*old(self)), acts@) =~= footprint(*self));
                }
                Ok(acts)
            },
            _ => {
                self.state = WriterFile::Closed;
                let acts: Vec<FsAction> = Vec::new();
                proof {
                    assert(acts@ =~= spec_finish_actions(*old(self)));
                    assert(apply_actions(footprint(*old(self)), acts@) == footprint(*self));
                }
                Ok(acts)
            },
        }
    }

    /// Discards the transfer: closes the handle and deletes the part file
    /// if one exists.  This is the cleanup path for errors, explicit
    /// discard, and abandonment alike.
    pub fn discard_part(&mut self) -> (acts: Vec<FsAction>)
        ensures
            *final(self) == spec_discard(*old(self)),
            acts@ == spec_discard_actions(*old(self)),
            apply_actions(footprint(*old(self)), acts@) == footprint(*final(self)),
            final(self).finalized == old(self).finalized,
            !(footprint(*final(self)).part),
    {
        match self.state {
            WriterFile::Opened => {
                self.state = WriterFile::Closed;
                let mut acts: Vec<FsAction> = Vec::new();
                acts.push(FsAction::RemovePart);
                proof {
                    assert(acts@ =~= seq![FsAction::RemovePart]);
                    lemma_apply_one(footprint(*old(self)), FsAction::RemovePart);
                    assert(apply_actions(footprint(*old(self)), acts@) =~= footprint(*self));
                }
                acts
            },
            _ => {
                self.state = WriterFile::Closed;
                let acts: Vec<FsAction> = Vec::new();
                proof {
                    assert(acts@ =~= spec_discard_actions(*old(self)));
                    assert(apply_actions(footprint(*old(self)), acts@) == footprint(*self));
                }
                acts
            },
        }
    }
}

/// Partial-file hygiene: a transfer that was never successfully finalized
/// and is then discarded — aborted or abandoned — leaves neither a part
/// file nor a destination file on disk, from whatever state it was in.
pub proof fn lemma_partial_file_hygiene(t: TransferFile)
    requires
        !t.finalized,
    ensures
        footprint(spec_discard(t)) == clean_disk(),
{
    assert(footprint(spec_discard(t)) =~= clean_disk());
}

// ---------------------------------------------------------------------------
// All-or-nothing resolution of a multi-photo batch

/// Every transfer of the batch succeeded.
pub open spec fn spec_all_ok(outcomes: Seq<bool>) -> bool {
    forall|i: int| 0 <= i < outcomes.len() ==> outcomes[i]
}

/// What one batch resolution asks of the shell: for each transfer of the
/// batch, in order, the file actions to perform, and whether to invoke the
/// completion callback for the set (which is what marks the photoset
/// downloaded in the store).
pub struct BatchResolution {
    pub actions: Vec<Vec<FsAction>>,
    pub report_set: bool,
}

/// Resolves a multi-photo batch after all its transfers ended.  With any
/// transfer failed, every transfer is discarded: no rename is issued, no
/// destination file remains, and the callback is withheld so the set stays
/// eligible for retry.  With every transfer succeeded, each file is
/// finalized; the callback is invoked only when every finalize succeeded.
#[verifier::loop_isolation(false)]
pub fn resolve_multi_batch(files: &mut Vec<TransferFile>, all_ok: bool) -> (r: BatchResolution)
    requires
        forall|i: int| 0 <= i < old(files)@.len() ==> !(#[trigger] old(files)@[i]).finalized,
    ensures
        final(files)@.len() == old(files)@.len(),
        r.actions@.len() == old(files)@.len(),
        !all_ok ==> {
            &&& !r.report_set
            &&& forall|i: int|
                0 <= i < final(files)@.len() ==> footprint(#[trigger] final(files)@[i])
                    == clean_disk()
            &&& forall|i: int|
                0 <= i < r.actions@.len() ==> (#[trigger] r.actions@[i])@ == spec_discard_actions(
                    old(files)@[i],
                )
            &&& forall|i: int, k: int|
                0 <= i < r.actions@.len() && 0 <= k < r.actions@[i]@.len() ==> !((
                #[trigger] r.actions@[i]@[k]) is RenamePartToDest)
        },
        all_ok ==> {
            &&& r.report_set == (forall|i: int|
                0 <= i < old(files)@.len() ==> !(#[trigger] old(files)@[i]).failed)
            &&& forall|i: int|
                0 <= i < final(files)@.len() ==> !(footprint(#[trigger] final(files)@[i]).part)
        },
{
    let mut actions: Vec<Vec<FsAction>> = Vec::new();
    if !all_ok {
        let mut i: usize = 0;
        while i < files.len()
            invariant
                0 <= i <= files@.len(),
                files@.len() == old(files)@.len(),
                actions@.len() == i,
                forall|k: int|
                    0 <= k < i ==> footprint(#[trigger] files@[k]) == clean_disk(),
                forall|k: int|
                    i <= k < files@.len() ==> #[trigger] files@[k] == old(files)@[k],
                forall|k: int|
                    0 <= k < i ==> (#[trigger] actions@[k])@ == spec_discard_actions(
                        old(files)@[k],
                    ),
            decreases files@.len() - i,
        {
            let mut f = TransferFile::new(String::new());
            files.set_and_swap(i, &mut f);
            proof {
                lemma_partial_file_hygiene(f);
            }
            let acts = f.discard_part();
            actions.push(acts);
            files.set_and_swap(i, &mut f);
            i = i + 1;
        }
        proof {
            assert forall|i: int, k: int|
                0 <= i < actions@.len() && 0 <= k < actions@[i]@.len() implies !((
            #[trigger] actions@[i]@[k]) is RenamePartToDest) by {
                assert(actions@[i]@ == spec_discard_actions(old(files)@[i]));
            }
        }
        BatchResolution { actions, report_set: false }
    } else {
        let mut all_finish_ok = true;
        let mut i: usize = 0;
        while i < files.len()
            invariant
                0 <= i <= files@.len(),
                files@.len() == old(files)@.len(),
                actions@.len() == i,
                forall|k: int|
                    0 <= k < i ==> !(footprint(#[trigger] files@[k]).part),
                forall|k: int|
                    i <= k < files@.len() ==> #[trigger] files@[k] == old(files)@[k],
                all_finish_ok == (forall|k: int|
                    0 <= k < i ==> !(#[trigger] old(files)@[k]).failed),
            decreases files@.len() - i,
        {
            let mut f = TransferFile::new(String::new());
            files.set_and_swap(i, &mut f);
            match f.finish() {
                Ok(acts) => {
                    actions.push(acts);
                },
                Err(_) => {
                    all_finish_ok = false;
                    let acts = f.discard_part();
                    actions.push(acts);
                },
            }
            proof {
                assert(!(footprint(f).part));
            }
            files.set_and_swap(i, &mut f);
            i = i + 1;
        }
        BatchResolution { actions, report_set: all_finish_ok }
    }
}

/// Download atomicity for a multi-photo batch: if any transfer of the batch
/// fails, the batch resolution discards every transfer — no destination
/// file exists for any of the photos afterward, no rename is ever issued,
/// and the completion callback is withheld, so the source row's downloaded
/// timestamp remains unset and the whole set is retried on a future run.
pub proof fn lemma_batch_atomicity(outcomes: Seq<bool>, files: Seq<TransferFile>, k: int)
    requires
        0 <= k < outcomes.len(),
        !outcomes[k],
        forall|i: int| 0 <= i < files.len() ==> !(#[trigger] files[i]).finalized,
    ensures
        !spec_all_ok(outcomes),
        forall|i: int|
            0 <= i < files.len() ==> footprint(spec_discard(#[trigger] files[i])) == clean_disk(),
{
    assert(!spec_all_ok(outcomes));
    assert forall|i: int|
        0 <= i < files.len() implies footprint(spec_discard(#[trigger] files[i]))
        == clean_disk() by {
        lemma_partial_file_hygiene(files[i]);
    }
}


// ---------------------------------------------------------------------------
// Destination naming

/// The base name of a photo URL: the last segment of its path.  The result
/// depends on the URL text alone.
pub uninterp spec fn url_base_name(u: Seq<char>) -> Option<Seq<char>>;

/// Relies on url::Url::parse and url::Url::path_segments: parsing a URL and
/// taking the last segment of its path is a function of the URL text alone;
/// both return nothing for text that is no URL or has no segmented path.
#[verifier::external_body]
fn photo_url_file_name(photo_url: &str) -> (r: Option<String>)
    ensures
        match r {
            Option::Some(name) => url_base_name(photo_url@) == Option::Some(name@),
            Option::None => url_base_name(photo_url@) is None,
        },
{
    let url = match url::Url::parse(photo_url) {
        Ok(url) => url,
        Err(_) => return None,
    };
    url.path_segments().and_then(|segs| segs.last()).map(|name| name.to_owned())
}

/// The destination name of one photo: `@{author}-{record id}-img{index}-{base}`,
/// written into the working directory.  A pure function of its four inputs.
pub open spec fn spec_photo_file_name(
    screen_name: Seq<char>,
    id_str: Seq<char>,
    index: int,
    base: Seq<char>,
) -> Seq<char> {
    seq!['@'] + screen_name + seq!['-'] + id_str + seq!['-'] + seq!['i', 'm', 'g'] + dec_rep(index)
        + seq!['-'] + base
}

/// Builds the destination path of the photo at the given 1-based index of a
/// photoset; nothing when the URL yields no base name.
pub fn build_photo_path(photoset: &Photoset, photo_url: &str, index: usize) -> (r: Option<String>)
    ensures
        match r {
            Option::Some(p) => url_base_name(photo_url@) is Some && p@ == spec_photo_file_name(
                photoset@.screen_name,
                photoset@.id_str,
                index as int,
                url_base_name(photo_url@)->0,
            ),
            Option::None => url_base_name(photo_url@) is None,
        },
{
    let base = match photo_url_file_name(photo_url) {
        Some(base) => base,
        None => return None,
    };
    let mut out = String::new();
    out.append("@");
    out.append(photoset.screen_name.as_str());
    out.append("-");
    out.append(photoset.id_str.as_str());
    out.append("-img");
    crate::text::push_dec(index as u64, &mut out);
    out.append("-");
    out.append(base.as_str());
    proof {
        reveal_strlit("@");
        reveal_strlit("-");
        reveal_strlit("-img");
        assert("@"@ =~= seq!['@']);
        assert("-"@ =~= seq!['-']);
        assert("-img"@ =~= seq!['-', 'i', 'm', 'g']);
        assert(out@ =~= spec_photo_file_name(
            photoset@.screen_name,
            photoset@.id_str,
            index as int,
            base@,
        ));
    }
    Some(out)
}

/// Two texts joined by a separator absent from both heads decompose one
/// way.
proof fn lemma_sep_concat_injective(x1: Seq<char>, y1: Seq<char>, x2: Seq<char>, y2: Seq<char>)
    requires
        forall|i: int| 0 <= i < x1.len() ==> x1[i] != '-',
        forall|i: int| 0 <= i < x2.len() ==> x2[i] != '-',
        x1 + seq!['-'] + y1 == x2 + seq!['-'] + y2,
    ensures
        x1 == x2,
        y1 == y2,
{
    let s = x1 + seq!['-'] + y1;
    if x1.len() < x2.len() {
        assert(s[x1.len() as int] == '-');
        assert((x2 + seq!['-'] + y2)[x1.len() as int] == x2[x1.len() as int]);
        assert(false);
    }
    if x2.len() < x1.len() {
        assert(s[x2.len() as int] == x1[x2.len() as int]);
        assert((x2 + seq!['-'] + y2)[x2.len() as int] == '-');
        assert(false);
    }
    assert forall|i: int| 0 <= i < x1.len() implies x1[i] == x2[i] by {
        assert(s[i] == x1[i]);
        assert((x2 + seq!['-'] + y2)[i] == x2[i]);
    }
    assert(x1 =~= x2);
    assert((x1 + seq!['-'] + y1).len() == x1.len() + 1 + y1.len());
    assert((x2 + seq!['-'] + y2).len() == x2.len() + 1 + y2.len());
    assert(y1.len() == y2.len());
    assert forall|j: int| 0 <= j < y1.len() implies y1[j] == y2[j] by {
        assert(s[x1.len() + 1 + j] == y1[j]);
        assert((x2 + seq!['-'] + y2)[x2.len() + 1 + j] == y2[j]);
    }
    assert(y1 =~= y2);
}

/// Path determinism and collision freedom: the naming function is pure, and
/// for author handles and record ids free of the separator (handles are
/// alphanumeric, ids decimal), distinct (author, id, index) triples never
/// collide — equal paths force equal authors, ids, indices, and base names.
pub proof fn lemma_photo_path_injective(
    a1: Seq<char>,
    d1: Seq<char>,
    k1: int,
    b1: Seq<char>,
    a2: Seq<char>,
    d2: Seq<char>,
    k2: int,
    b2: Seq<char>,
)
    requires
        forall|i: int| 0 <= i < a1.len() ==> #[trigger] a1[i] != '-',
        forall|i: int| 0 <= i < a2.len() ==> #[trigger] a2[i] != '-',
        forall|i: int| 0 <= i < d1.len() ==> is_digit(#[trigger] d1[i]),
        forall|i: int| 0 <= i < d2.len() ==> is_digit(#[trigger] d2[i]),
        k1 >= 0,
        k2 >= 0,
        spec_photo_file_name(a1, d1, k1, b1) == spec_photo_file_name(a2, d2, k2, b2),
    ensures
        a1 == a2,
        d1 == d2,
        k1 == k2,
        b1 == b2,
{
    let img = seq!['i', 'm', 'g'];
    let h1 = seq!['@'] + a1;
    let h2 = seq!['@'] + a2;
    let t1 = d1 + seq!['-'] + (img + dec_rep(k1)) + seq!['-'] + b1;
    let t2 = d2 + seq!['-'] + (img + dec_rep(k2)) + seq!['-'] + b2;
    assert(spec_photo_file_name(a1, d1, k1, b1) =~= h1 + seq!['-'] + t1);
    assert(spec_photo_file_name(a2, d2, k2, b2) =~= h2 + seq!['-'] + t2);
    assert forall|i: int| 0 <= i < h1.len() implies h1[i] != '-' by {
        if i > 0 {
            assert(h1[i] == a1[i - 1]);
        }
    }
    assert forall|i: int| 0 <= i < h2.len() implies h2[i] != '-' by {
        if i > 0 {
            assert(h2[i] == a2[i - 1]);
        }
    }
    lemma_sep_concat_injective(h1, t1, h2, t2);
    assert forall|i: int| 0 <= i < a1.len() implies a1[i] == a2[i] by {
        assert(h1[i + 1] == a1[i]);
        assert(h2[i + 1] == a2[i]);
    }
    assert(a1 =~= a2);
    assert forall|i: int| 0 <= i < d1.len() implies d1[i] != '-' by {
        assert(is_digit(d1[i]));
    }
    assert forall|i: int| 0 <= i < d2.len() implies d2[i] != '-' by {
        assert(is_digit(d2[i]));
    }
    let m1 = img + dec_rep(k1);
    let m2 = img + dec_rep(k2);
    assert(t1 =~= d1 + seq!['-'] + (m1 + seq!['-'] + b1));
    assert(t2 =~= d2 + seq!['-'] + (m2 + seq!['-'] + b2));
    lemma_sep_concat_injective(d1, m1 + seq!['-'] + b1, d2, m2 + seq!['-'] + b2);
    lemma_dec_rep_digits(k1);
    lemma_dec_rep_digits(k2);
    assert forall|i: int| 0 <= i < m1.len() implies m1[i] != '-' by {
        if i >= 3 {
            assert(m1[i] == dec_rep(k1)[i - 3]);
            assert(is_digit(dec_rep(k1)[i - 3]));
        }
    }
    assert forall|i: int| 0 <= i < m2.len() implies m2[i] != '-' by {
        if i >= 3 {
            assert(m2[i] == dec_rep(k2)[i - 3]);
            assert(is_digit(dec_rep(k2)[i - 3]));
        }
    }
    lemma_sep_concat_injective(m1, b1, m2, b2);
    assert forall|i: int| 0 <= i < dec_rep(k1).len() implies dec_rep(k1)[i] == dec_rep(k2)[i] by {
        assert(m1[i + 3] == dec_rep(k1)[i]);
        assert(m2[i + 3] == dec_rep(k2)[i]);
    }
    assert(dec_rep(k1) =~= dec_rep(k2));
    lemma_dec_rep_injective(k1, k2);
}

// ---------------------------------------------------------------------------
// The part-file sibling of a destination path

/// The path with its trailing separators removed.
pub open spec fn spec_trim_trailing_slashes(s: Seq<char>) -> Seq<char>
    decreases s.len(),
{
    if s.len() > 0 && s.last() == '/' {
        spec_trim_trailing_slashes(s.drop_last())
    } else {
        s
    }
}

/// The temporary sibling of a destination path: the path, trailing
/// separators removed, with the reserved suffix appended; nothing remains
/// of a root or empty path to name a sibling after.
pub open spec fn spec_part_path(s: Seq<char>) -> Option<Seq<char>> {
    let t = spec_trim_trailing_slashes(s);
    if t.len() == 0 {
        Option::None
    } else {
        Option::Some(t + ".part"@)
    }
}

/// Builds the part-file path a transfer writes to before its atomic rename
/// to `dest`.
#[verifier::loop_isolation(false)]
pub fn make_part_path(dest: &str) -> (r: Option<String>)
    ensures
        match r {
            Option::Some(p) => spec_part_path(dest@) == Option::Some(p@),
            Option::None => spec_part_path(dest@) is None,
        },
{
    let len = dest.unicode_len();
    let mut end = len;
    proof {
        assert(dest@.take(len as int) =~= dest@);
    }
    while end > 0 && dest.get_char(end - 1) == '/'
        invariant
            0 <= end <= len,
            spec_trim_trailing_slashes(dest@) == spec_trim_trailing_slashes(
                dest@.take(end as int),
            ),
        decreases end,
    {
        proof {
            assert(dest@.take(end as int).last() == dest@[end - 1]);
            assert(dest@.take(end as int).drop_last() =~= dest@.take(end - 1));
        }
        end = end - 1;
    }
    proof {
        if end > 0 {
            assert(dest@.take(end as int).last() == dest@[end - 1]);
        }
        assert(spec_trim_trailing_slashes(dest@.take(end as int)) == dest@.take(end as int));
    }
    if end == 0 {
        return None;
    }
    let prefix = dest.substring_char(0, end);
    proof {
        assert(prefix@ =~= dest@.take(end as int));
    }
    let mut out = String::from_str(prefix);
    out.append(".part");
    Some(out)
}

} // verus!
