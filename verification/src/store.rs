//! The record store: a deduplicating, prunable archive of fetched records.
//!
//! The store holds every record at most once, across an active table and a
//! pruned-summary table; an id present in either is never reinserted.  The
//! unverified shell persists this state in SQLite and replays the verified
//! operations against it; every operation here states exactly what it does
//! to the two tables.

use vstd::prelude::*;

use crate::text::dec_rep;

verus! {

/// The author of a record, as carried inside its payload.
pub struct TweetUser {
    pub id: u64,
    pub screen_name: String,
}

/// One entry of a record's media list.
pub struct MediaItem {
    pub url: String,
    pub is_photo: bool,
}

/// The media field of a record's payload, parsed into the shape the store
/// reads.  A payload whose media field does not parse is `Malformed`: a
/// representable outcome, never an unchecked assumption.
pub enum MediaField {
    Absent,
    Malformed,
    Entries(Vec<MediaItem>),
}

/// A record as it arrives from the feed: its numeric id, the raw wire
/// payload kept verbatim, and the payload fields the store logic reads.
pub struct Tweet {
    pub id: u64,
    pub json: String,
    pub user: Option<TweetUser>,
    pub media: MediaField,
}

/// A row of the active table.
pub struct StoredRecord {
    pub rowid: i64,
    pub id: u64,
    pub json: String,
    pub user: Option<TweetUser>,
    pub media: MediaField,
    pub in_timeline: bool,
    pub recorded_at: u64,
    pub photos_downloaded_at: Option<u64>,
}

/// A row of the pruned table: the denormalized summary that pruning leaves
/// behind.  Produced only by pruning an active row, never created directly.
pub struct PrunedRecord {
    pub id: u64,
    pub user: Option<TweetUser>,
    pub media: MediaField,
    pub in_timeline: bool,
    pub recorded_at: u64,
    pub photos_downloaded_at: Option<u64>,
    pub pruned_at: u64,
}

/// The ordered group of photo URLs attached to one record, derived on read;
/// downloaded and finalized as a unit.
#[derive(Debug, PartialEq)]
pub struct Photoset {
    pub rowid: i64,
    pub screen_name: String,
    pub id_str: String,
    pub photo_urls: Vec<String>,
}

/// How to treat a malformed media field: skip the row in production, fail
/// loudly under test instrumentation.
#[derive(Clone, Copy, PartialEq, Eq, Structural, Debug)]
pub enum MediaPolicy {
    Conservative,
    Strict,
}

/// A data-integrity failure the store reports instead of guessing.
#[derive(Clone, Copy, Debug, PartialEq, Eq)]
pub enum StoreError {
    MalformedMedia { id: u64 },
}

// ---------------------------------------------------------------------------
// Mathematical views

#[verifier::ext_equal]
pub ghost struct TweetUserV {
    pub id: u64,
    pub screen_name: Seq<char>,
}

#[verifier::ext_equal]
pub ghost struct MediaItemV {
    pub url: Seq<char>,
    pub is_photo: bool,
}

#[verifier::ext_equal]
pub ghost enum MediaV {
    Absent,
    Malformed,
    Entries(Seq<MediaItemV>),
}

#[verifier::ext_equal]
pub ghost struct TweetV {
    pub id: u64,
    pub json: Seq<char>,
    pub user: Option<TweetUserV>,
    pub media: MediaV,
}

#[verifier::ext_equal]
pub ghost struct RecordV {
    pub rowid: int,
    pub id: u64,
    pub json: Seq<char>,
    pub user: Option<TweetUserV>,
    pub media: MediaV,
    pub in_timeline: bool,
    pub recorded_at: u64,
    pub photos_downloaded_at: Option<u64>,
}

#[verifier::ext_equal]
pub ghost struct PrunedV {
    pub id: u64,
    pub user: Option<TweetUserV>,
    pub media: MediaV,
    pub in_timeline: bool,
    pub recorded_at: u64,
    pub photos_downloaded_at: Option<u64>,
    pub pruned_at: u64,
}

#[verifier::ext_equal]
pub ghost struct PhotosetV {
    pub rowid: int,
    pub screen_name: Seq<char>,
    pub id_str: Seq<char>,
    pub photo_urls: Seq<Seq<char>>,
}

#[verifier::ext_equal]
pub ghost struct StoreV {
    pub records: Seq<RecordV>,
    pub pruned: Seq<PrunedV>,
    pub next_rowid: int,
}

pub open spec fn user_view(u: Option<TweetUser>) -> Option<TweetUserV> {
    match u {
        Option::None => Option::None,
        Option::Some(user) => Option::Some(
            TweetUserV { id: user.id, screen_name: user.screen_name@ },
        ),
    }
}

impl View for MediaItem {
    type V = MediaItemV;

    open spec fn view(&self) -> MediaItemV {
        MediaItemV { url: self.url@, is_photo: self.is_photo }
    }
}

/// The views of a media list.
pub open spec fn media_items_view(items: Seq<MediaItem>) -> Seq<MediaItemV> {
    items.map_values(|it: MediaItem| it@)
}

impl View for MediaField {
    type V = MediaV;

    open spec fn view(&self) -> MediaV {
        match self {
            MediaField::Absent => MediaV::Absent,
            MediaField::Malformed => MediaV::Malformed,
            MediaField::Entries(items) => MediaV::Entries(media_items_view(items@)),
        }
    }
}

impl View for Tweet {
    type V = TweetV;

    open spec fn view(&self) -> TweetV {
        TweetV { id: self.id, json: self.json@, user: user_view(self.user), media: self.media@ }
    }
}

impl View for StoredRecord {
    type V = RecordV;

    open spec fn view(&self) -> RecordV {
        RecordV {
            rowid: self.rowid as int,
            id: self.id,
            json: self.json@,
            user: user_view(self.user),
            media: self.media@,
            in_timeline: self.in_timeline,
            recorded_at: self.recorded_at,
            photos_downloaded_at: self.photos_downloaded_at,
        }
    }
}

impl View for PrunedRecord {
    type V = PrunedV;

    open spec fn view(&self) -> PrunedV {
        PrunedV {
            id: self.id,
            user: user_view(self.user),
            media: self.media@,
            in_timeline: self.in_timeline,
            recorded_at: self.recorded_at,
            photos_downloaded_at: self.photos_downloaded_at,
            pruned_at: self.pruned_at,
        }
    }
}

impl View for Photoset {
    type V = PhotosetV;

    open spec fn view(&self) -> PhotosetV {
        PhotosetV {
            rowid: self.rowid as int,
            screen_name: self.screen_name@,
            id_str: self.id_str@,
            photo_urls: self.photo_urls@.map_values(|u: String| u@),
        }
    }
}

/// The views of a batch of incoming records.
pub open spec fn tweet_views(ts: Seq<Tweet>) -> Seq<TweetV> {
    ts.map_values(|t: Tweet| t@)
}

// ---------------------------------------------------------------------------
// The store and its invariant

/// The store: the active table, the pruned table, and the next fresh row
/// identifier.
pub struct Store {
    pub records: Vec<StoredRecord>,
    pub pruned: Vec<PrunedRecord>,
    pub next_rowid: i64,
}

impl View for Store {
    type V = StoreV;

    open spec fn view(&self) -> StoreV {
        StoreV {
            records: self.records@.map_values(|r: StoredRecord| r@),
            pruned: self.pruned@.map_values(|r: PrunedRecord| r@),
            next_rowid: self.next_rowid as int,
        }
    }
}

impl StoreV {
    /// An id stands in the active table.
    pub open spec fn active_has(self, id: u64) -> bool {
        exists|i: int| 0 <= i < self.records.len() && self.records[i].id == id
    }

    /// An id stands in the pruned table.
    pub open spec fn pruned_has(self, id: u64) -> bool {
        exists|i: int| 0 <= i < self.pruned.len() && self.pruned[i].id == id
    }

    /// An id has been recorded, in whichever table it now lives.
    pub open spec fn seen(self, id: u64) -> bool {
        self.active_has(id) || self.pruned_has(id)
    }

    /// The store's invariant: an id exists in at most one of the two tables,
    /// never duplicated within either; row identifiers are unique and below
    /// the next fresh one.
    pub open spec fn wf(self) -> bool {
        &&& forall|i: int, j: int|
            0 <= i < j < self.records.len() ==> (#[trigger] self.records[i]).id != (
            #[trigger] self.records[j]).id
        &&& forall|i: int, j: int|
            0 <= i < j < self.pruned.len() ==> (#[trigger] self.pruned[i]).id != (
            #[trigger] self.pruned[j]).id
        &&& forall|i: int, j: int|
            0 <= i < self.records.len() && 0 <= j < self.pruned.len() ==> (
            #[trigger] self.records[i]).id != (#[trigger] self.pruned[j]).id
        &&& forall|i: int, j: int|
            0 <= i < j < self.records.len() ==> (#[trigger] self.records[i]).rowid != (
            #[trigger] self.records[j]).rowid
        &&& forall|i: int|
            0 <= i < self.records.len() ==> 0 <= (#[trigger] self.records[i]).rowid
                < self.next_rowid
        &&& 0 <= self.next_rowid <= i64::MAX
    }
}

impl Store {
    /// A fresh, empty store.
    pub fn new() -> (s: Store)
        ensures
            s@.wf(),
            s@.records.len() == 0,
            s@.pruned.len() == 0,
            s@.next_rowid == 0,
    {
        Store { records: Vec::new(), pruned: Vec::new(), next_rowid: 0 }
    }

    /// The number of active records.
    pub fn count_tweets(&self) -> (n: u64)
        requires
            self.records@.len() <= u64::MAX,
        ensures
            n == self@.records.len(),
    {
        self.records.len() as u64
    }

    /// A set holding exactly the recorded ids of both tables.
    fn seen_id_set(&self) -> (hs: std::collections::HashSet<u64>)
        ensures
            forall|id: u64| hs@.contains(id) <==> self@.seen(id),
    {
        let mut hs: std::collections::HashSet<u64> = std::collections::HashSet::new();
        let ghost v = self@;
        let mut i: usize = 0;
        while i < self.records.len()
            invariant
                0 <= i <= self.records.len(),
                v == self@,
                v.records.len() == self.records.len(),
                forall|id: u64|
                    hs@.contains(id) <==> exists|k: int|
                        0 <= k < i && (#[trigger] v.records[k]).id == id,
            decreases self.records.len() - i,
        {
            let id = self.records[i].id;
            proof {
                assert(v.records[i as int].id == id);
            }
            hs.insert(id);
            proof {
                assert forall|x: u64| hs@.contains(x) implies exists|k: int|
                    0 <= k < i + 1 && (#[trigger] v.records[k]).id == x by {
                    if x == id {
                        assert(0 <= i < i + 1 && v.records[i as int].id == x);
                    } else {
                        let k = choose|k: int| 0 <= k < i && (#[trigger] v.records[k]).id == x;
                        assert(0 <= k < i + 1 && v.records[k].id == x);
                    }
                }
            }
            i = i + 1;
        }
        let mut j: usize = 0;
        while j < self.pruned.len()
            invariant
                0 <= j <= self.pruned.len(),
                v == self@,
                v.pruned.len() == self.pruned.len(),
                forall|id: u64|
                    hs@.contains(id) <==> v.active_has(id) || exists|k: int|
                        0 <= k < j && (#[trigger] v.pruned[k]).id == id,
            decreases self.pruned.len() - j,
        {
            let id = self.pruned[j].id;
            proof {
                assert(v.pruned[j as int].id == id);
            }
            let ghost hs0 = hs@;
            hs.insert(id);
            proof {
                assert forall|x: u64| hs@.contains(x) implies v.active_has(x) || exists|k: int|
                    0 <= k < j + 1 && (#[trigger] v.pruned[k]).id == x by {
                    if x == id {
                        assert(0 <= j < j + 1 && v.pruned[j as int].id == x);
                    } else if !v.active_has(x) {
                        assert(hs0.contains(x));
                        let k = choose|k: int| 0 <= k < j && (#[trigger] v.pruned[k]).id == x;
                        assert(0 <= k < j + 1 && v.pruned[k].id == x);
                    }
                }
                assert forall|x: u64|
                    v.active_has(x) || (exists|k: int|
                        0 <= k < j + 1 && (#[trigger] v.pruned[k]).id == x) implies hs@.contains(
                    x,
                ) by {
                    if v.active_has(x) {
                        assert(hs0.contains(x));
                    } else if x != id {
                        let k = choose|k: int|
                            0 <= k < j + 1 && (#[trigger] v.pruned[k]).id == x;
                        assert(0 <= k < j && v.pruned[k].id == x);
                        assert(hs0.contains(x));
                    }
                }
            }
            j = j + 1;
        }
        proof {
            assert forall|id: u64| hs@.contains(id) <==> v.seen(id) by {
                assert(hs@.contains(id) <==> v.active_has(id) || exists|k: int|
                    0 <= k < v.pruned.len() && (#[trigger] v.pruned[k]).id == id);
            }
        }
        hs
    }

    /// The ids among `status_ids` that are recorded in neither table, each
    /// reported once, in first-occurrence order.
    pub fn select_unseen_status_ids_from(&self, status_ids: &[u64]) -> (r: Vec<u64>)
        ensures
            r@ == spec_unseen_from(self@, status_ids@),
    {
        let hs = self.seen_id_set();
        let mut emitted: std::collections::HashSet<u64> = std::collections::HashSet::new();
        let mut out: Vec<u64> = Vec::new();
        let mut i: usize = 0;
        while i < status_ids.len()
            invariant
                0 <= i <= status_ids@.len(),
                forall|id: u64| hs@.contains(id) <==> self@.seen(id),
                forall|id: u64| emitted@.contains(id) <==> out@.contains(id),
                out@ == spec_unseen_from(self@, status_ids@.take(i as int)),
            decreases status_ids@.len() - i,
        {
            let id = status_ids[i];
            proof {
                assert(status_ids@.take(i + 1).drop_last() =~= status_ids@.take(i as int));
                assert(status_ids@.take(i + 1).last() == id);
            }
            if !hs.contains(&id) && !emitted.contains(&id) {
                let ghost out0 = out@;
                let ghost em0 = emitted@;
                out.push(id);
                emitted.insert(id);
                proof {
                    assert forall|x: u64| emitted@.contains(x) implies out@.contains(x) by {
                        if x == id {
                            assert(out@[out0.len() as int] == id);
                        } else {
                            assert(em0.contains(x));
                            let k = choose|k: int| 0 <= k < out0.len() && out0[k] == x;
                            assert(out@[k] == x);
                        }
                    }
                    assert forall|x: u64| out@.contains(x) implies emitted@.contains(x) by {
                        let k = choose|k: int| 0 <= k < out@.len() && out@[k] == x;
                        if k < out0.len() {
                            assert(out0[k] == x);
                            assert(em0.contains(x));
                        } else {
                            assert(x == id);
                        }
                    }
                }
            }
            i = i + 1;
        }
        proof {
            assert(status_ids@.take(status_ids@.len() as int) =~= status_ids@);
        }
        out
    }

    /// The highest id, compared numerically, among in-timeline records of the
    /// given author, looking through both tables; `None` when the author has
    /// none.
    pub fn select_max_status_id(&self, user_id: u64) -> (r: Option<u64>)
        ensures
            match r {
                Option::Some(m) => self@.synced_max_witness(user_id, m) && forall|id: u64|
                    #[trigger] self@.synced_id(user_id, id) ==> id <= m,
                Option::None => forall|id: u64| !(#[trigger] self@.synced_id(user_id, id)),
            },
    {
        let ghost v = self@;
        let mut best: Option<u64> = None;
        let mut i: usize = 0;
        while i < self.records.len()
            invariant
                0 <= i <= self.records.len(),
                v == self@,
                v.records.len() == self.records.len(),
                match best {
                    Option::Some(m) => v.synced_max_witness(user_id, m) && forall|k: int|
                        0 <= k < i && record_synced_for(#[trigger] v.records[k], user_id)
                            ==> v.records[k].id <= m,
                    Option::None => forall|k: int|
                        0 <= k < i ==> !record_synced_for(#[trigger] v.records[k], user_id),
                },
            decreases self.records.len() - i,
        {
            let rec = &self.records[i];
            let matches_user = rec.in_timeline && match &rec.user {
                Option::Some(u) => u.id == user_id,
                Option::None => false,
            };
            if matches_user {
                proof {
                    assert(record_synced_for(v.records[i as int], user_id));
                }
                match best {
                    Option::Some(m) => if rec.id > m {
                        best = Some(rec.id);
                    },
                    Option::None => best = Some(rec.id),
                }
            }
            i = i + 1;
        }
        let mut j: usize = 0;
        while j < self.pruned.len()
            invariant
                0 <= j <= self.pruned.len(),
                v == self@,
                v.pruned.len() == self.pruned.len(),
                match best {
                    Option::Some(m) => v.synced_max_witness(user_id, m) && (forall|k: int|
                        0 <= k < v.records.len() && record_synced_for(
                            #[trigger] v.records[k],
                            user_id,
                        ) ==> v.records[k].id <= m) && forall|k: int|
                        0 <= k < j && pruned_synced_for(#[trigger] v.pruned[k], user_id)
                            ==> v.pruned[k].id <= m,
                    Option::None => (forall|k: int|
                        0 <= k < v.records.len() ==> !record_synced_for(
                            #[trigger] v.records[k],
                            user_id,
                        )) && forall|k: int|
                        0 <= k < j ==> !pruned_synced_for(#[trigger] v.pruned[k], user_id),
                },
            decreases self.pruned.len() - j,
        {
            let rec = &self.pruned[j];
            let matches_user = rec.in_timeline && match &rec.user {
                Option::Some(u) => u.id == user_id,
                Option::None => false,
            };
            if matches_user {
                proof {
                    assert(pruned_synced_for(v.pruned[j as int], user_id));
                }
                match best {
                    Option::Some(m) => if rec.id > m {
                        best = Some(rec.id);
                    },
                    Option::None => best = Some(rec.id),
                }
            }
            j = j + 1;
        }
        proof {
            if let Option::Some(m) = best {
                assert forall|id: u64| #[trigger] v.synced_id(user_id, id) implies id <= m by {
                    if exists|k: int|
                        0 <= k < v.records.len() && record_synced_for(
                            #[trigger] v.records[k],
                            user_id,
                        ) && v.records[k].id == id {
                        let k = choose|k: int|
                            0 <= k < v.records.len() && record_synced_for(
                                #[trigger] v.records[k],
                                user_id,
                            ) && v.records[k].id == id;
                        assert(v.records[k].id <= m);
                    } else {
                        let k = choose|k: int|
                            0 <= k < v.pruned.len() && pruned_synced_for(
                                #[trigger] v.pruned[k],
                                user_id,
                            ) && v.pruned[k].id == id;
                        assert(v.pruned[k].id <= m);
                    }
                }
            } else {
                assert forall|id: u64| !(#[trigger] v.synced_id(user_id, id)) by {}
            }
        }
        best
    }
}

/// An active record counts toward since-id sync for an author: it is
/// in-timeline and carries that author.
pub open spec fn record_synced_for(r: RecordV, user_id: u64) -> bool {
    r.in_timeline && r.user is Some && r.user->0.id == user_id
}

/// A pruned record counts toward since-id sync for an author.
pub open spec fn pruned_synced_for(r: PrunedV, user_id: u64) -> bool {
    r.in_timeline && r.user is Some && r.user->0.id == user_id
}

impl StoreV {
    /// `id` is recorded as an in-timeline record of the author, in either
    /// table.
    pub open spec fn synced_id(self, user_id: u64, id: u64) -> bool {
        (exists|k: int|
            0 <= k < self.records.len() && record_synced_for(#[trigger] self.records[k], user_id)
                && self.records[k].id == id) || (exists|k: int|
            0 <= k < self.pruned.len() && pruned_synced_for(#[trigger] self.pruned[k], user_id)
                && self.pruned[k].id == id)
    }

    /// `m` itself is one of the author's recorded in-timeline ids.
    pub open spec fn synced_max_witness(self, user_id: u64, m: u64) -> bool {
        self.synced_id(user_id, m)
    }
}

/// The ids of `ids` that are not recorded in `v`, each kept once, in
/// first-occurrence order.
pub open spec fn spec_unseen_from(v: StoreV, ids: Seq<u64>) -> Seq<u64>
    decreases ids.len(),
{
    if ids.len() == 0 {
        Seq::empty()
    } else {
        let rest = spec_unseen_from(v, ids.drop_last());
        if v.seen(ids.last()) || rest.contains(ids.last()) {
            rest
        } else {
            rest.push(ids.last())
        }
    }
}


// ---------------------------------------------------------------------------
// Cloning (each clone keeps the view)

fn clone_user(u: &Option<TweetUser>) -> (r: Option<TweetUser>)
    ensures
        user_view(r) == user_view(*u),
{
    match u {
        Option::None => None,
        Option::Some(user) => Some(TweetUser { id: user.id, screen_name: user.screen_name.clone() }),
    }
}

impl Clone for MediaItem {
    fn clone(&self) -> (r: Self)
        ensures
            r@ == self@,
    {
        MediaItem { url: self.url.clone(), is_photo: self.is_photo }
    }
}

impl Clone for MediaField {
    fn clone(&self) -> (r: Self)
        ensures
            r@ == self@,
    {
        match self {
            MediaField::Absent => MediaField::Absent,
            MediaField::Malformed => MediaField::Malformed,
            MediaField::Entries(items) => {
                let mut out: Vec<MediaItem> = Vec::new();
                let mut i: usize = 0;
                while i < items.len()
                    invariant
                        0 <= i <= items@.len(),
                        out@.len() == i,
                        forall|k: int|
                            0 <= k < i ==> (#[trigger] out@[k])@ == items@[k]@,
                    decreases items@.len() - i,
                {
                    out.push(items[i].clone());
                    i = i + 1;
                }
                proof {
                    assert(media_items_view(out@) =~= media_items_view(items@));
                }
                MediaField::Entries(out)
            },
        }
    }
}

impl Clone for StoredRecord {
    fn clone(&self) -> (r: Self)
        ensures
            r@ == self@,
    {
        let r = StoredRecord {
            rowid: self.rowid,
            id: self.id,
            json: self.json.clone(),
            user: clone_user(&self.user),
            media: self.media.clone(),
            in_timeline: self.in_timeline,
            recorded_at: self.recorded_at,
            photos_downloaded_at: self.photos_downloaded_at,
        };
        proof {
            assert(r@ =~= self@);
        }
        r
    }
}

// ---------------------------------------------------------------------------
// Insertion: dedup against both tables, one fresh row per unseen id

/// The active row that recording `t` creates.
pub open spec fn spec_record_from(t: TweetV, rowid: int, in_timeline: bool, now: u64) -> RecordV {
    RecordV {
        rowid,
        id: t.id,
        json: t.json,
        user: t.user,
        media: t.media,
        in_timeline,
        recorded_at: now,
        photos_downloaded_at: Option::None,
    }
}

/// Recording one incoming record: an id seen in either table is ignored, an
/// unseen one becomes a fresh active row.
pub open spec fn insert_step(v: StoreV, t: TweetV, in_timeline: bool, now: u64) -> StoreV {
    if v.seen(t.id) {
        v
    } else {
        StoreV {
            records: v.records.push(spec_record_from(t, v.next_rowid, in_timeline, now)),
            pruned: v.pruned,
            next_rowid: v.next_rowid + 1,
        }
    }
}

/// How many rows recording `t` adds: 1 when unseen, else 0.
pub open spec fn insert_count_step(v: StoreV, t: TweetV) -> int {
    if v.seen(t.id) {
        0
    } else {
        1
    }
}

/// Recording a whole batch, left to right.
pub open spec fn spec_insert(v: StoreV, ts: Seq<TweetV>, in_timeline: bool, now: u64) -> StoreV
    decreases ts.len(),
{
    if ts.len() == 0 {
        v
    } else {
        spec_insert(insert_step(v, ts[0], in_timeline, now), ts.drop_first(), in_timeline, now)
    }
}

/// How many rows recording a whole batch adds.
pub open spec fn spec_insert_count(v: StoreV, ts: Seq<TweetV>, in_timeline: bool, now: u64) -> int
    decreases ts.len(),
{
    if ts.len() == 0 {
        0
    } else {
        insert_count_step(v, ts[0]) + spec_insert_count(
            insert_step(v, ts[0], in_timeline, now),
            ts.drop_first(),
            in_timeline,
            now,
        )
    }
}

/// A batch recorded one more record at the end is the step applied to the
/// batch so far.
pub proof fn lemma_insert_snoc(v: StoreV, ts: Seq<TweetV>, t: TweetV, in_timeline: bool, now: u64)
    ensures
        spec_insert(v, ts.push(t), in_timeline, now) == insert_step(
            spec_insert(v, ts, in_timeline, now),
            t,
            in_timeline,
            now,
        ),
        spec_insert_count(v, ts.push(t), in_timeline, now) == spec_insert_count(
            v,
            ts,
            in_timeline,
            now,
        ) + insert_count_step(spec_insert(v, ts, in_timeline, now), t),
    decreases ts.len(),
{
    if ts.len() == 0 {
        assert(ts.push(t)[0] == t);
        assert(ts.push(t).drop_first() =~= Seq::<TweetV>::empty());
        let w = insert_step(v, t, in_timeline, now);
        assert(spec_insert(v, ts.push(t), in_timeline, now) == spec_insert(
            w,
            ts.push(t).drop_first(),
            in_timeline,
            now,
        ));
        assert(spec_insert(w, ts.push(t).drop_first(), in_timeline, now) == w);
        assert(spec_insert(v, ts, in_timeline, now) == v);
        assert(spec_insert_count(v, ts.push(t), in_timeline, now) == insert_count_step(v, t)
            + spec_insert_count(w, ts.push(t).drop_first(), in_timeline, now));
        assert(spec_insert_count(w, ts.push(t).drop_first(), in_timeline, now) == 0);
        assert(spec_insert_count(v, ts, in_timeline, now) == 0);
    } else {
        assert(ts.push(t)[0] == ts[0]);
        assert(ts.push(t).drop_first() =~= ts.drop_first().push(t));
        let w = insert_step(v, ts[0], in_timeline, now);
        lemma_insert_snoc(w, ts.drop_first(), t, in_timeline, now);
        assert(spec_insert(v, ts.push(t), in_timeline, now) == spec_insert(
            w,
            ts.drop_first().push(t),
            in_timeline,
            now,
        ));
        assert(spec_insert(v, ts, in_timeline, now) == spec_insert(
            w,
            ts.drop_first(),
            in_timeline,
            now,
        ));
        assert(spec_insert_count(v, ts.push(t), in_timeline, now) == insert_count_step(v, ts[0])
            + spec_insert_count(w, ts.drop_first().push(t), in_timeline, now));
        assert(spec_insert_count(v, ts, in_timeline, now) == insert_count_step(v, ts[0])
            + spec_insert_count(w, ts.drop_first(), in_timeline, now));
    }
}

/// One insertion step keeps the store well formed, moves the fresh-row
/// counter by at most one, and makes exactly the stepped id newly seen.
pub proof fn lemma_insert_step_wf(v: StoreV, t: TweetV, in_timeline: bool, now: u64)
    requires
        v.wf(),
        v.next_rowid + 1 <= i64::MAX,
    ensures
        insert_step(v, t, in_timeline, now).wf(),
        v.next_rowid <= insert_step(v, t, in_timeline, now).next_rowid <= v.next_rowid + 1,
        insert_step(v, t, in_timeline, now).pruned == v.pruned,
        forall|id: u64|
            insert_step(v, t, in_timeline, now).seen(id) <==> v.seen(id) || id == t.id,
{
    let w = insert_step(v, t, in_timeline, now);
    if v.seen(t.id) {
        assert(forall|id: u64| w.seen(id) <==> v.seen(id) || id == t.id);
    } else {
        assert(w.records == v.records.push(spec_record_from(t, v.next_rowid, in_timeline, now)));
        assert forall|id: u64| w.seen(id) implies v.seen(id) || id == t.id by {
            if w.active_has(id) {
                let k = choose|k: int| 0 <= k < w.records.len() && w.records[k].id == id;
                if k < v.records.len() {
                    assert(v.records[k].id == id);
                } else {
                    assert(id == t.id);
                }
            }
        }
        assert forall|id: u64| v.seen(id) || id == t.id implies w.seen(id) by {
            if v.active_has(id) {
                let k = choose|k: int| 0 <= k < v.records.len() && v.records[k].id == id;
                assert(w.records[k].id == id);
            } else if v.pruned_has(id) {
            } else {
                assert(w.records[v.records.len() as int].id == t.id);
            }
        }
        assert forall|i: int, j: int|
            0 <= i < j < w.records.len() implies (#[trigger] w.records[i]).id != (
        #[trigger] w.records[j]).id by {
            if j == w.records.len() - 1 {
                assert(w.records[j].id == t.id);
                assert(v.records[i].id == w.records[i].id);
                assert(!v.seen(t.id));
                assert(v.active_has(t.id) || !v.active_has(t.id));
                if w.records[i].id == t.id {
                    assert(v.active_has(t.id));
                }
            }
        }
        assert forall|i: int, j: int|
            0 <= i < w.records.len() && 0 <= j < v.pruned.len() implies (
        #[trigger] w.records[i]).id != (#[trigger] w.pruned[j]).id by {
            if i == w.records.len() - 1 {
                if w.records[i].id == w.pruned[j].id {
                    assert(v.pruned_has(t.id));
                }
            }
        }
    }
}

impl Store {
    /// Builds the active row for one incoming record.
    fn record_from_tweet(t: &Tweet, rowid: i64, in_timeline: bool, now: u64) -> (r: StoredRecord)
        ensures
            r@ == spec_record_from(t@, rowid as int, in_timeline, now),
    {
        let r = StoredRecord {
            rowid,
            id: t.id,
            json: t.json.clone(),
            user: clone_user(&t.user),
            media: t.media.clone(),
            in_timeline,
            recorded_at: now,
            photos_downloaded_at: None,
        };
        proof {
            assert(r@ =~= spec_record_from(t@, rowid as int, in_timeline, now));
        }
        r
    }

    /// Records the batch: ids unseen in either table become fresh rows with
    /// the given in-timeline flag, everything else is ignored; returns how
    /// many rows were added.  Unseen ids are found by staging the batch
    /// against a set of the known ids, not by per-row scans.
    fn insert_tweets(&mut self, tweets: &Vec<Tweet>, in_timeline: bool, now: u64) -> (n: usize)
        requires
            old(self)@.wf(),
            old(self)@.next_rowid + tweets@.len() <= i64::MAX,
        ensures
            final(self)@.wf(),
            final(self)@ == spec_insert(old(self)@, tweet_views(tweets@), in_timeline, now),
            n == spec_insert_count(old(self)@, tweet_views(tweets@), in_timeline, now),
            n <= tweets@.len(),
    {
        let ghost v0 = self@;
        let ghost tv = tweet_views(tweets@);
        let mut hs = self.seen_id_set();
        let mut n: usize = 0;
        let mut i: usize = 0;
        while i < tweets.len()
            invariant
                0 <= i <= tweets@.len(),
                tv.len() == tweets@.len(),
                forall|k: int| 0 <= k < tweets@.len() ==> tv[k] == (#[trigger] tweets@[k])@,
                self@.wf(),
                self@ == spec_insert(v0, tv.take(i as int), in_timeline, now),
                n == spec_insert_count(v0, tv.take(i as int), in_timeline, now),
                n <= i,
                v0.next_rowid <= self@.next_rowid <= v0.next_rowid + i,
                v0.next_rowid + tweets@.len() <= i64::MAX,
                forall|id: u64| hs@.contains(id) <==> self@.seen(id),
            decreases tweets@.len() - i,
        {
            let ghost pre = self@;
            proof {
                assert(tv.take(i + 1).drop_last() =~= tv.take(i as int));
                assert(tv.take(i + 1) =~= tv.take(i as int).push(tv[i as int]));
                lemma_insert_snoc(v0, tv.take(i as int), tv[i as int], in_timeline, now);
            }
            let t = &tweets[i];
            proof {
                assert(tv[i as int] == t@);
            }
            if !hs.contains(&t.id) {
                proof {
                    assert(!pre.seen(t.id));
                    lemma_insert_step_wf(pre, t@, in_timeline, now);
                }
                let rec = Self::record_from_tweet(t, self.next_rowid, in_timeline, now);
                let ghost hs0 = hs@;
                self.records.push(rec);
                self.next_rowid = self.next_rowid + 1;
                hs.insert(t.id);
                n = n + 1;
                proof {
                    assert(self@.records =~= pre.records.push(
                        spec_record_from(t@, pre.next_rowid, in_timeline, now),
                    ));
                    assert(self@.pruned =~= pre.pruned);
                    assert(self@ =~= insert_step(pre, t@, in_timeline, now));
                    assert(self@ == spec_insert(v0, tv.take(i + 1), in_timeline, now));
                    assert forall|id: u64| hs@.contains(id) <==> self@.seen(id) by {
                        assert(hs@ == hs0.insert(t.id));
                        assert(self@.seen(id) <==> pre.seen(id) || id == t.id);
                    }
                }
            } else {
                proof {
                    assert(pre.seen(t.id));
                    assert(insert_step(pre, t@, in_timeline, now) == pre);
                }
            }
            i = i + 1;
        }
        proof {
            assert(tv.take(tweets@.len() as int) =~= tv);
        }
        n
    }

    /// Records a batch of loose (non-timeline) records: filters to ids unseen
    /// in either table and inserts the rest with the in-timeline flag off, as
    /// one operation; returns how many were inserted.
    pub fn insert_loose_tweets(&mut self, tweets: &Vec<Tweet>, now: u64) -> (n: usize)
        requires
            old(self)@.wf(),
            old(self)@.next_rowid + tweets@.len() <= i64::MAX,
        ensures
            final(self)@.wf(),
            final(self)@ == spec_insert(old(self)@, tweet_views(tweets@), false, now),
            n == spec_insert_count(old(self)@, tweet_views(tweets@), false, now),
            n <= tweets@.len(),
    {
        self.insert_tweets(tweets, false, now)
    }
}

// ---------------------------------------------------------------------------
// Timeline promotion

/// The ids carried by a batch.
pub open spec fn batch_ids(ts: Seq<TweetV>) -> Set<u64> {
    Set::new(|id: u64| exists|i: int| 0 <= i < ts.len() && ts[i].id == id)
}

/// Retroactive promotion of one active row: a row whose id is in the batch
/// becomes in-timeline; the flag is never cleared.
pub open spec fn promote_record(r: RecordV, ids: Set<u64>) -> RecordV {
    if ids.contains(r.id) {
        RecordV { in_timeline: true, ..r }
    } else {
        r
    }
}

/// Retroactive promotion of one pruned row.
pub open spec fn promote_pruned(r: PrunedV, ids: Set<u64>) -> PrunedV {
    if ids.contains(r.id) {
        PrunedV { in_timeline: true, ..r }
    } else {
        r
    }
}

/// Promotion of every row, active or pruned, whose id the batch carries.
pub open spec fn spec_promote(v: StoreV, ids: Set<u64>) -> StoreV {
    StoreV {
        records: v.records.map_values(|r: RecordV| promote_record(r, ids)),
        pruned: v.pruned.map_values(|r: PrunedV| promote_pruned(r, ids)),
        next_rowid: v.next_rowid,
    }
}

/// Promotion changes no id and no rowid, so it keeps the store well formed
/// and keeps every seen fact.
pub proof fn lemma_promote_wf(v: StoreV, ids: Set<u64>)
    requires
        v.wf(),
    ensures
        spec_promote(v, ids).wf(),
        forall|id: u64| spec_promote(v, ids).seen(id) <==> v.seen(id),
        spec_promote(v, ids).next_rowid == v.next_rowid,
{
    let w = spec_promote(v, ids);
    assert(w.records.len() == v.records.len());
    assert(w.pruned.len() == v.pruned.len());
    assert(forall|k: int|
        0 <= k < v.records.len() ==> (#[trigger] w.records[k]).id == v.records[k].id
            && w.records[k].rowid == v.records[k].rowid);
    assert(forall|k: int|
        0 <= k < v.pruned.len() ==> (#[trigger] w.pruned[k]).id == v.pruned[k].id);
    assert forall|id: u64| w.seen(id) <==> v.seen(id) by {
        if w.active_has(id) {
            let k = choose|k: int| 0 <= k < w.records.len() && w.records[k].id == id;
            assert(v.records[k].id == id);
        }
        if w.pruned_has(id) {
            let k = choose|k: int| 0 <= k < w.pruned.len() && w.pruned[k].id == id;
            assert(v.pruned[k].id == id);
        }
        if v.active_has(id) {
            let k = choose|k: int| 0 <= k < v.records.len() && v.records[k].id == id;
            assert(w.records[k].id == id);
        }
        if v.pruned_has(id) {
            let k = choose|k: int| 0 <= k < v.pruned.len() && v.pruned[k].id == id;
            assert(w.pruned[k].id == id);
        }
    }
}

impl Store {
    /// A set holding exactly the ids of the batch.
    fn batch_id_set(tweets: &Vec<Tweet>) -> (hs: std::collections::HashSet<u64>)
        ensures
            forall|id: u64| hs@.contains(id) <==> batch_ids(tweet_views(tweets@)).contains(id),
    {
        let ghost tv = tweet_views(tweets@);
        let mut hs: std::collections::HashSet<u64> = std::collections::HashSet::new();
        let mut i: usize = 0;
        while i < tweets.len()
            invariant
                0 <= i <= tweets@.len(),
                tv.len() == tweets@.len(),
                forall|k: int| 0 <= k < tweets@.len() ==> tv[k] == (#[trigger] tweets@[k])@,
                forall|id: u64|
                    hs@.contains(id) <==> exists|k: int| 0 <= k < i && (#[trigger] tv[k]).id == id,
            decreases tweets@.len() - i,
        {
            let id = tweets[i].id;
            proof {
                assert(tv[i as int].id == id);
            }
            let ghost hs0 = hs@;
            hs.insert(id);
            proof {
                assert forall|x: u64| hs@.contains(x) implies exists|k: int|
                    0 <= k < i + 1 && (#[trigger] tv[k]).id == x by {
                    if x == id {
                        assert(0 <= i < i + 1 && tv[i as int].id == x);
                    } else {
                        assert(hs0.contains(x));
                        let k = choose|k: int| 0 <= k < i && (#[trigger] tv[k]).id == x;
                        assert(0 <= k < i + 1 && tv[k].id == x);
                    }
                }
                assert forall|x: u64|
                    (exists|k: int| 0 <= k < i + 1 && (#[trigger] tv[k]).id == x) implies hs@
                    .contains(x) by {
                    if x != id {
                        let k = choose|k: int| 0 <= k < i + 1 && (#[trigger] tv[k]).id == x;
                        assert(0 <= k < i && tv[k].id == x);
                        assert(hs0.contains(x));
                    }
                }
            }
            i = i + 1;
        }
        proof {
            assert forall|id: u64|
                hs@.contains(id) <==> batch_ids(tv).contains(id) by {
            }
        }
        hs
    }

    /// Records a batch of timeline records: first unconditionally promotes
    /// any existing row, active or pruned, whose id the batch carries to
    /// in-timeline, then performs the same dedup-and-insert with the
    /// in-timeline flag on; one operation, returning how many rows were
    /// inserted.
    pub fn insert_timeline_tweets(&mut self, tweets: &Vec<Tweet>, now: u64) -> (n: usize)
        requires
            old(self)@.wf(),
            old(self)@.next_rowid + tweets@.len() <= i64::MAX,
        ensures
            final(self)@.wf(),
            final(self)@ == spec_insert(
                spec_promote(old(self)@, batch_ids(tweet_views(tweets@))),
                tweet_views(tweets@),
                true,
                now,
            ),
            n == spec_insert_count(
                spec_promote(old(self)@, batch_ids(tweet_views(tweets@))),
                tweet_views(tweets@),
                true,
                now,
            ),
            n <= tweets@.len(),
    {
        let ghost v0 = self@;
        let ghost tv = tweet_views(tweets@);
        let ghost ids = batch_ids(tv);
        let hs = Self::batch_id_set(tweets);
        let mut i: usize = 0;
        while i < self.records.len()
            invariant
                0 <= i <= self.records.len(),
                self.records@.len() == v0.records.len(),
                self@.pruned == v0.pruned,
                self@.next_rowid == v0.next_rowid,
                forall|id: u64| hs@.contains(id) <==> ids.contains(id),
                forall|k: int|
                    0 <= k < i ==> self@.records[k] == promote_record(
                        #[trigger] v0.records[k],
                        ids,
                    ),
                forall|k: int|
                    i <= k < v0.records.len() ==> self@.records[k] == #[trigger] v0.records[k],
            decreases self.records.len() - i,
        {
            let id = self.records[i].id;
            proof {
                assert(self@.records[i as int] == v0.records[i as int]);
            }
            if hs.contains(&id) {
                let mut rec = self.records[i].clone();
                rec.in_timeline = true;
                proof {
                    assert(rec@ =~= promote_record(v0.records[i as int], ids));
                }
                self.records.set(i, rec);
            } else {
                proof {
                    assert(promote_record(v0.records[i as int], ids) == v0.records[i as int]);
                }
            }
            i = i + 1;
        }
        let mut j: usize = 0;
        while j < self.pruned.len()
            invariant
                0 <= j <= self.pruned.len(),
                self.pruned@.len() == v0.pruned.len(),
                self.records@.len() == v0.records.len(),
                self@.next_rowid == v0.next_rowid,
                forall|id: u64| hs@.contains(id) <==> ids.contains(id),
                forall|k: int|
                    0 <= k < v0.records.len() ==> self@.records[k] == promote_record(
                        #[trigger] v0.records[k],
                        ids,
                    ),
                forall|k: int|
                    0 <= k < j ==> self@.pruned[k] == promote_pruned(#[trigger] v0.pruned[k], ids),
                forall|k: int|
                    j <= k < v0.pruned.len() ==> self@.pruned[k] == #[trigger] v0.pruned[k],
            decreases self.pruned.len() - j,
        {
            let id = self.pruned[j].id;
            proof {
                assert(self@.pruned[j as int] == v0.pruned[j as int]);
            }
            if hs.contains(&id) {
                let mut rec = self.clone_pruned_at(j);
                rec.in_timeline = true;
                proof {
                    assert(rec@ =~= promote_pruned(v0.pruned[j as int], ids));
                }
                self.pruned.set(j, rec);
            } else {
                proof {
                    assert(promote_pruned(v0.pruned[j as int], ids) == v0.pruned[j as int]);
                }
            }
            j = j + 1;
        }
        proof {
            assert(self@.records =~= spec_promote(v0, ids).records);
            assert(self@.pruned =~= spec_promote(v0, ids).pruned);
            assert(self@ =~= spec_promote(v0, ids));
            lemma_promote_wf(v0, ids);
        }
        self.insert_tweets(tweets, true, now)
    }

    /// Clones the pruned row at `j`.
    fn clone_pruned_at(&self, j: usize) -> (r: PrunedRecord)
        requires
            j < self.pruned@.len(),
        ensures
            r@ == self@.pruned[j as int],
    {
        let p = &self.pruned[j];
        let r = PrunedRecord {
            id: p.id,
            user: clone_user(&p.user),
            media: p.media.clone(),
            in_timeline: p.in_timeline,
            recorded_at: p.recorded_at,
            photos_downloaded_at: p.photos_downloaded_at,
            pruned_at: p.pruned_at,
        };
        proof {
            assert(r@ =~= self@.pruned[j as int]);
        }
        r
    }
}

// ---------------------------------------------------------------------------
// Dedup laws

/// Seen facts survive any insertion.
pub proof fn lemma_insert_preserves_seen(
    v: StoreV,
    ts: Seq<TweetV>,
    in_timeline: bool,
    now: u64,
    id: u64,
)
    requires
        v.seen(id),
    ensures
        spec_insert(v, ts, in_timeline, now).seen(id),
    decreases ts.len(),
{
    if ts.len() > 0 {
        let w = insert_step(v, ts[0], in_timeline, now);
        if !v.seen(ts[0].id) {
            if v.active_has(id) {
                let k = choose|k: int| 0 <= k < v.records.len() && v.records[k].id == id;
                assert(w.records[k].id == id);
            }
        }
        lemma_insert_preserves_seen(w, ts.drop_first(), in_timeline, now, id);
    }
}

/// After a batch is recorded, every id of the batch is seen.
pub proof fn lemma_insert_makes_seen(
    v: StoreV,
    ts: Seq<TweetV>,
    in_timeline: bool,
    now: u64,
    i: int,
)
    requires
        0 <= i < ts.len(),
    ensures
        spec_insert(v, ts, in_timeline, now).seen(ts[i].id),
    decreases ts.len(),
{
    let w = insert_step(v, ts[0], in_timeline, now);
    if i == 0 {
        if v.seen(ts[0].id) {
            lemma_insert_preserves_seen(w, ts.drop_first(), in_timeline, now, ts[0].id);
        } else {
            assert(w.records[v.records.len() as int].id == ts[0].id);
            assert(w.active_has(ts[0].id));
            lemma_insert_preserves_seen(w, ts.drop_first(), in_timeline, now, ts[0].id);
        }
    } else {
        assert(ts.drop_first()[i - 1] == ts[i]);
        lemma_insert_makes_seen(w, ts.drop_first(), in_timeline, now, i - 1);
    }
}

/// Recording a batch whose every id is already seen changes nothing and adds
/// no row.
pub proof fn lemma_insert_all_seen_identity(v: StoreV, ts: Seq<TweetV>, in_timeline: bool, now: u64)
    requires
        forall|i: int| 0 <= i < ts.len() ==> v.seen((#[trigger] ts[i]).id),
    ensures
        spec_insert(v, ts, in_timeline, now) == v,
        spec_insert_count(v, ts, in_timeline, now) == 0,
    decreases ts.len(),
{
    if ts.len() > 0 {
        assert(v.seen(ts[0].id));
        assert(insert_step(v, ts[0], in_timeline, now) == v);
        assert(forall|i: int|
            0 <= i < ts.drop_first().len() ==> v.seen((#[trigger] ts.drop_first()[i]).id));
        lemma_insert_all_seen_identity(v, ts.drop_first(), in_timeline, now);
    }
}

/// Dedup idempotence: recording the same batch twice never yields more than
/// one row per id; the second recording changes nothing and reports 0 newly
/// inserted, whatever flag or timestamp it runs with.
pub proof fn lemma_insert_idempotent(
    v: StoreV,
    ts: Seq<TweetV>,
    tl1: bool,
    now1: u64,
    tl2: bool,
    now2: u64,
)
    ensures
        spec_insert(spec_insert(v, ts, tl1, now1), ts, tl2, now2) == spec_insert(v, ts, tl1, now1),
        spec_insert_count(spec_insert(v, ts, tl1, now1), ts, tl2, now2) == 0,
{
    let w = spec_insert(v, ts, tl1, now1);
    assert forall|i: int| 0 <= i < ts.len() implies w.seen((#[trigger] ts[i]).id) by {
        lemma_insert_makes_seen(v, ts, tl1, now1, i);
    }
    lemma_insert_all_seen_identity(w, ts, tl2, now2);
}


// ---------------------------------------------------------------------------
// Pruning: compacting fully processed rows into summaries

/// Whether a media list contains a photo entry.
pub open spec fn has_photo(items: Seq<MediaItemV>) -> bool {
    exists|i: int| 0 <= i < items.len() && (#[trigger] items[i]).is_photo
}

/// A record is prunable iff it has no media, its media contains no photo
/// entries, or every photo is already downloaded.  A malformed media field
/// cannot be judged and is conservatively not prunable.
pub open spec fn spec_prunable(r: RecordV) -> bool {
    match r.media {
        MediaV::Absent => true,
        MediaV::Malformed => false,
        MediaV::Entries(items) => !has_photo(items) || r.photos_downloaded_at is Some,
    }
}

/// The summary row that pruning an active row leaves behind: the same id,
/// author, media descriptor, flags and timestamps, stamped with the prune
/// time.
pub open spec fn spec_pruned_from(r: RecordV, now: u64) -> PrunedV {
    PrunedV {
        id: r.id,
        user: r.user,
        media: r.media,
        in_timeline: r.in_timeline,
        recorded_at: r.recorded_at,
        photos_downloaded_at: r.photos_downloaded_at,
        pruned_at: now,
    }
}

/// The rows a full scan keeps: exactly the non-prunable ones, in order.
pub open spec fn spec_kept(rs: Seq<RecordV>) -> Seq<RecordV>
    decreases rs.len(),
{
    if rs.len() == 0 {
        Seq::empty()
    } else {
        let rest = spec_kept(rs.drop_last());
        if spec_prunable(rs.last()) {
            rest
        } else {
            rest.push(rs.last())
        }
    }
}

/// The summaries a full scan produces: one per prunable row, in order.
pub open spec fn spec_pruned_out(rs: Seq<RecordV>, now: u64) -> Seq<PrunedV>
    decreases rs.len(),
{
    if rs.len() == 0 {
        Seq::empty()
    } else {
        let rest = spec_pruned_out(rs.drop_last(), now);
        if spec_prunable(rs.last()) {
            rest.push(spec_pruned_from(rs.last(), now))
        } else {
            rest
        }
    }
}

/// How many rows a full scan prunes.
pub open spec fn spec_prune_count(rs: Seq<RecordV>) -> int
    decreases rs.len(),
{
    if rs.len() == 0 {
        0
    } else {
        spec_prune_count(rs.drop_last()) + if spec_prunable(rs.last()) {
            1int
        } else {
            0int
        }
    }
}

impl Store {
    /// Whether a media list holds a photo entry.
    #[verifier::loop_isolation(false)]
    fn has_photo_entry(items: &Vec<MediaItem>) -> (b: bool)
        ensures
            b == has_photo(media_items_view(items@)),
    {
        let ghost iv = media_items_view(items@);
        let mut i: usize = 0;
        while i < items.len()
            invariant
                0 <= i <= items@.len(),
                iv.len() == items@.len(),
                forall|k: int| 0 <= k < items@.len() ==> iv[k] == (#[trigger] items@[k])@,
                forall|k: int| 0 <= k < i ==> !(#[trigger] iv[k]).is_photo,
            decreases items@.len() - i,
        {
            if items[i].is_photo {
                proof {
                    assert(iv[i as int].is_photo);
                    assert(has_photo(iv));
                }
                return true;
            }
            i = i + 1;
        }
        false
    }

    /// Whether an active row may be pruned (invariant 2).
    fn is_prunable_record(r: &StoredRecord) -> (b: bool)
        ensures
            b == spec_prunable(r@),
    {
        match &r.media {
            MediaField::Absent => true,
            MediaField::Malformed => false,
            MediaField::Entries(items) => {
                if r.photos_downloaded_at.is_some() {
                    true
                } else {
                    !Self::has_photo_entry(items)
                }
            },
        }
    }

    /// Builds the summary row for a prunable active row.
    fn pruned_from_record(r: &StoredRecord, now: u64) -> (p: PrunedRecord)
        ensures
            p@ == spec_pruned_from(r@, now),
    {
        let p = PrunedRecord {
            id: r.id,
            user: clone_user(&r.user),
            media: r.media.clone(),
            in_timeline: r.in_timeline,
            recorded_at: r.recorded_at,
            photos_downloaded_at: r.photos_downloaded_at,
            pruned_at: now,
        };
        proof {
            assert(p@ =~= spec_pruned_from(r@, now));
        }
        p
    }

    /// A full scan in insertion order: each prunable row is copied into the
    /// pruned table and removed from the active table, as one operation;
    /// returns how many rows were pruned.  Under the strict policy a
    /// malformed media field aborts the scan, reporting the first such row
    /// and leaving the store unchanged.
    #[verifier::loop_isolation(false)]
    pub fn prune_tweets(&mut self, now: u64, policy: MediaPolicy) -> (r: Result<usize, StoreError>)
        requires
            old(self)@.wf(),
        ensures
            match r {
                Result::Ok(n) => {
                    &&& final(self)@.wf()
                    &&& final(self)@.records == spec_kept(old(self)@.records)
                    &&& final(self)@.pruned == old(self)@.pruned + spec_pruned_out(
                        old(self)@.records,
                        now,
                    )
                    &&& final(self)@.next_rowid == old(self)@.next_rowid
                    &&& n == spec_prune_count(old(self)@.records)
                    &&& policy is Strict ==> forall|k: int|
                        0 <= k < old(self)@.records.len() ==> !((
                        #[trigger] old(self)@.records[k]).media is Malformed)
                },
                Result::Err(e) => {
                    &&& final(self)@ == old(self)@
                    &&& policy is Strict
                    &&& match e {
                        StoreError::MalformedMedia { id } => exists|k: int|
                            0 <= k < old(self)@.records.len() && (
                            #[trigger] old(self)@.records[k]).media is Malformed && old(
                                self,
                            )@.records[k].id == id && forall|k2: int|
                                0 <= k2 < k ==> !(old(self)@.records[k2].media is Malformed),
                    }
                },
            },
            policy is Conservative ==> r is Ok,
    {
        let ghost v0 = self@;
        let strict = match policy {
            MediaPolicy::Strict => true,
            MediaPolicy::Conservative => false,
        };
        if strict {
            let mut k: usize = 0;
            while k < self.records.len()
                invariant
                    0 <= k <= self.records.len(),
                    v0 == self@,
                    v0.records.len() == self.records.len(),
                    forall|k2: int| 0 <= k2 < k ==> !((#[trigger] v0.records[k2]).media is Malformed),
                decreases self.records.len() - k,
            {
                if matches!(&self.records[k].media, MediaField::Malformed) {
                    proof {
                        assert(v0.records[k as int].media is Malformed);
                    }
                    return Err(StoreError::MalformedMedia { id: self.records[k].id });
                }
                k = k + 1;
            }
        }
        let ghost rv = v0.records;
        let mut kept: Vec<StoredRecord> = Vec::new();
        let mut count: usize = 0;
        let mut i: usize = 0;
        while i < self.records.len()
            invariant
                0 <= i <= self.records.len(),
                self.records@.len() == rv.len(),
                forall|k: int| 0 <= k < rv.len() ==> (#[trigger] self.records@[k])@ == rv[k],
                self@.pruned == v0.pruned + spec_pruned_out(rv.take(i as int), now),
                self@.next_rowid == v0.next_rowid,
                v0.wf(),
                kept@.map_values(|r: StoredRecord| r@) == spec_kept(rv.take(i as int)),
                count == spec_prune_count(rv.take(i as int)),
                count <= i,
                forall|j: int| #![trigger kept@[j]]
                    0 <= j < kept@.len() ==> exists|k: int|
                        0 <= k < i && (kept@[j])@ == #[trigger] rv[k] && !spec_prunable(rv[k]),
                forall|j: int| #![trigger self@.pruned[j]]
                    v0.pruned.len() <= j < self@.pruned.len() ==> exists|k: int|
                        0 <= k < i && self@.pruned[j] == #[trigger] spec_pruned_from(rv[k], now)
                            && spec_prunable(rv[k]),
            decreases self.records.len() - i,
        {
            let ghost keptv0 = kept@.map_values(|r: StoredRecord| r@);
            let ghost prunedv0 = self@.pruned;
            proof {
                assert(rv.take(i + 1).drop_last() =~= rv.take(i as int));
                assert(rv.take(i + 1).last() == rv[i as int]);
            }
            let rec = &self.records[i];
            proof {
                assert(rec@ == rv[i as int]);
            }
            if Self::is_prunable_record(rec) {
                let p = Self::pruned_from_record(rec, now);
                self.pruned.push(p);
                count = count + 1;
                proof {
                    assert(spec_prunable(rv[i as int]));
                    assert(spec_kept(rv.take(i + 1)) == spec_kept(rv.take(i as int)));
                    assert(spec_prune_count(rv.take(i + 1)) == spec_prune_count(rv.take(i as int))
                        + 1);
                    assert(spec_pruned_out(rv.take(i + 1), now) == spec_pruned_out(
                        rv.take(i as int),
                        now,
                    ).push(spec_pruned_from(rv[i as int], now)));
                    assert(self@.pruned =~= prunedv0.push(spec_pruned_from(rv[i as int], now)));
                    assert(self@.pruned =~= v0.pruned + spec_pruned_out(rv.take(i + 1), now));
                    assert forall|j: int| #![trigger self@.pruned[j]]
                        v0.pruned.len() <= j < self@.pruned.len() implies exists|k: int|
                        0 <= k < i + 1 && self@.pruned[j] == #[trigger] spec_pruned_from(rv[k], now)
                            && spec_prunable(rv[k]) by {
                        if j < self@.pruned.len() - 1 {
                            let k = choose|k: int|
                                0 <= k < i && prunedv0[j] == #[trigger] spec_pruned_from(rv[k], now)
                                    && spec_prunable(rv[k]);
                            assert(self@.pruned[j] == spec_pruned_from(rv[k], now));
                            assert(0 <= k < i + 1 && spec_prunable(rv[k]));
                        } else {
                            assert(self@.pruned[j] == spec_pruned_from(rv[i as int], now));
                            assert(0 <= i < i + 1 && spec_prunable(rv[i as int]));
                        }
                    }
                    assert forall|j: int| #![trigger kept@[j]]
                        0 <= j < kept@.len() implies exists|k: int|
                        0 <= k < i + 1 && (kept@[j])@ == #[trigger] rv[k] && !spec_prunable(rv[k]) by {
                        let k = choose|k: int|
                            0 <= k < i && (kept@[j])@ == #[trigger] rv[k] && !spec_prunable(rv[k]);
                        assert(0 <= k < i + 1 && (kept@[j])@ == rv[k] && !spec_prunable(rv[k]));
                    }
                }
            } else {
                let c = rec.clone();
                kept.push(c);
                proof {
                    assert(!spec_prunable(rv[i as int]));
                    assert(spec_pruned_out(rv.take(i + 1), now) == spec_pruned_out(
                        rv.take(i as int),
                        now,
                    ));
                    assert(spec_prune_count(rv.take(i + 1)) == spec_prune_count(rv.take(i as int)));
                    assert(spec_kept(rv.take(i + 1)) == spec_kept(rv.take(i as int)).push(
                        rv[i as int],
                    ));
                    assert(kept@.map_values(|r: StoredRecord| r@) =~= keptv0.push(rv[i as int]));
                    assert(kept@.map_values(|r: StoredRecord| r@) =~= spec_kept(rv.take(i + 1)));
                    assert forall|j: int| #![trigger kept@[j]]
                        0 <= j < kept@.len() implies exists|k: int|
                        0 <= k < i + 1 && (kept@[j])@ == #[trigger] rv[k] && !spec_prunable(rv[k]) by {
                        if j < kept@.len() - 1 {
                            let k = choose|k: int|
                                0 <= k < i && keptv0[j] == #[trigger] rv[k] && !spec_prunable(rv[k]);
                            assert((kept@[j])@ == keptv0[j]);
                            assert(0 <= k < i + 1 && (kept@[j])@ == rv[k] && !spec_prunable(rv[k]));
                        } else {
                            assert((kept@[j])@ == rv[i as int]);
                            assert(0 <= i < i + 1 && !spec_prunable(rv[i as int]));
                        }
                    }
                    assert forall|j: int| #![trigger self@.pruned[j]]
                        v0.pruned.len() <= j < self@.pruned.len() implies exists|k: int|
                        0 <= k < i + 1 && self@.pruned[j] == #[trigger] spec_pruned_from(rv[k], now)
                            && spec_prunable(rv[k]) by {
                        let k = choose|k: int|
                            0 <= k < i && self@.pruned[j] == #[trigger] spec_pruned_from(rv[k], now)
                                && spec_prunable(rv[k]);
                        assert(0 <= k < i + 1 && self@.pruned[j] == spec_pruned_from(rv[k], now)
                            && spec_prunable(rv[k]));
                    }
                }
            }
            i = i + 1;
        }
        proof {
            assert(rv.take(rv.len() as int) =~= rv);
        }
        self.records = kept;
        proof {
            let w = self@;
            assert(w.records == spec_kept(rv));
            assert(w.pruned == v0.pruned + spec_pruned_out(rv, now));
            lemma_prune_result_wf(v0, w, now);
        }
        Ok(count)
    }
}

/// The pruned store is well formed: kept rows and summaries descend from
/// distinct original rows, a row going to exactly one side.
proof fn lemma_prune_result_wf(v: StoreV, w: StoreV, now: u64)
    requires
        v.wf(),
        w.records == spec_kept(v.records),
        w.pruned == v.pruned + spec_pruned_out(v.records, now),
        w.next_rowid == v.next_rowid,
    ensures
        w.wf(),
{
    lemma_kept_provenance(v.records);
    lemma_pruned_out_provenance(v.records, now);
    let kept = spec_kept(v.records);
    let out = spec_pruned_out(v.records, now);
    assert forall|i: int, j: int| 0 <= i < j < w.records.len() implies (
    #[trigger] w.records[i]).id != (#[trigger] w.records[j]).id by {
        let ki = kept_source(v.records, i);
        let kj = kept_source(v.records, j);
        assert(kept[i] == v.records[ki] && kept[j] == v.records[kj] && ki < kj);
    }
    assert forall|i: int, j: int| 0 <= i < j < w.records.len() implies (
    #[trigger] w.records[i]).rowid != (#[trigger] w.records[j]).rowid by {
        let ki = kept_source(v.records, i);
        let kj = kept_source(v.records, j);
        assert(kept[i] == v.records[ki] && kept[j] == v.records[kj] && ki < kj);
    }
    assert forall|i: int| 0 <= i < w.records.len() implies 0 <= (
    #[trigger] w.records[i]).rowid < w.next_rowid by {
        let ki = kept_source(v.records, i);
        assert(kept[i] == v.records[ki]);
    }
    assert forall|i: int, j: int| 0 <= i < j < w.pruned.len() implies (
    #[trigger] w.pruned[i]).id != (#[trigger] w.pruned[j]).id by {
        if i >= v.pruned.len() {
            let ki = pruned_out_source(v.records, i - v.pruned.len());
            let kj = pruned_out_source(v.records, j - v.pruned.len());
            assert(out[i - v.pruned.len()] == spec_pruned_from(v.records[ki], now));
            assert(out[j - v.pruned.len()] == spec_pruned_from(v.records[kj], now));
            assert(ki < kj);
        } else if j >= v.pruned.len() {
            let kj = pruned_out_source(v.records, j - v.pruned.len());
            assert(out[j - v.pruned.len()] == spec_pruned_from(v.records[kj], now));
            assert(v.records[kj].id == w.pruned[j].id);
        }
    }
    assert forall|i: int, j: int|
        0 <= i < w.records.len() && 0 <= j < w.pruned.len() implies (
    #[trigger] w.records[i]).id != (#[trigger] w.pruned[j]).id by {
        let ki = kept_source(v.records, i);
        assert(kept[i] == v.records[ki] && !spec_prunable(v.records[ki]));
        if j >= v.pruned.len() {
            let kj = pruned_out_source(v.records, j - v.pruned.len());
            assert(out[j - v.pruned.len()] == spec_pruned_from(v.records[kj], now));
            assert(spec_prunable(v.records[kj]));
            assert(ki != kj);
        }
    }
}

/// The original index a kept row descends from.
spec fn kept_source(rs: Seq<RecordV>, j: int) -> int
    decreases rs.len(),
{
    if rs.len() == 0 {
        0
    } else {
        let rest = spec_kept(rs.drop_last());
        if !spec_prunable(rs.last()) && j == rest.len() {
            rs.len() - 1
        } else {
            kept_source(rs.drop_last(), j)
        }
    }
}

/// Each kept row is an original row, kept rows in source order.
proof fn lemma_kept_provenance(rs: Seq<RecordV>)
    ensures
        forall|j: int|
            0 <= j < spec_kept(rs).len() ==> {
                let k = #[trigger] kept_source(rs, j);
                &&& 0 <= k < rs.len()
                &&& spec_kept(rs)[j] == rs[k]
                &&& !spec_prunable(rs[k])
            },
        forall|j1: int, j2: int|
            0 <= j1 < j2 < spec_kept(rs).len() ==> #[trigger] kept_source(rs, j1)
                < #[trigger] kept_source(rs, j2),
    decreases rs.len(),
{
    if rs.len() > 0 {
        lemma_kept_provenance(rs.drop_last());
        let rest = spec_kept(rs.drop_last());
        assert forall|j: int| 0 <= j < spec_kept(rs).len() implies {
            let k = #[trigger] kept_source(rs, j);
            &&& 0 <= k < rs.len()
            &&& spec_kept(rs)[j] == rs[k]
            &&& !spec_prunable(rs[k])
        } by {
            if !spec_prunable(rs.last()) && j == rest.len() {
                assert(kept_source(rs, j) == rs.len() - 1);
                assert(spec_kept(rs)[j] == rs.last());
            } else {
                let k = kept_source(rs.drop_last(), j);
                assert(kept_source(rs, j) == k);
                assert(spec_kept(rs)[j] == rest[j]);
                assert(rest[j] == rs.drop_last()[k]);
                assert(rs.drop_last()[k] == rs[k]);
            }
        }
        assert forall|j1: int, j2: int|
            0 <= j1 < j2 < spec_kept(rs).len() implies #[trigger] kept_source(rs, j1)
            < #[trigger] kept_source(rs, j2) by {
            if !spec_prunable(rs.last()) && j2 == rest.len() {
                assert(kept_source(rs, j2) == rs.len() - 1);
                assert(kept_source(rs, j1) == kept_source(rs.drop_last(), j1));
                assert(0 <= kept_source(rs.drop_last(), j1) < rs.drop_last().len());
            } else {
                assert(kept_source(rs, j1) == kept_source(rs.drop_last(), j1));
                assert(kept_source(rs, j2) == kept_source(rs.drop_last(), j2));
            }
        }
    }
}

/// The original index a summary descends from.
spec fn pruned_out_source(rs: Seq<RecordV>, j: int) -> int
    decreases rs.len(),
{
    if rs.len() == 0 {
        0
    } else {
        let rest = spec_pruned_out(rs.drop_last(), arbitrary());
        if spec_prunable(rs.last()) && j == spec_pruned_out(rs.drop_last(), arbitrary()).len() {
            rs.len() - 1
        } else {
            pruned_out_source(rs.drop_last(), j)
        }
    }
}

/// Each summary descends from an original prunable row, summaries in source
/// order.
proof fn lemma_pruned_out_provenance(rs: Seq<RecordV>, now: u64)
    ensures
        forall|j: int|
            0 <= j < spec_pruned_out(rs, now).len() ==> {
                let k = #[trigger] pruned_out_source(rs, j);
                &&& 0 <= k < rs.len()
                &&& spec_pruned_out(rs, now)[j] == spec_pruned_from(rs[k], now)
                &&& spec_prunable(rs[k])
            },
        forall|j1: int, j2: int|
            0 <= j1 < j2 < spec_pruned_out(rs, now).len() ==> #[trigger] pruned_out_source(rs, j1)
                < #[trigger] pruned_out_source(rs, j2),
    decreases rs.len(),
{
    if rs.len() > 0 {
        lemma_pruned_out_provenance(rs.drop_last(), now);
        lemma_pruned_out_len_same(rs.drop_last(), now);
        let rest = spec_pruned_out(rs.drop_last(), now);
        assert forall|j: int| 0 <= j < spec_pruned_out(rs, now).len() implies {
            let k = #[trigger] pruned_out_source(rs, j);
            &&& 0 <= k < rs.len()
            &&& spec_pruned_out(rs, now)[j] == spec_pruned_from(rs[k], now)
            &&& spec_prunable(rs[k])
        } by {
            if spec_prunable(rs.last()) && j == rest.len() {
                assert(pruned_out_source(rs, j) == rs.len() - 1);
                assert(spec_pruned_out(rs, now)[j] == spec_pruned_from(rs.last(), now));
            } else {
                let k = pruned_out_source(rs.drop_last(), j);
                assert(pruned_out_source(rs, j) == k);
                assert(spec_pruned_out(rs, now)[j] == rest[j]);
                assert(rest[j] == spec_pruned_from(rs.drop_last()[k], now));
                assert(rs.drop_last()[k] == rs[k]);
            }
        }
        assert forall|j1: int, j2: int|
            0 <= j1 < j2 < spec_pruned_out(rs, now).len() implies #[trigger] pruned_out_source(
            rs,
            j1,
        ) < #[trigger] pruned_out_source(rs, j2) by {
            if spec_prunable(rs.last()) && j2 == rest.len() {
                assert(pruned_out_source(rs, j2) == rs.len() - 1);
                assert(pruned_out_source(rs, j1) == pruned_out_source(rs.drop_last(), j1));
                assert(0 <= pruned_out_source(rs.drop_last(), j1) < rs.drop_last().len());
            } else {
                assert(pruned_out_source(rs, j1) == pruned_out_source(rs.drop_last(), j1));
                assert(pruned_out_source(rs, j2) == pruned_out_source(rs.drop_last(), j2));
            }
        }
    }
}

/// The number of summaries does not depend on the prune timestamp.
proof fn lemma_pruned_out_len_same(rs: Seq<RecordV>, now: u64)
    ensures
        spec_pruned_out(rs, now).len() == spec_pruned_out(rs, arbitrary()).len(),
    decreases rs.len(),
{
    if rs.len() > 0 {
        lemma_pruned_out_len_same(rs.drop_last(), now);
    }
}


// ---------------------------------------------------------------------------
// Marking photosets downloaded

/// The row with the given identifier gains the downloaded timestamp; every
/// other row is untouched.
pub open spec fn mark_record(r: RecordV, rowid: int, now: u64) -> RecordV {
    if r.rowid == rowid {
        RecordV { photos_downloaded_at: Option::Some(now), ..r }
    } else {
        r
    }
}

/// Marking applied to the whole active table.
pub open spec fn spec_mark(v: StoreV, rowid: int, now: u64) -> StoreV {
    StoreV {
        records: v.records.map_values(|r: RecordV| mark_record(r, rowid, now)),
        pruned: v.pruned,
        next_rowid: v.next_rowid,
    }
}

impl StoreV {
    /// Some active row carries this row identifier.
    pub open spec fn has_rowid(self, rowid: int) -> bool {
        exists|i: int| 0 <= i < self.records.len() && (#[trigger] self.records[i]).rowid == rowid
    }
}

impl Store {
    /// Sets the photos-downloaded timestamp on exactly the row with the
    /// given identifier; returns how many rows were affected (0 or 1).
    #[verifier::loop_isolation(false)]
    pub fn set_photos_downloaded_at(&mut self, rowid: i64, now: u64) -> (n: usize)
        requires
            old(self)@.wf(),
        ensures
            final(self)@.wf(),
            final(self)@ == spec_mark(old(self)@, rowid as int, now),
            n == if old(self)@.has_rowid(rowid as int) {
                1int
            } else {
                0int
            },
    {
        let ghost v0 = self@;
        let mut i: usize = 0;
        while i < self.records.len()
            invariant
                0 <= i <= self.records.len(),
                self@ == v0,
                forall|k: int|
                    0 <= k < i ==> (#[trigger] v0.records[k]).rowid != rowid as int,
            decreases self.records.len() - i,
        {
            if self.records[i].rowid == rowid {
                proof {
                    assert(v0.records[i as int].rowid == rowid as int);
                }
                let mut rec = self.records[i].clone();
                rec.photos_downloaded_at = Some(now);
                proof {
                    assert(rec@ =~= mark_record(v0.records[i as int], rowid as int, now));
                }
                self.records.set(i, rec);
                proof {
                    assert forall|k: int|
                        0 <= k < v0.records.len() implies #[trigger] self@.records[k]
                        == mark_record(v0.records[k], rowid as int, now) by {
                        if k != i {
                            assert(v0.records[k].rowid != v0.records[i as int].rowid);
                        }
                    }
                    assert(self@.records =~= spec_mark(v0, rowid as int, now).records);
                    assert(self@ =~= spec_mark(v0, rowid as int, now));
                    assert forall|k: int, l: int|
                        0 <= k < l < self@.records.len() implies (
                    #[trigger] self@.records[k]).id != (#[trigger] self@.records[l]).id by {
                        assert(self@.records[k].id == v0.records[k].id);
                        assert(self@.records[l].id == v0.records[l].id);
                    }
                    assert(self@.wf());
                }
                return 1;
            }
            i = i + 1;
        }
        proof {
            assert forall|k: int|
                0 <= k < v0.records.len() implies #[trigger] spec_mark(
                v0,
                rowid as int,
                now,
            ).records[k] == v0.records[k] by {
                assert(v0.records[k].rowid != rowid as int);
            }
            assert(spec_mark(v0, rowid as int, now).records =~= v0.records);
            assert(spec_mark(v0, rowid as int, now) =~= v0);
        }
        0
    }
}

// ---------------------------------------------------------------------------
// Deriving pending photosets

/// The URLs of the photo entries of a media list, in order.
pub open spec fn photo_urls_of(items: Seq<MediaItemV>) -> Seq<Seq<char>>
    decreases items.len(),
{
    if items.len() == 0 {
        Seq::empty()
    } else {
        let rest = photo_urls_of(items.drop_last());
        if items.last().is_photo {
            rest.push(items.last().url)
        } else {
            rest
        }
    }
}

/// The photoset a pending row yields: only a row not yet downloaded, with a
/// parsed media list holding at least one photo and a known author handle,
/// yields one.
pub open spec fn spec_photoset_of(r: RecordV) -> Option<PhotosetV> {
    if r.photos_downloaded_at is None {
        match r.media {
            MediaV::Entries(items) => match r.user {
                Option::Some(u) => if photo_urls_of(items).len() > 0 {
                    Option::Some(
                        PhotosetV {
                            rowid: r.rowid,
                            screen_name: u.screen_name,
                            id_str: dec_rep(r.id as int),
                            photo_urls: photo_urls_of(items),
                        },
                    )
                } else {
                    Option::None
                },
                Option::None => Option::None,
            },
            _ => Option::None,
        }
    } else {
        Option::None
    }
}

/// The photosets of all pending rows, in insertion order.
pub open spec fn spec_pending_photosets(rs: Seq<RecordV>) -> Seq<PhotosetV>
    decreases rs.len(),
{
    if rs.len() == 0 {
        Seq::empty()
    } else {
        let rest = spec_pending_photosets(rs.drop_last());
        match spec_photoset_of(rs.last()) {
            Option::Some(ps) => rest.push(ps),
            Option::None => rest,
        }
    }
}

/// The views of a list of photosets.
pub open spec fn photoset_views(ps: Seq<Photoset>) -> Seq<PhotosetV> {
    ps.map_values(|p: Photoset| p@)
}

impl Store {
    /// The photo URLs of a media list, cloned in order.
    #[verifier::loop_isolation(false)]
    fn photo_urls_from(items: &Vec<MediaItem>) -> (urls: Vec<String>)
        ensures
            urls@.map_values(|u: String| u@) == photo_urls_of(media_items_view(items@)),
    {
        let ghost iv = media_items_view(items@);
        let mut urls: Vec<String> = Vec::new();
        let mut i: usize = 0;
        while i < items.len()
            invariant
                0 <= i <= items@.len(),
                urls@.map_values(|u: String| u@) == photo_urls_of(iv.take(i as int)),
            decreases items@.len() - i,
        {
            proof {
                assert(iv.take(i + 1).drop_last() =~= iv.take(i as int));
                assert(iv.take(i + 1).last() == iv[i as int]);
                assert(iv[i as int] == items@[i as int]@);
            }
            if items[i].is_photo {
                urls.push(items[i].url.clone());
                proof {
                    assert(urls@.map_values(|u: String| u@) =~= photo_urls_of(iv.take(i + 1)));
                }
            }
            i = i + 1;
        }
        proof {
            assert(iv.take(iv.len() as int) =~= iv);
        }
        urls
    }

    /// All photosets derived from rows whose photos-downloaded timestamp is
    /// unset.  A row whose media field is malformed is skipped under the
    /// conservative policy; under the strict policy the first such pending
    /// row aborts the scan.
    #[verifier::loop_isolation(false)]
    pub fn select_not_downloaded_photos(&self, policy: MediaPolicy) -> (r: Result<
        Vec<Photoset>,
        StoreError,
    >)
        ensures
            match r {
                Result::Ok(ps) => {
                    &&& photoset_views(ps@) == spec_pending_photosets(self@.records)
                    &&& policy is Strict ==> forall|k: int|
                        0 <= k < self@.records.len() ==> !((#[trigger] self@.records[k]).media
                            is Malformed && self@.records[k].photos_downloaded_at is None)
                },
                Result::Err(e) => {
                    &&& policy is Strict
                    &&& match e {
                        StoreError::MalformedMedia { id } => exists|k: int|
                            0 <= k < self@.records.len() && (#[trigger] self@.records[k]).media
                                is Malformed && self@.records[k].photos_downloaded_at is None
                                && self@.records[k].id == id && forall|k2: int|
                                0 <= k2 < k ==> !(self@.records[k2].media is Malformed
                                    && self@.records[k2].photos_downloaded_at is None),
                    }
                },
            },
            policy is Conservative ==> r is Ok,
    {
        let ghost v = self@;
        let strict = match policy {
            MediaPolicy::Strict => true,
            MediaPolicy::Conservative => false,
        };
        if strict {
            let mut k: usize = 0;
            while k < self.records.len()
                invariant
                    0 <= k <= self.records.len(),
                    forall|k2: int|
                        0 <= k2 < k ==> !((#[trigger] v.records[k2]).media is Malformed
                            && v.records[k2].photos_downloaded_at is None),
                decreases self.records.len() - k,
            {
                let rec = &self.records[k];
                if rec.photos_downloaded_at.is_none() && matches!(&rec.media, MediaField::Malformed) {
                    proof {
                        assert(v.records[k as int].media is Malformed
                            && v.records[k as int].photos_downloaded_at is None);
                    }
                    return Err(StoreError::MalformedMedia { id: rec.id });
                }
                k = k + 1;
            }
        }
        let mut out: Vec<Photoset> = Vec::new();
        let mut i: usize = 0;
        while i < self.records.len()
            invariant
                0 <= i <= self.records.len(),
                photoset_views(out@) == spec_pending_photosets(v.records.take(i as int)),
            decreases self.records.len() - i,
        {
            let ghost outv0 = photoset_views(out@);
            proof {
                assert(v.records.take(i + 1).drop_last() =~= v.records.take(i as int));
                assert(v.records.take(i + 1).last() == v.records[i as int]);
            }
            let rec = &self.records[i];
            proof {
                assert(rec@ == v.records[i as int]);
            }
            if rec.photos_downloaded_at.is_none() {
                match (&rec.media, &rec.user) {
                    (MediaField::Entries(items), Option::Some(u)) => {
                        let urls = Self::photo_urls_from(items);
                        if urls.len() > 0 {
                            let ps = Photoset {
                                rowid: rec.rowid,
                                screen_name: u.screen_name.clone(),
                                id_str: crate::text::u64_to_dec(rec.id),
                                photo_urls: urls,
                            };
                            proof {
                                assert(ps@ =~= spec_photoset_of(v.records[i as int])->0);
                            }
                            out.push(ps);
                            proof {
                                assert(photoset_views(out@) =~= outv0.push(
                                    spec_photoset_of(v.records[i as int])->0,
                                ));
                            }
                        } else {
                            proof {
                                assert(spec_photoset_of(v.records[i as int]) is None);
                            }
                        }
                    },
                    _ => {
                        proof {
                            assert(spec_photoset_of(v.records[i as int]) is None);
                        }
                    },
                }
            } else {
                proof {
                    assert(spec_photoset_of(v.records[i as int]) is None);
                }
            }
            i = i + 1;
        }
        proof {
            assert(v.records.take(v.records.len() as int) =~= v.records);
        }
        Ok(out)
    }
}


// ---------------------------------------------------------------------------
// Invariant laws

/// An id is recorded as in-timeline, in whichever table it lives.
pub open spec fn timeline_recorded(v: StoreV, id: u64) -> bool {
    (exists|i: int|
        0 <= i < v.records.len() && (#[trigger] v.records[i]).id == id
            && v.records[i].in_timeline) || (exists|i: int|
        0 <= i < v.pruned.len() && (#[trigger] v.pruned[i]).id == id && v.pruned[i].in_timeline)
}

/// Insertion never clears the flag: every id recorded as in-timeline stays
/// so through any batch.
pub proof fn lemma_insert_keeps_timeline(
    v: StoreV,
    ts: Seq<TweetV>,
    in_timeline: bool,
    now: u64,
    id: u64,
)
    requires
        timeline_recorded(v, id),
    ensures
        timeline_recorded(spec_insert(v, ts, in_timeline, now), id),
    decreases ts.len(),
{
    if ts.len() > 0 {
        let w = insert_step(v, ts[0], in_timeline, now);
        if !v.seen(ts[0].id) {
            if exists|i: int|
                0 <= i < v.records.len() && (#[trigger] v.records[i]).id == id
                    && v.records[i].in_timeline {
                let i = choose|i: int|
                    0 <= i < v.records.len() && (#[trigger] v.records[i]).id == id
                        && v.records[i].in_timeline;
                assert(w.records[i].id == id && w.records[i].in_timeline);
            }
        }
        lemma_insert_keeps_timeline(w, ts.drop_first(), in_timeline, now, id);
    }
}

/// Promotion never clears the flag, and sets it for every id the batch
/// carries that is recorded at all.
pub proof fn lemma_promote_keeps_timeline(v: StoreV, ids: Set<u64>, id: u64)
    requires
        timeline_recorded(v, id),
    ensures
        timeline_recorded(spec_promote(v, ids), id),
{
    let w = spec_promote(v, ids);
    if exists|i: int|
        0 <= i < v.records.len() && (#[trigger] v.records[i]).id == id
            && v.records[i].in_timeline {
        let i = choose|i: int|
            0 <= i < v.records.len() && (#[trigger] v.records[i]).id == id
                && v.records[i].in_timeline;
        assert(w.records[i] == promote_record(v.records[i], ids));
        assert(w.records[i].id == id && w.records[i].in_timeline);
    } else {
        let i = choose|i: int|
            0 <= i < v.pruned.len() && (#[trigger] v.pruned[i]).id == id
                && v.pruned[i].in_timeline;
        assert(w.pruned[i] == promote_pruned(v.pruned[i], ids));
        assert(w.pruned[i].id == id && w.pruned[i].in_timeline);
    }
}

/// Marking a row downloaded never touches the flag.
pub proof fn lemma_mark_keeps_timeline(v: StoreV, rowid: int, now: u64, id: u64)
    requires
        timeline_recorded(v, id),
    ensures
        timeline_recorded(spec_mark(v, rowid, now), id),
{
    let w = spec_mark(v, rowid, now);
    if exists|i: int|
        0 <= i < v.records.len() && (#[trigger] v.records[i]).id == id
            && v.records[i].in_timeline {
        let i = choose|i: int|
            0 <= i < v.records.len() && (#[trigger] v.records[i]).id == id
                && v.records[i].in_timeline;
        assert(w.records[i] == mark_record(v.records[i], rowid, now));
        assert(w.records[i].id == id && w.records[i].in_timeline);
    }
}

/// Every row of a scan lands on exactly one side: a prunable row's summary
/// stands among the pruned output, a kept row stands among the kept rows,
/// with all its fields.
pub proof fn lemma_prune_destination(rs: Seq<RecordV>, now: u64, k: int)
    requires
        0 <= k < rs.len(),
    ensures
        spec_prunable(rs[k]) ==> exists|j: int|
            0 <= j < spec_pruned_out(rs, now).len() && #[trigger] spec_pruned_out(rs, now)[j]
                == spec_pruned_from(rs[k], now),
        !spec_prunable(rs[k]) ==> exists|j: int|
            0 <= j < spec_kept(rs).len() && #[trigger] spec_kept(rs)[j] == rs[k],
    decreases rs.len(),
{
    if k == rs.len() - 1 {
        if spec_prunable(rs.last()) {
            let out = spec_pruned_out(rs, now);
            assert(out[out.len() - 1] == spec_pruned_from(rs[k], now));
        } else {
            let kept = spec_kept(rs);
            assert(kept[kept.len() - 1] == rs[k]);
        }
    } else {
        lemma_prune_destination(rs.drop_last(), now, k);
        assert(rs.drop_last()[k] == rs[k]);
        if spec_prunable(rs[k]) {
            let j = choose|j: int|
                0 <= j < spec_pruned_out(rs.drop_last(), now).len() && #[trigger] spec_pruned_out(
                    rs.drop_last(),
                    now,
                )[j] == spec_pruned_from(rs[k], now);
            assert(spec_pruned_out(rs, now)[j] == spec_pruned_from(rs[k], now));
        } else {
            let j = choose|j: int|
                0 <= j < spec_kept(rs.drop_last()).len() && #[trigger] spec_kept(
                    rs.drop_last(),
                )[j] == rs[k];
            assert(spec_kept(rs)[j] == rs[k]);
        }
    }
}

/// Pruning never clears the flag: an in-timeline row keeps it, whether it
/// stays active or is compacted into its summary.
pub proof fn lemma_prune_keeps_timeline(v: StoreV, w: StoreV, now: u64, id: u64)
    requires
        timeline_recorded(v, id),
        w.records == spec_kept(v.records),
        w.pruned == v.pruned + spec_pruned_out(v.records, now),
    ensures
        timeline_recorded(w, id),
{
    if exists|i: int|
        0 <= i < v.records.len() && (#[trigger] v.records[i]).id == id
            && v.records[i].in_timeline {
        let k = choose|i: int|
            0 <= i < v.records.len() && (#[trigger] v.records[i]).id == id
                && v.records[i].in_timeline;
        lemma_prune_destination(v.records, now, k);
        if spec_prunable(v.records[k]) {
            let j = choose|j: int|
                0 <= j < spec_pruned_out(v.records, now).len() && #[trigger] spec_pruned_out(
                    v.records,
                    now,
                )[j] == spec_pruned_from(v.records[k], now);
            assert(w.pruned[v.pruned.len() + j].id == id);
            assert(w.pruned[v.pruned.len() + j].in_timeline);
        } else {
            let j = choose|j: int|
                0 <= j < spec_kept(v.records).len() && #[trigger] spec_kept(v.records)[j]
                    == v.records[k];
            assert(w.records[j].id == id && w.records[j].in_timeline);
        }
    } else {
        let i = choose|i: int|
            0 <= i < v.pruned.len() && (#[trigger] v.pruned[i]).id == id
                && v.pruned[i].in_timeline;
        assert(w.pruned[i] == v.pruned[i]);
        assert(w.pruned[i].id == id && w.pruned[i].in_timeline);
    }
}

/// A media list holds a photo entry exactly when it yields photo URLs, so
/// prunability and photoset derivation agree on what counts as a photo.
pub proof fn lemma_has_photo_iff_urls(items: Seq<MediaItemV>)
    ensures
        has_photo(items) <==> photo_urls_of(items).len() > 0,
    decreases items.len(),
{
    if items.len() > 0 {
        lemma_has_photo_iff_urls(items.drop_last());
        if has_photo(items) {
            let i = choose|i: int| 0 <= i < items.len() && (#[trigger] items[i]).is_photo;
            if i < items.len() - 1 {
                assert(items.drop_last()[i].is_photo);
                assert(has_photo(items.drop_last()));
            }
        }
        if has_photo(items.drop_last()) {
            let i = choose|i: int|
                0 <= i < items.drop_last().len() && (#[trigger] items.drop_last()[i]).is_photo;
            assert(items[i].is_photo);
        }
    }
}

} // verus!
