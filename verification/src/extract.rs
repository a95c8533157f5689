//! Extracting record ids from pasted text: URL discovery, status-id
//! capture, author-handle capture, and the batching of id lookups.
//!
//! The link finder and the two fixed patterns run in outside crates; their
//! results are functions of the text alone and carry names here.  Everything
//! that decides — which ids a text yields, which URL stands for an id, how a
//! lookup is batched and its id parameter written — is verified.

use vstd::prelude::*;

use crate::text::{dec_rep, dec_val, is_digit, parse_u64, push_dec};

verus! {

/// The most ids one remote lookup call may carry.
pub const LOOKUP_BATCH: usize = 100;

/// The URLs found in a text, in order of appearance.
pub uninterp spec fn url_links(text: Seq<char>) -> Seq<Seq<char>>;

/// The status-id digits a record URL carries, when the URL is one of the
/// recognized status-page forms.
pub uninterp spec fn status_id_text(url: Seq<char>) -> Option<Seq<char>>;

/// The author handle at the head of a text, when the text starts as a
/// handle, an @-handle, or an author page URL.
pub uninterp spec fn screen_name_text(text: Seq<char>) -> Option<Seq<char>>;

/// Relies on linkify::LinkFinder::links with the kind restricted to URLs:
/// the links found are a function of the text alone, reported in order.
#[verifier::external_body]
fn find_links(text: &str) -> (r: Vec<String>)
    ensures
        r@.len() == url_links(text@).len(),
        forall|i: int| 0 <= i < r@.len() ==> (#[trigger] r@[i])@ == url_links(text@)[i],
{
    let mut finder = linkify::LinkFinder::new();
    finder.kinds(&[linkify::LinkKind::Url]);
    finder.links(text).map(|link| link.as_str().to_owned()).collect()
}

/// Relies on regex::Regex::captures with the fixed status-page pattern: the
/// captured digit group is a function of the URL text alone.
#[verifier::external_body]
fn capture_status_id(url: &str) -> (r: Option<String>)
    ensures
        match r {
            Option::Some(s) => status_id_text(url@) == Option::Some(s@),
            Option::None => status_id_text(url@) is None,
        },
{
    let re = regex::Regex::new(
        r"(?i)https?://(?:mobile\.|www\.)?twitter\.com/(?:[^/]+|i/web)/status(?:es)?/(\d+)",
    ).expect("pattern must compile");
    re.captures(url).and_then(|cap| cap.get(1)).map(|m| m.as_str().to_owned())
}

/// Relies on regex::Regex::captures with the fixed handle pattern: the
/// captured handle is a function of the text alone.
#[verifier::external_body]
fn capture_screen_name(text: &str) -> (r: Option<String>)
    ensures
        match r {
            Option::Some(s) => screen_name_text(text@) == Option::Some(s@),
            Option::None => screen_name_text(text@) is None,
        },
{
    let re = regex::Regex::new(r"(?i)^(?:https?://(?:mobile\.|www\.)?twitter\.com/|@)?([0-9a-z_]+)")
        .expect("pattern must compile");
    re.captures(text).and_then(|cap| cap.get(1)).map(|m| m.as_str().to_owned())
}

/// The id a URL yields: its captured digits read as an unsigned 64-bit
/// number, when they fit.
pub open spec fn spec_link_id(url: Seq<char>) -> Option<u64> {
    match status_id_text(url) {
        Option::Some(digits) => if digits.len() > 0 && (forall|i: int|
            0 <= i < digits.len() ==> is_digit(#[trigger] digits[i])) && dec_val(digits)
            <= u64::MAX {
            Option::Some(dec_val(digits) as u64)
        } else {
            Option::None
        },
        Option::None => Option::None,
    }
}

/// Some link of the list yields this id.
pub open spec fn links_have_id(links: Seq<Seq<char>>, id: u64) -> bool {
    exists|i: int| 0 <= i < links.len() && spec_link_id(#[trigger] links[i]) == Option::Some(id)
}

/// The last link of the list that yields this id.
pub open spec fn last_link_with(links: Seq<Seq<char>>, id: u64) -> Seq<char>
    decreases links.len(),
{
    if links.len() == 0 {
        Seq::empty()
    } else if spec_link_id(links.last()) == Option::Some(id) {
        links.last()
    } else {
        last_link_with(links.drop_last(), id)
    }
}

/// Some entry carries this id.
pub open spec fn entries_have(entries: Seq<(u64, String)>, id: u64) -> bool {
    exists|j: int| 0 <= j < entries.len() && (#[trigger] entries[j]).0 == id
}

/// The unique status ids a text's URLs yield, each mapped to the last URL
/// that carried it, held in ascending id order.
pub struct UrlMap {
    pub entries: Vec<(u64, String)>,
}

impl UrlMap {
    /// The ids, in the order held.
    pub open spec fn key_seq(self) -> Seq<u64> {
        self.entries@.map_values(|e: (u64, String)| e.0)
    }

    /// The map's invariant: ids strictly ascending, hence unique.
    pub open spec fn wf(self) -> bool {
        forall|i: int, j: int|
            0 <= i < j < self.entries@.len() ==> (#[trigger] self.entries@[i]).0 < (
            #[trigger] self.entries@[j]).0
    }

    /// How many distinct ids the text yielded.
    pub fn len(&self) -> (n: usize)
        ensures
            n == self.entries@.len(),
    {
        self.entries.len()
    }

    /// Whether the text yielded no id.
    pub fn is_empty(&self) -> (b: bool)
        ensures
            b == (self.entries@.len() == 0),
    {
        self.entries.len() == 0
    }

    /// The ids, ascending.
    pub fn keys(&self) -> (r: Vec<u64>)
        ensures
            r@ == self.key_seq(),
    {
        let mut out: Vec<u64> = Vec::new();
        let mut i: usize = 0;
        while i < self.entries.len()
            invariant
                0 <= i <= self.entries@.len(),
                out@.len() == i,
                forall|k: int| 0 <= k < i ==> out@[k] == (#[trigger] self.entries@[k]).0,
            decreases self.entries@.len() - i,
        {
            out.push(self.entries[i].0);
            i = i + 1;
        }
        proof {
            assert(out@ =~= self.key_seq());
        }
        out
    }

    /// The URL held for an id.
    pub fn get(&self, id: u64) -> (r: Option<&String>)
        ensures
            match r {
                Option::Some(url) => exists|j: int|
                    0 <= j < self.entries@.len() && (#[trigger] self.entries@[j]).0 == id
                        && *url == self.entries@[j].1,
                Option::None => !entries_have(self.entries@, id),
            },
    {
        let mut i: usize = 0;
        while i < self.entries.len()
            invariant
                0 <= i <= self.entries@.len(),
                forall|k: int| 0 <= k < i ==> (#[trigger] self.entries@[k]).0 != id,
            decreases self.entries@.len() - i,
        {
            if self.entries[i].0 == id {
                return Some(&self.entries[i].1);
            }
            i = i + 1;
        }
        None
    }

    /// Extracts every status id from the URLs of a text: each distinct id
    /// once, mapped to the last URL carrying it, in ascending id order;
    /// also reports how many URLs the text held in all.
    #[verifier::loop_isolation(false)]
    pub fn extract(text: &str) -> (r: (UrlMap, usize))
        ensures
            r.0.wf(),
            r.1 == url_links(text@).len(),
            forall|id: u64| entries_have(r.0.entries@, id) <==> links_have_id(
                url_links(text@),
                id,
            ),
            forall|j: int|
                0 <= j < r.0.entries@.len() ==> ((#[trigger] r.0.entries@[j]).1)@
                    == last_link_with(url_links(text@), r.0.entries@[j].0),
    {
        let ghost links = url_links(text@);
        let found = find_links(text);
        let total = found.len();
        let mut um = UrlMap { entries: Vec::new() };
        let mut t: usize = 0;
        while t < found.len()
            invariant
                0 <= t <= found@.len(),
                um.wf(),
                forall|id: u64| entries_have(um.entries@, id) <==> links_have_id(
                    links.take(t as int),
                    id,
                ),
                forall|j: int|
                    0 <= j < um.entries@.len() ==> ((#[trigger] um.entries@[j]).1)@
                        == last_link_with(links.take(t as int), um.entries@[j].0),
            decreases found@.len() - t,
        {
            proof {
                assert(links.take(t + 1).drop_last() =~= links.take(t as int));
                assert(links.take(t + 1).last() == links[t as int]);
                assert((found@[t as int])@ == links[t as int]);
            }
            let url = &found[t];
            let parsed = match capture_status_id(url.as_str()) {
                Some(digits) => parse_u64(digits.as_str()),
                None => None,
            };
            proof {
                assert(parsed == spec_link_id(links[t as int]));
            }
            if let Some(id) = parsed {
                um.insert_sorted(id, url.clone());
                proof {
                    lemma_step_with_id(links, t as int, um, id);
                }
            } else {
                proof {
                    lemma_step_without_id(links, t as int, um);
                }
            }
            t = t + 1;
        }
        proof {
            assert(links.take(links.len() as int) =~= links);
        }
        (um, total)
    }

    /// Inserts or updates one id, keeping ascending order.
    #[verifier::loop_isolation(false)]
    fn insert_sorted(&mut self, id: u64, url: String)
        requires
            old(self).wf(),
        ensures
            final(self).wf(),
            forall|x: u64| entries_have(final(self).entries@, x) <==> entries_have(
                old(self).entries@,
                x,
            ) || x == id,
            forall|j: int|
                0 <= j < final(self).entries@.len() ==> if (#[trigger] final(self).entries@[j]).0
                    == id {
                    final(self).entries@[j].1 == url
                } else {
                    exists|k: int|
                        0 <= k < old(self).entries@.len() && #[trigger] final(self).entries@[j]
                            == old(self).entries@[k]
                },
    {
        let ghost e0 = self.entries@;
        let mut pos: usize = 0;
        while pos < self.entries.len() && self.entries[pos].0 < id
            invariant
                0 <= pos <= self.entries@.len(),
                self.entries@ == e0,
                forall|k: int| 0 <= k < pos ==> (#[trigger] e0[k]).0 < id,
            decreases self.entries@.len() - pos,
        {
            pos = pos + 1;
        }
        if pos < self.entries.len() && self.entries[pos].0 == id {
            self.entries.set(pos, (id, url));
            proof {
                assert forall|x: u64|
                    entries_have(self.entries@, x) implies entries_have(e0, x) || x == id by {
                    let j = choose|j: int|
                        0 <= j < self.entries@.len() && (#[trigger] self.entries@[j]).0 == x;
                    if j != pos {
                        assert(e0[j].0 == x);
                    }
                }
                assert forall|x: u64|
                    entries_have(e0, x) || x == id implies entries_have(self.entries@, x) by {
                    if x == id {
                        assert(self.entries@[pos as int].0 == id);
                    } else {
                        let j = choose|j: int| 0 <= j < e0.len() && (#[trigger] e0[j]).0 == x;
                        assert(self.entries@[j].0 == x);
                    }
                }
            }
        } else {
            self.entries.insert(pos, (id, url));
            proof {
                assert forall|i: int, j: int|
                    0 <= i < j < self.entries@.len() implies (#[trigger] self.entries@[i]).0 < (
                #[trigger] self.entries@[j]).0 by {
                    if i < pos && j == pos {
                        assert(self.entries@[i] == e0[i]);
                    } else if i == pos && j > pos {
                        assert(self.entries@[j] == e0[j - 1]);
                        assert(e0[j - 1].0 != id);
                        if pos < e0.len() && j - 1 == pos {
                            assert(e0[pos as int].0 > id);
                        } else {
                            assert(e0[pos as int].0 > id || pos == e0.len());
                            assert(e0[j - 1].0 >= e0[pos as int].0 || pos == e0.len());
                        }
                    } else if i < pos && j > pos {
                        assert(self.entries@[i] == e0[i]);
                        assert(self.entries@[j] == e0[j - 1]);
                    } else if j < pos {
                        assert(self.entries@[i] == e0[i]);
                        assert(self.entries@[j] == e0[j]);
                    } else if i > pos {
                        assert(self.entries@[i] == e0[i - 1]);
                        assert(self.entries@[j] == e0[j - 1]);
                    }
                }
                assert forall|x: u64|
                    entries_have(self.entries@, x) implies entries_have(e0, x) || x == id by {
                    let j = choose|j: int|
                        0 <= j < self.entries@.len() && (#[trigger] self.entries@[j]).0 == x;
                    if j < pos {
                        assert(e0[j].0 == x);
                    } else if j > pos {
                        assert(e0[j - 1].0 == x);
                    }
                }
                assert forall|x: u64|
                    entries_have(e0, x) || x == id implies entries_have(self.entries@, x) by {
                    if x == id {
                        assert(self.entries@[pos as int].0 == id);
                    } else {
                        let j = choose|j: int| 0 <= j < e0.len() && (#[trigger] e0[j]).0 == x;
                        if j < pos {
                            assert(self.entries@[j].0 == x);
                        } else {
                            assert(self.entries@[j + 1].0 == x);
                        }
                    }
                }
                assert forall|j: int|
                    0 <= j < self.entries@.len() && (#[trigger] self.entries@[j]).0 != id implies
                    exists|k: int|
                        0 <= k < e0.len() && self.entries@[j] == #[trigger] e0[k] by {
                    if j < pos {
                        assert(self.entries@[j] == e0[j]);
                    } else if j > pos {
                        assert(self.entries@[j] == e0[j - 1]);
                    }
                }
            }
        }
    }
}

/// Absorbing a link that yields an id updates membership and the
/// last-URL-for-id facts in exactly one place.
proof fn lemma_step_with_id(links: Seq<Seq<char>>, t: int, um: UrlMap, id: u64)
    requires
        0 <= t < links.len(),
        spec_link_id(links[t]) == Option::Some(id),
        forall|x: u64| entries_have(um.entries@, x) <==> links_have_id(links.take(t), x) || x
            == id,
        forall|j: int|
            0 <= j < um.entries@.len() ==> if (#[trigger] um.entries@[j]).0 == id {
                (um.entries@[j].1)@ == links[t]
            } else {
                (um.entries@[j].1)@ == last_link_with(links.take(t), um.entries@[j].0)
            },
    ensures
        forall|x: u64| entries_have(um.entries@, x) <==> links_have_id(links.take(t + 1), x),
        forall|j: int|
            0 <= j < um.entries@.len() ==> ((#[trigger] um.entries@[j]).1)@ == last_link_with(
                links.take(t + 1),
                um.entries@[j].0,
            ),
{
    assert(links.take(t + 1).drop_last() =~= links.take(t));
    assert(links.take(t + 1).last() == links[t]);
    assert forall|x: u64|
        entries_have(um.entries@, x) <==> links_have_id(links.take(t + 1), x) by {
        if links_have_id(links.take(t + 1), x) {
            let i = choose|i: int|
                0 <= i < links.take(t + 1).len() && spec_link_id(#[trigger] links.take(t + 1)[i])
                    == Option::Some(x);
            if i < t {
                assert(spec_link_id(links.take(t)[i]) == Option::Some(x));
                assert(links_have_id(links.take(t), x));
            } else {
                assert(x == id);
            }
        }
        if links_have_id(links.take(t), x) {
            let i = choose|i: int|
                0 <= i < links.take(t).len() && spec_link_id(#[trigger] links.take(t)[i])
                    == Option::Some(x);
            assert(spec_link_id(links.take(t + 1)[i]) == Option::Some(x));
            assert(links_have_id(links.take(t + 1), x));
        }
        if x == id {
            assert(spec_link_id(links.take(t + 1)[t]) == Option::Some(x));
            assert(links_have_id(links.take(t + 1), x));
        }
    }
}

/// Absorbing a link that yields no id changes nothing.
proof fn lemma_step_without_id(links: Seq<Seq<char>>, t: int, um: UrlMap)
    requires
        0 <= t < links.len(),
        spec_link_id(links[t]) is None,
        forall|x: u64| entries_have(um.entries@, x) <==> links_have_id(links.take(t), x),
        forall|j: int|
            0 <= j < um.entries@.len() ==> ((#[trigger] um.entries@[j]).1)@ == last_link_with(
                links.take(t),
                um.entries@[j].0,
            ),
    ensures
        forall|x: u64| entries_have(um.entries@, x) <==> links_have_id(links.take(t + 1), x),
        forall|j: int|
            0 <= j < um.entries@.len() ==> ((#[trigger] um.entries@[j]).1)@ == last_link_with(
                links.take(t + 1),
                um.entries@[j].0,
            ),
{
    assert(links.take(t + 1).drop_last() =~= links.take(t));
    assert(links.take(t + 1).last() == links[t]);
    assert forall|x: u64|
        entries_have(um.entries@, x) <==> links_have_id(links.take(t + 1), x) by {
        if links_have_id(links.take(t + 1), x) {
            let i = choose|i: int|
                0 <= i < links.take(t + 1).len() && spec_link_id(#[trigger] links.take(t + 1)[i])
                    == Option::Some(x);
            if i < t {
                assert(spec_link_id(links.take(t)[i]) == Option::Some(x));
                assert(links_have_id(links.take(t), x));
            } else {
                assert(false);
            }
        }
        if links_have_id(links.take(t), x) {
            let i = choose|i: int|
                0 <= i < links.take(t).len() && spec_link_id(#[trigger] links.take(t)[i])
                    == Option::Some(x);
            assert(spec_link_id(links.take(t + 1)[i]) == Option::Some(x));
            assert(links_have_id(links.take(t + 1), x));
        }
    }
}

/// The handles a list of texts yields, one per text that starts as a
/// handle or author page, in order.
pub open spec fn spec_screen_names(texts: Seq<Seq<char>>) -> Seq<Seq<char>>
    decreases texts.len(),
{
    if texts.len() == 0 {
        Seq::empty()
    } else {
        let rest = spec_screen_names(texts.drop_last());
        match screen_name_text(texts.last()) {
            Option::Some(name) => rest.push(name),
            Option::None => rest,
        }
    }
}

/// The views of a list of strings.
pub open spec fn string_views(texts: Seq<String>) -> Seq<Seq<char>> {
    texts.map_values(|t: String| t@)
}

/// Reads the author handles out of the given texts: each text that starts
/// as a handle, an @-handle, or an author page URL contributes its handle,
/// in order.
#[verifier::loop_isolation(false)]
pub fn extract_screen_names(texts: &[String]) -> (r: Vec<String>)
    ensures
        string_views(r@) == spec_screen_names(string_views(texts@)),
{
    let ghost tv = string_views(texts@);
    let mut out: Vec<String> = Vec::new();
    let mut i: usize = 0;
    while i < texts.len()
        invariant
            0 <= i <= texts@.len(),
            string_views(out@) == spec_screen_names(tv.take(i as int)),
        decreases texts@.len() - i,
    {
        let ghost o0 = string_views(out@);
        proof {
            assert(tv.take(i + 1).drop_last() =~= tv.take(i as int));
            assert(tv.take(i + 1).last() == tv[i as int]);
            assert((texts@[i as int])@ == tv[i as int]);
        }
        match capture_screen_name(texts[i].as_str()) {
            Some(name) => {
                out.push(name);
                proof {
                    assert(string_views(out@) =~= o0.push(
                        screen_name_text(tv[i as int])->0,
                    ));
                }
            },
            None => {},
        }
        i = i + 1;
    }
    proof {
        assert(tv.take(tv.len() as int) =~= tv);
    }
    out
}

/// The batches a lookup splits its ids into: full batches of the given
/// size, in order, the last possibly short.
pub open spec fn spec_chunks(ids: Seq<u64>, size: int) -> Seq<Seq<u64>>
    recommends
        size > 0,
    decreases ids.len(),
{
    if ids.len() == 0 || size <= 0 {
        Seq::empty()
    } else if ids.len() <= size {
        seq![ids]
    } else {
        seq![ids.take(size)] + spec_chunks(ids.skip(size), size)
    }
}

/// Splits ids into lookup batches of at most `size`, keeping order.
#[verifier::loop_isolation(false)]
pub fn lookup_chunks(ids: &Vec<u64>, size: usize) -> (r: Vec<Vec<u64>>)
    requires
        size > 0,
    ensures
        r@.map_values(|c: Vec<u64>| c@) == spec_chunks(ids@, size as int),
{
    let mut out: Vec<Vec<u64>> = Vec::new();
    let mut start: usize = 0;
    proof {
        assert(ids@.skip(0) =~= ids@);
        assert(out@.map_values(|c: Vec<u64>| c@) + spec_chunks(ids@, size as int) =~= spec_chunks(
            ids@,
            size as int,
        ));
    }
    while start < ids.len()
        invariant
            0 <= start <= ids@.len(),
            spec_chunks(ids@, size as int) == out@.map_values(|c: Vec<u64>| c@) + spec_chunks(
                ids@.skip(start as int),
                size as int,
            ),
        decreases ids@.len() - start,
    {
        let ghost o0 = out@.map_values(|c: Vec<u64>| c@);
        let stop = if ids.len() - start < size {
            ids.len()
        } else {
            start + size
        };
        let mut chunk: Vec<u64> = Vec::new();
        let mut k: usize = start;
        while k < stop
            invariant
                start <= k <= stop <= ids@.len(),
                chunk@ == ids@.subrange(start as int, k as int),
            decreases stop - k,
        {
            proof {
                assert(ids@.subrange(start as int, k + 1).drop_last() =~= ids@.subrange(
                    start as int,
                    k as int,
                ));
            }
            chunk.push(ids[k]);
            k = k + 1;
        }
        proof {
            let rest = ids@.skip(start as int);
            assert(chunk@ =~= rest.take(stop - start));
            if ids@.len() - start <= size {
                assert(chunk@ =~= rest);
                assert(spec_chunks(rest, size as int) =~= seq![rest]);
                assert(spec_chunks(ids@.skip(stop as int), size as int) =~= Seq::<Seq<u64>>::empty());
            } else {
                assert(rest.skip(size as int) =~= ids@.skip(stop as int));
            }
        }
        out.push(chunk);
        proof {
            assert(out@.map_values(|c: Vec<u64>| c@) =~= o0.push(
                ids@.skip(start as int).take(stop - start),
            ));
            assert(spec_chunks(ids@, size as int) =~= out@.map_values(|c: Vec<u64>| c@)
                + spec_chunks(ids@.skip(stop as int), size as int));
        }
        start = stop;
    }
    proof {
        assert(ids@.skip(ids@.len() as int) =~= Seq::<u64>::empty());
        assert(spec_chunks(ids@, size as int) =~= out@.map_values(|c: Vec<u64>| c@));
    }
    out
}

/// The comma-joined decimal id parameter of one lookup batch.
pub open spec fn spec_join_ids(ids: Seq<u64>) -> Seq<char>
    decreases ids.len(),
{
    if ids.len() == 0 {
        Seq::empty()
    } else if ids.len() == 1 {
        dec_rep(ids[0] as int)
    } else {
        spec_join_ids(ids.drop_last()) + seq![','] + dec_rep(ids.last() as int)
    }
}

/// Writes a lookup batch as comma-separated decimal ids.
#[verifier::loop_isolation(false)]
pub fn join_ids(ids: &Vec<u64>) -> (r: String)
    ensures
        r@ == spec_join_ids(ids@),
{
    let mut out = String::new();
    let mut i: usize = 0;
    proof {
        reveal_strlit(",");
        assert(","@ =~= seq![',']);
    }
    while i < ids.len()
        invariant
            0 <= i <= ids@.len(),
            out@ == spec_join_ids(ids@.take(i as int)),
        decreases ids@.len() - i,
    {
        proof {
            assert(ids@.take(i + 1).drop_last() =~= ids@.take(i as int));
            assert(ids@.take(i + 1).last() == ids@[i as int]);
        }
        if i > 0 {
            out.append(",");
        }
        push_dec(ids[i], &mut out);
        proof {
            if i == 0 {
                assert(ids@.take(1int)[0] == ids@[0]);
                assert(out@ =~= spec_join_ids(ids@.take(1int)));
            } else {
                assert(out@ =~= spec_join_ids(ids@.take(i + 1)));
            }
        }
        i = i + 1;
    }
    proof {
        assert(ids@.take(ids@.len() as int) =~= ids@);
    }
    out
}

} // verus!
