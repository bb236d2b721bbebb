//! Deleting messages on the server by Message-ID, in one session.
//!
//! For each Message-ID the server is searched for the identifier as given,
//! then without its angle brackets, and as a last resort the Message-ID
//! headers of all messages are scanned for it. The UIDs found are then
//! marked deleted in one store and expunged once. `DeleteBatch` makes these
//! decisions; the network layer carries out each action and reports back.

use vstd::prelude::*;

use super::headers::{decode_utf8_lossy, utf8_lossy};
use crate::db::{first_index, lemma_first_index_at};
use crate::text::{
    chars_contain, chars_of, contains_chars, decimal, decimal_chars, extend_chars, join,
    join_chars, string_of, sub_chars, views,
};

verus! {

// ─── Message-ID forms ────────────────────────────────────────────────────────

pub open spec fn is_angle(c: char) -> bool {
    c == '<' || c == '>'
}

/// `s` without its leading angle brackets.
pub open spec fn drop_leading_angles(s: Seq<char>) -> Seq<char>
    decreases s.len(),
{
    if s.len() > 0 && is_angle(s[0]) {
        drop_leading_angles(s.drop_first())
    } else {
        s
    }
}

/// `s` without its trailing angle brackets.
pub open spec fn drop_trailing_angles(s: Seq<char>) -> Seq<char>
    decreases s.len(),
{
    if s.len() > 0 && is_angle(s.last()) {
        drop_trailing_angles(s.drop_last())
    } else {
        s
    }
}

/// A Message-ID without the angle brackets around it (`str::trim_matches`
/// with `<` and `>`).
pub open spec fn bare_message_id(s: Seq<char>) -> Seq<char> {
    drop_trailing_angles(drop_leading_angles(s))
}

proof fn lemma_drop_leading(s: Seq<char>, i: int)
    requires
        0 <= i <= s.len(),
        forall|j: int| 0 <= j < i ==> is_angle(#[trigger] s[j]),
        i < s.len() ==> !is_angle(s[i]),
    ensures
        drop_leading_angles(s) == s.skip(i),
    decreases i,
{
    if i > 0 {
        lemma_drop_leading(s.drop_first(), i - 1);
        assert(s.drop_first().skip(i - 1) =~= s.skip(i));
    } else {
        assert(s.skip(0) =~= s);
    }
}

proof fn lemma_drop_trailing(s: Seq<char>, i: int)
    requires
        0 <= i <= s.len(),
        forall|j: int| i <= j < s.len() ==> is_angle(#[trigger] s[j]),
        i > 0 ==> !is_angle(s[i - 1]),
    ensures
        drop_trailing_angles(s) == s.take(i),
    decreases s.len() - i,
{
    if i < s.len() {
        lemma_drop_trailing(s.drop_last(), i);
        assert(s.drop_last().take(i) =~= s.take(i));
    } else {
        assert(s.take(i) =~= s);
    }
}

/// `id` without the angle brackets around it.
pub fn bare_id(id: &str) -> (r: Vec<char>)
    ensures
        r@ == bare_message_id(id@),
{
    let v = chars_of(id);
    let mut i: usize = 0;
    while i < v.len() && (v[i] == '<' || v[i] == '>')
        invariant
            i <= v.len(),
            forall|j: int| 0 <= j < i ==> is_angle(#[trigger] v@[j]),
        decreases v.len() - i,
    {
        i = i + 1;
    }
    proof {
        lemma_drop_leading(v@, i as int);
    }
    let rest = sub_chars(&v, i, v.len());
    let mut k: usize = rest.len();
    while k > 0 && (rest[k - 1] == '<' || rest[k - 1] == '>')
        invariant
            k <= rest.len(),
            forall|j: int| k <= j < rest.len() ==> is_angle(#[trigger] rest@[j]),
        decreases k,
    {
        k = k - 1;
    }
    proof {
        lemma_drop_trailing(rest@, k as int);
    }
    sub_chars(&rest, 0, k)
}

/// The IMAP search key that finds a message by its Message-ID header.
pub open spec fn message_id_query(id: Seq<char>) -> Seq<char> {
    "HEADER Message-ID \""@ + id + seq!['"']
}

/// The search key for Message-ID `id`.
pub fn message_id_search(id: &Vec<char>) -> (r: String)
    ensures
        r@ == message_id_query(id@),
{
    let mut v = chars_of("HEADER Message-ID \"");
    extend_chars(&mut v, id);
    v.push('"');
    string_of(&v)
}

// ─── Scanning headers ────────────────────────────────────────────────────────

/// A fetched header block (with the message's UID, if reported) that
/// mentions `text`.
pub open spec fn scan_hit(text: Seq<char>) -> spec_fn((Option<u32>, Option<Seq<u8>>)) -> bool {
    |item: (Option<u32>, Option<Seq<u8>>)|
        item.0 is Some && match item.1 {
            Some(h) => contains_chars(utf8_lossy(h), text),
            None => false,
        }
}

/// The UIDs and header blocks of fetched messages, by their bytes.
pub open spec fn fetched_views(items: Seq<(Option<u32>, Option<Vec<u8>>)>) -> Seq<
    (Option<u32>, Option<Seq<u8>>),
> {
    items.map_values(
        |it: (Option<u32>, Option<Vec<u8>>)|
            (
                it.0,
                match it.1 {
                    Some(h) => Some(h@),
                    None => None,
                },
            ),
    )
}

/// The UID of the first fetched message whose header block, decoded
/// leniently, mentions `text`; messages without a header block or a UID are
/// passed over.
pub fn scan_pick(items: &Vec<(Option<u32>, Option<Vec<u8>>)>, text: &Vec<char>) -> (r: Option<u32>)
    ensures
        match first_index(fetched_views(items@), scan_hit(text@)) {
            Some(i) => r == fetched_views(items@)[i].0,
            None => r is None,
        },
{
    let ghost fv = fetched_views(items@);
    let mut i: usize = 0;
    while i < items.len()
        invariant
            i <= items.len(),
            fv == fetched_views(items@),
            forall|k: int| 0 <= k < i ==> !scan_hit(text@)(#[trigger] fv[k]),
        decreases items.len() - i,
    {
        assert(fv[i as int].0 == items@[i as int].0);
        if let Some(h) = &items[i].1 {
            assert(fv[i as int].1 == Some(h@));
            let decoded = decode_utf8_lossy(h.as_slice());
            let dv = chars_of(decoded.as_str());
            if chars_contain(&dv, text) {
                if let Some(uid) = items[i].0 {
                    proof {
                        lemma_first_index_at(fv, scan_hit(text@), i as int);
                    }
                    return Some(uid);
                }
            }
        }
        i = i + 1;
    }
    proof {
        lemma_first_index_at(fv, scan_hit(text@), i as int);
    }
    None
}

// ─── UID sets ────────────────────────────────────────────────────────────────

/// The UIDs in decimal, separated by commas.
pub open spec fn uid_list(uids: Seq<u32>) -> Seq<char> {
    join(uids.map_values(|u: u32| decimal(u as nat)), seq![','])
}

/// The UID set naming `uids`.
pub fn uid_set_string(uids: &Vec<u32>) -> (r: String)
    ensures
        r@ == uid_list(uids@),
{
    let mut parts: Vec<Vec<char>> = Vec::new();
    let mut i: usize = 0;
    while i < uids.len()
        invariant
            i <= uids.len(),
            views(parts@) == uids@.take(i as int).map_values(|u: u32| decimal(u as nat)),
        decreases uids.len() - i,
    {
        let d = decimal_chars(uids[i] as u64);
        let ghost before = views(parts@);
        parts.push(d);
        assert(views(parts@) =~= before.push(d@));
        assert(uids@.take(i + 1).map_values(|u: u32| decimal(u as nat)) =~= uids@.take(
            i as int,
        ).map_values(|u: u32| decimal(u as nat)).push(decimal(uids@[i as int] as nat)));
        i = i + 1;
    }
    assert(uids@.take(uids.len() as int) =~= uids@);
    let sep: Vec<char> = vec![','];
    assert(sep@ =~= seq![',']);
    let joined = join_chars(&parts, &sep);
    string_of(&joined)
}

// ─── The batch ───────────────────────────────────────────────────────────────

/// How the Message-ID at hand is looked for next.
#[derive(Debug, Clone, Copy, PartialEq, Eq, Structural)]
pub enum SearchStage {
    /// A header search for the Message-ID as given.
    Exact,
    /// A header search for it without angle brackets.
    Bare,
    /// A scan of every message's Message-ID header.
    Scan,
}

/// What the network layer is to do next.
#[derive(Debug, Clone)]
pub enum DeleteAction {
    /// Run `UID SEARCH` with this key and report the UIDs found.
    Search(String),
    /// Fetch the Message-ID header block of every message, and report the
    /// UID that `scan_pick` picks for this text, if any.
    Scan(Vec<char>),
    /// Mark the messages of this UID set deleted, then expunge.
    Store(String),
    /// Nothing is left to do.
    Done,
}

/// The state of a batch deletion.
pub struct DeleteBatch {
    pub ids: Vec<String>,
    pub next: usize,
    pub stage: SearchStage,
    pub uids: Vec<u32>,
}

pub struct DeleteBatchView {
    pub ids: Seq<Seq<char>>,
    pub next: int,
    pub stage: SearchStage,
    pub uids: Seq<u32>,
}

impl View for DeleteBatch {
    type V = DeleteBatchView;

    open spec fn view(&self) -> DeleteBatchView {
        DeleteBatchView {
            ids: self.ids@.map_values(|s: String| s@),
            next: self.next as int,
            stage: self.stage,
            uids: self.uids@,
        }
    }
}

/// The spec of an action, by its characters.
pub enum DeleteActionView {
    Search(Seq<char>),
    Scan(Seq<char>),
    Store(Seq<char>),
    Done,
}

impl View for DeleteAction {
    type V = DeleteActionView;

    open spec fn view(&self) -> DeleteActionView {
        match self {
            DeleteAction::Search(q) => DeleteActionView::Search(q@),
            DeleteAction::Scan(t) => DeleteActionView::Scan(t@),
            DeleteAction::Store(s) => DeleteActionView::Store(s@),
            DeleteAction::Done => DeleteActionView::Done,
        }
    }
}

/// `found` added to `uids`, each UID once, in the order found.
pub open spec fn add_uids(uids: Seq<u32>, found: Seq<u32>) -> Seq<u32>
    decreases found.len(),
{
    if found.len() == 0 {
        uids
    } else {
        let before = add_uids(uids, found.drop_last());
        if before.contains(found.last()) {
            before
        } else {
            before.push(found.last())
        }
    }
}

/// No UID appears twice.
pub open spec fn distinct(uids: Seq<u32>) -> bool {
    forall|i: int, j: int| 0 <= i < j < uids.len() ==> uids[i] != uids[j]
}

impl DeleteBatchView {
    /// The batch's integrity: the position is within the list, and no UID
    /// is recorded twice.
    pub open spec fn wf(self) -> bool {
        0 <= self.next <= self.ids.len() && distinct(self.uids)
    }

    /// The next action.
    pub open spec fn action(self) -> DeleteActionView {
        if self.next >= self.ids.len() {
            if self.uids.len() == 0 {
                DeleteActionView::Done
            } else {
                DeleteActionView::Store(uid_list(self.uids))
            }
        } else {
            let id = self.ids[self.next];
            match self.stage {
                SearchStage::Exact => DeleteActionView::Search(message_id_query(id)),
                SearchStage::Bare => DeleteActionView::Search(
                    message_id_query(bare_message_id(id)),
                ),
                SearchStage::Scan => DeleteActionView::Scan(bare_message_id(id)),
            }
        }
    }

    /// The state after the search or scan for the current Message-ID found
    /// `found`: what was found is recorded and the next Message-ID is taken
    /// up, unless a search found nothing, which moves on to the next way of
    /// looking (a scan is the last).
    pub open spec fn record(self, found: Seq<u32>) -> DeleteBatchView {
        if self.stage != SearchStage::Scan && found.len() == 0 {
            DeleteBatchView {
                stage: if self.stage == SearchStage::Exact {
                    SearchStage::Bare
                } else {
                    SearchStage::Scan
                },
                ..self
            }
        } else {
            DeleteBatchView {
                next: self.next + 1,
                stage: SearchStage::Exact,
                uids: add_uids(self.uids, found),
                ..self
            }
        }
    }
}

impl DeleteBatch {
    /// A batch for these Message-IDs, nothing found yet.
    pub fn new(ids: Vec<String>) -> (r: Self)
        ensures
            r@.ids == ids@.map_values(|s: String| s@),
            r@.next == 0,
            r@.stage == SearchStage::Exact,
            r@.uids == Seq::<u32>::empty(),
            r@.wf(),
    {
        DeleteBatch { ids, next: 0, stage: SearchStage::Exact, uids: Vec::new() }
    }

    /// The next action (see `DeleteBatchView::action`).
    pub fn action(&self) -> (r: DeleteAction)
        requires
            self@.wf(),
        ensures
            r@ == self@.action(),
    {
        if self.next >= self.ids.len() {
            if self.uids.len() == 0 {
                DeleteAction::Done
            } else {
                DeleteAction::Store(uid_set_string(&self.uids))
            }
        } else {
            let ghost id = self@.ids[self.next as int];
            assert(self.ids@[self.next as int]@ == id);
            match self.stage {
                SearchStage::Exact => {
                    let v = chars_of(self.ids[self.next].as_str());
                    DeleteAction::Search(message_id_search(&v))
                },
                SearchStage::Bare => {
                    let b = bare_id(self.ids[self.next].as_str());
                    DeleteAction::Search(message_id_search(&b))
                },
                SearchStage::Scan => DeleteAction::Scan(bare_id(self.ids[self.next].as_str())),
            }
        }
    }

    /// Records what the current search or scan found (see
    /// `DeleteBatchView::record`).
    pub fn record(&mut self, found: Vec<u32>)
        requires
            old(self)@.wf(),
            old(self)@.next < old(self)@.ids.len(),
        ensures
            final(self)@ == old(self)@.record(found@),
            final(self)@.wf(),
    {
        if self.stage != SearchStage::Scan && found.len() == 0 {
            self.stage = if self.stage == SearchStage::Exact {
                SearchStage::Bare
            } else {
                SearchStage::Scan
            };
            return;
        }
        let ghost start = self.uids@;
        let mut k: usize = 0;
        while k < found.len()
            invariant
                k <= found.len(),
                self.uids@ == add_uids(start, found@.take(k as int)),
                distinct(self.uids@),
                self.ids == old(self).ids,
                self.next == old(self).next,
                self.stage == old(self).stage,
                start == old(self).uids@,
            decreases found.len() - k,
        {
            assert(found@.take(k + 1).drop_last() =~= found@.take(k as int));
            let u = found[k];
            let mut seen = false;
            let mut j: usize = 0;
            while j < self.uids.len()
                invariant
                    j <= self.uids.len(),
                    seen == exists|m: int| 0 <= m < j && self.uids@[m] == u,
                decreases self.uids.len() - j,
            {
                if self.uids[j] == u {
                    seen = true;
                }
                j = j + 1;
            }
            if !seen {
                self.uids.push(u);
            }
            k = k + 1;
        }
        assert(found@.take(found.len() as int) =~= found@);
        let count = self.ids.len();
        assert(self.next < count);
        self.next = self.next + 1;
        self.stage = SearchStage::Exact;
    }
}


// ─── Laws of the batch ───────────────────────────────────────────────────────

/// Adding found UIDs keeps the ones recorded, in place, records every one
/// found, and records none twice.
pub proof fn lemma_add_uids(uids: Seq<u32>, found: Seq<u32>)
    requires
        distinct(uids),
    ensures
        distinct(add_uids(uids, found)),
        uids.len() <= add_uids(uids, found).len(),
        forall|i: int| 0 <= i < uids.len() ==> #[trigger] add_uids(uids, found)[i] == uids[i],
        forall|k: int| 0 <= k < found.len() ==> add_uids(uids, found).contains(#[trigger] found[k]),
    decreases found.len(),
{
    if found.len() > 0 {
        lemma_add_uids(uids, found.drop_last());
        let before = add_uids(uids, found.drop_last());
        assert forall|k: int| 0 <= k < found.len() implies add_uids(uids, found).contains(#[trigger] found[k]) by {
            if k < found.len() - 1 {
                assert(found.drop_last()[k] == found[k]);
                let j = choose|j: int| 0 <= j < before.len() && before[j] == found[k];
                if !before.contains(found.last()) {
                    assert(before.push(found.last())[j] == found[k]);
                }
            } else if !before.contains(found.last()) {
                assert(before.push(found.last())[before.len() as int] == found.last());
            }
        }
    }
}

/// The number of searches and scans a batch may still ask for: at most
/// three for each Message-ID not yet done, fewer for the one at hand as its
/// stages go by.
pub open spec fn remaining_steps(b: DeleteBatchView) -> int {
    3 * (b.ids.len() - b.next) - match b.stage {
        SearchStage::Exact => 0int,
        SearchStage::Bare => 1int,
        SearchStage::Scan => 2int,
    }
}

/// Every recorded search or scan keeps the batch's integrity and brings it
/// closer to its end: a batch asks for at most three searches or scans per
/// Message-ID before it stores its deletions.
pub proof fn law_batch_progresses(b: DeleteBatchView, found: Seq<u32>)
    requires
        b.wf(),
        b.next < b.ids.len(),
    ensures
        b.record(found).wf(),
        0 <= remaining_steps(b.record(found)) < remaining_steps(b),
{
    lemma_add_uids(b.uids, found);
}

/// What a search or scan found stays recorded until the batch stores its
/// deletions: the UIDs recorded before are kept in place, and those found
/// are added, unless a search found nothing and the next way of looking is
/// taken up.
pub proof fn law_batch_keeps_found(b: DeleteBatchView, found: Seq<u32>)
    requires
        b.wf(),
        b.next < b.ids.len(),
    ensures
        forall|i: int| 0 <= i < b.uids.len() ==> #[trigger] b.record(found).uids[i] == b.uids[i],
        found.len() > 0 || b.stage == SearchStage::Scan ==> forall|k: int|
            0 <= k < found.len() ==> b.record(found).uids.contains(#[trigger] found[k]),
{
    lemma_add_uids(b.uids, found);
}

} // verus!
