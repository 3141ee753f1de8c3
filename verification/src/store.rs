//! The entry store and lifecycle: keyed storage for guest entries, queryable
//! by status, ordered by creation time, mutated only by the operator
//! transitions. Entries are never deleted; rejection is a state.

use vstd::prelude::*;

use crate::filter::{initial_status, ModerationFilter};
use crate::models::{entries_view, CreateGuestEntryRequest, EntryModel, EntryStatus, GuestEntry};

verus! {

pub open spec fn is_approved(e: EntryModel) -> bool {
    e.status == EntryStatus::Approved
}

pub open spec fn is_pending(e: EntryModel) -> bool {
    e.status == EntryStatus::PendingReview
}

/// The entries selected by `p`, newest first. The store keeps entries oldest
/// first, so the selection walks the store from the back.
pub open spec fn select_newest_first(
    s: Seq<EntryModel>,
    p: spec_fn(EntryModel) -> bool,
) -> Seq<EntryModel>
    decreases s.len(),
{
    if s.len() == 0 {
        Seq::empty()
    } else if p(s.last()) {
        seq![s.last()] + select_newest_first(s.drop_last(), p)
    } else {
        select_newest_first(s.drop_last(), p)
    }
}

/// What a public listing returns: approved entries, newest first.
pub open spec fn approved_newest_first(s: Seq<EntryModel>) -> Seq<EntryModel> {
    select_newest_first(s, |e: EntryModel| is_approved(e))
}

/// What an operator listing returns: entries held for review first, then the
/// rest, each group newest first.
pub open spec fn pending_first(s: Seq<EntryModel>) -> Seq<EntryModel> {
    select_newest_first(s, |e: EntryModel| is_pending(e)) + select_newest_first(
        s,
        |e: EntryModel| !is_pending(e),
    )
}

/// One entry after a status overwrite aimed at `id`.
pub open spec fn with_status(e: EntryModel, id: u64, status: EntryStatus) -> EntryModel {
    if e.id == id {
        EntryModel { status, ..e }
    } else {
        e
    }
}

/// The store after `set_status(id, status)`: the status of every entry with
/// that id is overwritten, every other field and entry is untouched, and a
/// missing id changes nothing.
pub open spec fn set_status_seq(s: Seq<EntryModel>, id: u64, status: EntryStatus) -> Seq<
    EntryModel,
> {
    Seq::new(s.len(), |i: int| with_status(s[i], id, status))
}

/// Creation times never decrease along insertion order.
pub open spec fn times_ordered(s: Seq<EntryModel>) -> bool {
    forall|i: int, j: int|
        0 <= i < j < s.len() ==> (#[trigger] s[i]).created_at <= (#[trigger] s[j]).created_at
}

/// The store's internal invariant: ids are the insertion positions (hence
/// unique and never reassigned), and creation times follow insertion order.
pub open spec fn store_inv(s: Seq<EntryModel>) -> bool {
    &&& forall|i: int| 0 <= i < s.len() ==> (#[trigger] s[i]).id == i
    &&& times_ordered(s)
}

/// The creation time a new entry receives when the clock reads `now`: the
/// reading itself, unless an existing entry is already dated later.
pub open spec fn new_time(s: Seq<EntryModel>, now: i64) -> i64 {
    if s.len() == 0 || s.last().created_at <= now {
        now
    } else {
        s.last().created_at
    }
}

/// Every selected entry satisfies the predicate and comes from the store, and
/// the selection is newest first whenever the store is ordered oldest first.
pub proof fn lemma_select_newest_first(s: Seq<EntryModel>, p: spec_fn(EntryModel) -> bool)
    requires
        times_ordered(s),
    ensures
        forall|i: int|
            0 <= i < select_newest_first(s, p).len() ==> p(
                #[trigger] select_newest_first(s, p)[i],
            ),
        forall|i: int|
            0 <= i < select_newest_first(s, p).len() ==> s.contains(
                #[trigger] select_newest_first(s, p)[i],
            ),
        forall|i: int, j: int|
            0 <= i < j < select_newest_first(s, p).len() ==> (#[trigger] select_newest_first(
                s,
                p,
            )[i]).created_at >= (#[trigger] select_newest_first(s, p)[j]).created_at,
    decreases s.len(),
{
    if s.len() > 0 {
        let rest = s.drop_last();
        assert(times_ordered(rest)) by {
            assert(forall|i: int, j: int|
                0 <= i < j < rest.len() ==> (#[trigger] rest[i]).created_at
                    <= (#[trigger] rest[j]).created_at) by {
                assert(forall|i: int| 0 <= i < rest.len() ==> rest[i] == s[i]);
            }
        }
        lemma_select_newest_first(rest, p);
        let sel = select_newest_first(s, p);
        let selr = select_newest_first(rest, p);
        assert(forall|i: int| 0 <= i < rest.len() ==> rest[i] == s[i]);
        assert(forall|i: int| 0 <= i < selr.len() ==> s.contains(#[trigger] selr[i])) by {
            assert forall|i: int| 0 <= i < selr.len() implies s.contains(#[trigger] selr[i]) by {
                let k = choose|k: int| 0 <= k < rest.len() && rest[k] == selr[i];
                assert(s[k] == selr[i]);
            }
        }
        // every entry of the rest is dated no later than the last entry
        assert(forall|i: int|
            0 <= i < selr.len() ==> (#[trigger] selr[i]).created_at <= s.last().created_at) by {
            assert forall|i: int|
                0 <= i < selr.len() implies (#[trigger] selr[i]).created_at
                <= s.last().created_at by {
                let k = choose|k: int| 0 <= k < rest.len() && rest[k] == selr[i];
                assert(s[k] == selr[i]);
                if k < s.len() - 1 {
                    assert(s[k].created_at <= s[s.len() - 1].created_at);
                }
            }
        }
        if p(s.last()) {
            assert(sel == seq![s.last()] + selr);
            assert(forall|i: int| 0 <= i < selr.len() ==> sel[i + 1] == selr[i]);
            assert(sel[0] == s.last());
            assert(s.contains(s.last())) by {
                assert(s[s.len() - 1] == s.last());
            }
            assert forall|i: int, j: int|
                0 <= i < j < sel.len() implies (#[trigger] sel[i]).created_at
                >= (#[trigger] sel[j]).created_at by {
                if i == 0 {
                    assert(sel[j] == selr[j - 1]);
                } else {
                    assert(sel[i] == selr[i - 1]);
                    assert(sel[j] == selr[j - 1]);
                }
            }
            assert forall|i: int| 0 <= i < sel.len() implies p(#[trigger] sel[i]) by {
                if i > 0 {
                    assert(sel[i] == selr[i - 1]);
                }
            }
            assert forall|i: int| 0 <= i < sel.len() implies s.contains(#[trigger] sel[i]) by {
                if i > 0 {
                    assert(sel[i] == selr[i - 1]);
                }
            }
        } else {
            assert(sel == selr);
        }
    }
}

/// Overwriting a status twice with one target is the same as overwriting it
/// once, and every entry carrying the id carries the target status
/// afterwards: approving an already-approved entry is a no-op in effect.
pub proof fn lemma_set_status_idempotent(s: Seq<EntryModel>, id: u64, status: EntryStatus)
    ensures
        set_status_seq(set_status_seq(s, id, status), id, status) == set_status_seq(
            s,
            id,
            status,
        ),
        forall|i: int|
            0 <= i < s.len() && (#[trigger] s[i]).id == id ==> set_status_seq(s, id, status)[i]
                .status == status,
{
    assert(set_status_seq(set_status_seq(s, id, status), id, status) =~= set_status_seq(
        s,
        id,
        status,
    ));
}

/// The guestbook: the moderation filter fixed at construction, and the stored
/// entries in insertion order.
pub struct Guestbook {
    filter: ModerationFilter,
    entries: Vec<GuestEntry>,
}

impl View for Guestbook {
    type V = Seq<EntryModel>;

    closed spec fn view(&self) -> Seq<EntryModel> {
        entries_view(self.entries@)
    }
}

impl Guestbook {
    /// The deny-list the store moderates with.
    pub closed spec fn deny(self) -> Seq<Seq<char>> {
        self.filter@
    }

    pub open spec fn wf(self) -> bool {
        store_inv(self@)
    }

    pub fn new(filter: ModerationFilter) -> (gb: Guestbook)
        ensures
            gb.wf(),
            gb@ == Seq::<EntryModel>::empty(),
            gb.deny() == filter@,
    {
        let gb = Guestbook { filter, entries: Vec::new() };
        proof {
            assert(gb@ =~= Seq::<EntryModel>::empty());
        }
        gb
    }

    /// Accept a public submission: the moderation filter decides the initial
    /// status (never `Rejected`), the store assigns the next id and a
    /// creation time no earlier than `now`, and the stored record is
    /// returned.
    pub fn submit(&mut self, req: CreateGuestEntryRequest, now: i64) -> (e: GuestEntry)
        requires
            old(self).wf(),
        ensures
            final(self).wf(),
            final(self).deny() == old(self).deny(),
            final(self)@ == old(self)@.push(e@),
            e@.name == req.name@,
            e@.message == req.message@,
            e@.website == (match req.website {
                Some(w) => Some(w@),
                None => None::<Seq<char>>,
            }),
            e@.status == initial_status(old(self).deny(), req.name@, req.message@),
            e@.id == old(self)@.len(),
            e@.created_at == new_time(old(self)@, now),
            now <= e@.created_at,
    {
        let status = self.filter.verdict(req.name.as_str(), req.message.as_str());
        let created_at = if self.entries.len() == 0 {
            now
        } else {
            let prev = self.entries[self.entries.len() - 1].created_at;
            if prev <= now {
                now
            } else {
                prev
            }
        };
        let id = self.entries.len() as u64;
        let entry = GuestEntry {
            id,
            name: req.name,
            message: req.message,
            website: req.website,
            status,
            created_at,
        };
        let stored = entry.duplicate();
        self.entries.push(entry);
        proof {
            assert(self@ =~= old(self)@.push(stored@));
            let s0 = old(self)@;
            let s1 = self@;
            assert forall|a: int| 0 <= a < s1.len() implies (#[trigger] s1[a]).id == a by {
                if a < s0.len() {
                    assert(s1[a] == s0[a]);
                }
            }
            assert forall|a: int, b: int|
                0 <= a < b < s1.len() implies (#[trigger] s1[a]).created_at
                <= (#[trigger] s1[b]).created_at by {
                if b < s0.len() {
                    assert(s1[a] == s0[a] && s1[b] == s0[b]);
                } else {
                    assert(s1[b] == stored@);
                    if a < s0.len() {
                        assert(s1[a] == s0[a]);
                        if a < s0.len() - 1 {
                            assert(s0[a].created_at <= s0[s0.len() - 1].created_at);
                        }
                    }
                }
            }
        }
        stored
    }

    /// List the published entries: approved only, newest first.
    pub fn list_public(&self) -> (r: Vec<GuestEntry>)
        requires
            self.wf(),
        ensures
            entries_view(r@) == approved_newest_first(self@),
            forall|i: int|
                0 <= i < r@.len() ==> (#[trigger] entries_view(r@)[i]).status
                    == EntryStatus::Approved,
            forall|i: int, j: int|
                0 <= i < j < r@.len() ==> (#[trigger] entries_view(r@)[i]).created_at
                    >= (#[trigger] entries_view(r@)[j]).created_at,
    {
        let ghost s = self@;
        let ghost p = |e: EntryModel| is_approved(e);
        let mut r: Vec<GuestEntry> = Vec::new();
        let mut i: usize = self.entries.len();
        proof {
            assert(s.take(i as int) =~= s);
        }
        while i > 0
            invariant
                i <= self.entries.len(),
                s == entries_view(self.entries@),
                p == (|e: EntryModel| is_approved(e)),
                select_newest_first(s, p) == entries_view(r@) + select_newest_first(
                    s.take(i as int),
                    p,
                ),
                forall|k: int| 0 <= k < r@.len() ==> p(#[trigger] entries_view(r@)[k]),
            decreases i,
        {
            i = i - 1;
            let ghost prefix = s.take(i as int + 1);
            proof {
                assert(prefix.last() == s[i as int]);
                assert(prefix.drop_last() =~= s.take(i as int));
            }
            let e = &self.entries[i];
            if matches!(e.status, EntryStatus::Approved) {
                let ghost r0 = r@;
                r.push(e.duplicate());
                proof {
                    assert(entries_view(r@) =~= entries_view(r0).push(s[i as int]));
                    assert(entries_view(r0) + select_newest_first(prefix, p) =~= entries_view(
                        r@,
                    ) + select_newest_first(s.take(i as int), p));
                }
            } else {
                proof {
                    assert(!p(prefix.last()));
                }
            }
        }
        proof {
            assert(s.take(0) =~= Seq::<EntryModel>::empty());
            assert(entries_view(r@) + select_newest_first(s.take(0), p) =~= entries_view(r@));
            lemma_select_newest_first(s, p);
        }
        r
    }

    /// List every entry for the operator dashboard: entries held for review
    /// first, then the rest, each group newest first.
    pub fn list_all(&self) -> (r: Vec<GuestEntry>)
        requires
            self.wf(),
        ensures
            entries_view(r@) == pending_first(self@),
            forall|i: int, j: int|
                0 <= i < j < r@.len() && (#[trigger] entries_view(r@)[j]).status
                    == EntryStatus::PendingReview ==> (#[trigger] entries_view(r@)[i]).status
                    == EntryStatus::PendingReview,
            forall|i: int, j: int|
                0 <= i < j < r@.len() && ((entries_view(r@)[i].status
                    == EntryStatus::PendingReview) <==> (entries_view(r@)[j].status
                    == EntryStatus::PendingReview)) ==> (#[trigger] entries_view(r@)[i]).created_at
                    >= (#[trigger] entries_view(r@)[j]).created_at,
    {
        let ghost s = self@;
        let ghost pp = |e: EntryModel| is_pending(e);
        let ghost pn = |e: EntryModel| !is_pending(e);
        let mut r: Vec<GuestEntry> = self.collect_pending(true);
        let ghost npend = r@.len() as int;
        let mut rest: Vec<GuestEntry> = self.collect_pending(false);
        let ghost r0 = r@;
        let ghost rest0 = rest@;
        r.append(&mut rest);
        proof {
            assert(entries_view(r@) =~= entries_view(r0) + entries_view(rest0));
            assert(entries_view(r@) =~= pending_first(s));
            lemma_select_newest_first(s, pp);
            lemma_select_newest_first(s, pn);
            assert(forall|k: int|
                0 <= k < npend ==> (#[trigger] entries_view(r@)[k]).status
                    == EntryStatus::PendingReview) by {
                assert(forall|k: int|
                    0 <= k < npend ==> entries_view(r@)[k] == select_newest_first(s, pp)[k]);
            }
            assert(forall|k: int|
                npend <= k < r@.len() ==> (#[trigger] entries_view(r@)[k]).status
                    != EntryStatus::PendingReview) by {
                assert(forall|k: int|
                    npend <= k < r@.len() ==> entries_view(r@)[k] == select_newest_first(s, pn)[k
                        - npend]);
            }
        }
        r
    }

    /// Overwrite the status of the entry with the given id; report whether
    /// such an entry existed. A missing id leaves the store unchanged.
    pub fn set_status(&mut self, id: u64, status: EntryStatus) -> (found: bool)
        requires
            old(self).wf(),
        ensures
            final(self).wf(),
            final(self).deny() == old(self).deny(),
            final(self)@ == set_status_seq(old(self)@, id, status),
            found == exists|i: int| 0 <= i < old(self)@.len() && (#[trigger] old(self)@[i]).id == id,
    {
        let ghost s = old(self)@;
        let mut found = false;
        let mut i: usize = 0;
        while i < self.entries.len()
            invariant
                i <= self.entries.len(),
                self.entries.len() == old(self).entries.len(),
                self.filter == old(self).filter,
                s == old(self)@,
                forall|k: int|
                    0 <= k < i ==> (#[trigger] self.entries@[k])@ == with_status(s[k], id, status),
                forall|k: int|
                    i <= k < self.entries@.len() ==> #[trigger] self.entries@[k] == old(
                        self,
                    ).entries@[k],
                found == exists|k: int| 0 <= k < i && (#[trigger] s[k]).id == id,
            decreases self.entries.len() - i,
        {
            if self.entries[i].id == id {
                let mut updated = self.entries[i].duplicate();
                updated.status = status;
                self.entries.set(i, updated);
                found = true;
            }
            i += 1;
        }
        proof {
            assert(self@ =~= set_status_seq(s, id, status));
        }
        found
    }

    /// The operator transition to `approved`. The outcome is the same whether
    /// or not the id exists.
    pub fn approve(&mut self, id: u64)
        requires
            old(self).wf(),
        ensures
            final(self).wf(),
            final(self).deny() == old(self).deny(),
            final(self)@ == set_status_seq(old(self)@, id, EntryStatus::Approved),
    {
        let _found = self.set_status(id, EntryStatus::Approved);
    }

    /// The operator transition to `rejected`. The outcome is the same whether
    /// or not the id exists.
    pub fn reject(&mut self, id: u64)
        requires
            old(self).wf(),
        ensures
            final(self).wf(),
            final(self).deny() == old(self).deny(),
            final(self)@ == set_status_seq(old(self)@, id, EntryStatus::Rejected),
    {
        let _found = self.set_status(id, EntryStatus::Rejected);
    }

    /// Collect, newest first, either the entries held for review or all the
    /// others.
    fn collect_pending(&self, pending: bool) -> (r: Vec<GuestEntry>)
        ensures
            pending ==> entries_view(r@) == select_newest_first(
                self@,
                |e: EntryModel| is_pending(e),
            ),
            !pending ==> entries_view(r@) == select_newest_first(
                self@,
                |e: EntryModel| !is_pending(e),
            ),
    {
        let ghost s = self@;
        let ghost p = if pending {
            |e: EntryModel| is_pending(e)
        } else {
            |e: EntryModel| !is_pending(e)
        };
        let mut r: Vec<GuestEntry> = Vec::new();
        let mut i: usize = self.entries.len();
        proof {
            assert(s.take(i as int) =~= s);
        }
        while i > 0
            invariant
                i <= self.entries.len(),
                s == entries_view(self.entries@),
                p == if pending {
                    |e: EntryModel| is_pending(e)
                } else {
                    |e: EntryModel| !is_pending(e)
                },
                select_newest_first(s, p) == entries_view(r@) + select_newest_first(
                    s.take(i as int),
                    p,
                ),
            decreases i,
        {
            i = i - 1;
            let ghost prefix = s.take(i as int + 1);
            proof {
                assert(prefix.last() == s[i as int]);
                assert(prefix.drop_last() =~= s.take(i as int));
            }
            let e = &self.entries[i];
            let selected = if pending {
                matches!(e.status, EntryStatus::PendingReview)
            } else {
                !matches!(e.status, EntryStatus::PendingReview)
            };
            if selected {
                let ghost r0 = r@;
                r.push(e.duplicate());
                proof {
                    assert(p(prefix.last()));
                    assert(entries_view(r@) =~= entries_view(r0).push(s[i as int]));
                    assert(entries_view(r0) + select_newest_first(prefix, p) =~= entries_view(
                        r@,
                    ) + select_newest_first(s.take(i as int), p));
                }
            } else {
                proof {
                    assert(!p(prefix.last()));
                }
            }
        }
        proof {
            assert(s.take(0) =~= Seq::<EntryModel>::empty());
            assert(entries_view(r@) + select_newest_first(s.take(0), p) =~= entries_view(r@));
        }
        r
    }
}

} // verus!
