//! The operator surface: the dashboard listing and the two lifecycle
//! transitions, each evaluated behind the origin gate before any entry state
//! can change.

use vstd::prelude::*;

use crate::models::{entries_view, EntryStatus, GuestEntry};
use crate::origin::{is_trusted, trusted_spec, IpAddress};
use crate::store::{pending_first, set_status_seq, Guestbook};

verus! {

/// The outcome of an operator request from an untrusted origin: it is turned
/// away before reaching any handler logic, with no body beyond the status.
#[derive(Clone, Copy, PartialEq, Eq, Structural, Debug)]
pub struct Forbidden;

/// The operator dashboard listing: every entry, those held for review first.
/// An untrusted origin is refused before the store is read.
pub fn admin_list_all(gb: &Guestbook, origin: IpAddress) -> (r: Result<Vec<GuestEntry>, Forbidden>)
    requires
        gb.wf(),
    ensures
        trusted_spec(origin) ==> r is Ok && entries_view((r->Ok_0)@) == pending_first(gb@),
        !trusted_spec(origin) ==> r is Err,
{
    if is_trusted(&origin) {
        Ok(gb.list_all())
    } else {
        Err(Forbidden)
    }
}

/// The operator transition to `approved`. A trusted origin always receives
/// the success outcome, whether or not the id exists; an untrusted origin is
/// refused before any entry state changes.
pub fn admin_approve(gb: &mut Guestbook, origin: IpAddress, id: u64) -> (r: Result<
    (),
    Forbidden,
>)
    requires
        old(gb).wf(),
    ensures
        final(gb).wf(),
        final(gb).deny() == old(gb).deny(),
        trusted_spec(origin) ==> r is Ok && final(gb)@ == set_status_seq(
            old(gb)@,
            id,
            EntryStatus::Approved,
        ),
        !trusted_spec(origin) ==> r is Err && final(gb)@ == old(gb)@,
{
    if is_trusted(&origin) {
        gb.approve(id);
        Ok(())
    } else {
        Err(Forbidden)
    }
}

/// The operator transition to `rejected`. A trusted origin always receives
/// the success outcome, whether or not the id exists; an untrusted origin is
/// refused before any entry state changes.
pub fn admin_reject(gb: &mut Guestbook, origin: IpAddress, id: u64) -> (r: Result<(), Forbidden>)
    requires
        old(gb).wf(),
    ensures
        final(gb).wf(),
        final(gb).deny() == old(gb).deny(),
        trusted_spec(origin) ==> r is Ok && final(gb)@ == set_status_seq(
            old(gb)@,
            id,
            EntryStatus::Rejected,
        ),
        !trusted_spec(origin) ==> r is Err && final(gb)@ == old(gb)@,
{
    if is_trusted(&origin) {
        gb.reject(id);
        Ok(())
    } else {
        Err(Forbidden)
    }
}

} // verus!
