//! The data model: guestbook entries and their lifecycle status.

use vstd::prelude::*;

verus! {

/// The lifecycle state of a guestbook entry.
///
/// An entry is created `Approved` or `PendingReview` (decided by the
/// moderation filter); `Rejected` is reachable only through an explicit
/// operator action.
#[derive(Clone, Copy, PartialEq, Eq, Structural, Debug)]
pub enum EntryStatus {
    Approved,
    PendingReview,
    Rejected,
}

impl EntryStatus {
    /// The canonical textual form of the status.
    pub open spec fn as_str_spec(self) -> Seq<char> {
        match self {
            EntryStatus::Approved => "approved"@,
            EntryStatus::PendingReview => "pending_review"@,
            EntryStatus::Rejected => "rejected"@,
        }
    }

    pub fn as_str(&self) -> (r: &'static str)
        ensures
            r@ == self.as_str_spec(),
    {
        match self {
            EntryStatus::Approved => "approved",
            EntryStatus::PendingReview => "pending_review",
            EntryStatus::Rejected => "rejected",
        }
    }
}

/// The mathematical model of a stored entry: every field as a plain value.
pub ghost struct EntryModel {
    pub id: u64,
    pub name: Seq<char>,
    pub message: Seq<char>,
    pub website: Option<Seq<char>>,
    pub status: EntryStatus,
    pub created_at: i64,
}

/// A stored guestbook entry.
///
/// `id` is unique among all entries of one store and never reassigned;
/// `created_at` is fixed at insertion; only `status` is mutable afterwards,
/// and only through the operator transitions.
pub struct GuestEntry {
    pub id: u64,
    pub name: String,
    pub message: String,
    pub website: Option<String>,
    pub status: EntryStatus,
    pub created_at: i64,
}

impl View for GuestEntry {
    type V = EntryModel;

    open spec fn view(&self) -> EntryModel {
        EntryModel {
            id: self.id,
            name: self.name@,
            message: self.message@,
            website: match self.website {
                Some(w) => Some(w@),
                None => None,
            },
            status: self.status,
            created_at: self.created_at,
        }
    }
}

impl GuestEntry {
    /// A field-for-field copy of the entry.
    pub fn duplicate(&self) -> (r: GuestEntry)
        ensures
            r@ == self@,
    {
        GuestEntry {
            id: self.id,
            name: self.name.clone(),
            message: self.message.clone(),
            website: match &self.website {
                Some(w) => Some(w.clone()),
                None => None,
            },
            status: self.status,
            created_at: self.created_at,
        }
    }
}

/// The model of a sequence of stored entries.
pub open spec fn entries_view(s: Seq<GuestEntry>) -> Seq<EntryModel> {
    s.map_values(|e: GuestEntry| e@)
}

/// A submission as the public surface receives it: name and message are
/// required, the website is optional.
pub struct CreateGuestEntryRequest {
    pub name: String,
    pub message: String,
    pub website: Option<String>,
}

} // verus!
