use guestbook::filter::ModerationFilter;
use guestbook::models::{CreateGuestEntryRequest, EntryStatus};
use guestbook::store::Guestbook;

fn req(name: &str, message: &str) -> CreateGuestEntryRequest {
    CreateGuestEntryRequest {
        name: name.to_string(),
        message: message.to_string(),
        website: None,
    }
}

fn req_with_site(name: &str, message: &str, website: &str) -> CreateGuestEntryRequest {
    CreateGuestEntryRequest {
        name: name.to_string(),
        message: message.to_string(),
        website: Some(website.to_string()),
    }
}

#[test]
fn submit_returns_the_stored_record() {
    let mut gb = Guestbook::new(ModerationFilter::standard());
    let e = gb.submit(req_with_site("Alice", "hello world", "https://example.org"), 42);
    assert_eq!(e.id, 0);
    assert_eq!(e.name, "Alice");
    assert_eq!(e.message, "hello world");
    assert_eq!(e.website.as_deref(), Some("https://example.org"));
    assert_eq!(e.status, EntryStatus::Approved);
    assert_eq!(e.created_at, 42);
}

#[test]
fn ids_are_unique_and_sequential() {
    let mut gb = Guestbook::new(ModerationFilter::standard());
    let a = gb.submit(req("A", "one"), 1);
    let b = gb.submit(req("B", "two"), 2);
    let c = gb.submit(req("C", "three"), 3);
    assert_eq!(a.id, 0);
    assert_eq!(b.id, 1);
    assert_eq!(c.id, 2);
}

#[test]
fn creation_time_never_runs_backwards() {
    let mut gb = Guestbook::new(ModerationFilter::standard());
    let a = gb.submit(req("A", "one"), 5);
    let b = gb.submit(req("B", "two"), 3);
    assert_eq!(a.created_at, 5);
    assert_eq!(b.created_at, 5);
    let c = gb.submit(req("C", "three"), 9);
    assert_eq!(c.created_at, 9);
}

#[test]
fn public_listing_holds_only_approved_entries() {
    let mut gb = Guestbook::new(ModerationFilter::standard());
    gb.submit(req("A", "hello"), 1);
    let held = gb.submit(req("B", "badword"), 2);
    gb.submit(req("C", "fine too"), 3);
    let rejected = gb.submit(req("D", "ok"), 4);
    gb.reject(rejected.id);
    let listed = gb.list_public();
    assert!(listed.iter().all(|e| e.status == EntryStatus::Approved));
    assert!(listed.iter().all(|e| e.id != held.id && e.id != rejected.id));
}

#[test]
fn public_listing_is_newest_first() {
    let mut gb = Guestbook::new(ModerationFilter::standard());
    gb.submit(req("A", "first"), 1);
    gb.submit(req("B", "second"), 2);
    gb.submit(req("C", "third"), 3);
    let listed = gb.list_public();
    let ids: Vec<u64> = listed.iter().map(|e| e.id).collect();
    assert_eq!(ids, vec![2, 1, 0]);
}

#[test]
fn operator_listing_puts_pending_first_then_newest_first() {
    let mut gb = Guestbook::new(ModerationFilter::standard());
    gb.submit(req("A", "clean"), 1);
    gb.submit(req("B", "badword"), 2);
    gb.submit(req("C", "clean"), 3);
    gb.submit(req("D", "provocative"), 4);
    let all = gb.list_all();
    let ids: Vec<u64> = all.iter().map(|e| e.id).collect();
    assert_eq!(ids, vec![3, 1, 2, 0]);
    assert_eq!(all[0].status, EntryStatus::PendingReview);
    assert_eq!(all[1].status, EntryStatus::PendingReview);
    assert_eq!(all[2].status, EntryStatus::Approved);
    assert_eq!(all[3].status, EntryStatus::Approved);
}

#[test]
fn operator_listing_includes_rejected_entries() {
    let mut gb = Guestbook::new(ModerationFilter::standard());
    let a = gb.submit(req("A", "clean"), 1);
    gb.reject(a.id);
    let all = gb.list_all();
    assert_eq!(all.len(), 1);
    assert_eq!(all[0].status, EntryStatus::Rejected);
}

#[test]
fn approve_is_idempotent() {
    let mut gb = Guestbook::new(ModerationFilter::standard());
    let held = gb.submit(req("B", "badword"), 2);
    gb.approve(held.id);
    let after_first: Vec<EntryStatus> = gb.list_all().iter().map(|e| e.status).collect();
    assert_eq!(after_first, vec![EntryStatus::Approved]);
    gb.approve(held.id);
    let after_second: Vec<EntryStatus> = gb.list_all().iter().map(|e| e.status).collect();
    assert_eq!(after_second, vec![EntryStatus::Approved]);
}

#[test]
fn transitions_overwrite_any_previous_status() {
    let mut gb = Guestbook::new(ModerationFilter::standard());
    let e = gb.submit(req("A", "clean"), 1);
    gb.reject(e.id);
    assert_eq!(gb.list_all()[0].status, EntryStatus::Rejected);
    gb.approve(e.id);
    assert_eq!(gb.list_all()[0].status, EntryStatus::Approved);
}

#[test]
fn missing_id_transition_is_a_quiet_success() {
    let mut gb = Guestbook::new(ModerationFilter::standard());
    let e = gb.submit(req("A", "clean"), 1);
    gb.approve(9999);
    gb.reject(9999);
    let all = gb.list_all();
    assert_eq!(all.len(), 1);
    assert_eq!(all[0].id, e.id);
    assert_eq!(all[0].status, EntryStatus::Approved);
}

#[test]
fn set_status_reports_whether_the_id_existed() {
    let mut gb = Guestbook::new(ModerationFilter::standard());
    let e = gb.submit(req("A", "clean"), 1);
    assert!(gb.set_status(e.id, EntryStatus::Rejected));
    assert!(!gb.set_status(7777, EntryStatus::Rejected));
}

#[test]
fn end_to_end_submission_review_and_publication() {
    let mut gb = Guestbook::new(ModerationFilter::standard());
    let now: i64 = 1000;
    let alice = gb.submit(req("Alice", "hello world"), now);
    assert_eq!(alice.status, EntryStatus::Approved);
    assert!(alice.created_at >= now);
    let bob = gb.submit(req("Bob", "this is dangerous stuff"), now + 1);
    assert_eq!(bob.status, EntryStatus::PendingReview);

    let public_before: Vec<u64> = gb.list_public().iter().map(|e| e.id).collect();
    assert_eq!(public_before, vec![alice.id]);
    let all_before: Vec<u64> = gb.list_all().iter().map(|e| e.id).collect();
    assert_eq!(all_before, vec![bob.id, alice.id]);

    gb.approve(bob.id);
    let public_after: Vec<u64> = gb.list_public().iter().map(|e| e.id).collect();
    assert_eq!(public_after, vec![bob.id, alice.id]);
    let all_after = gb.list_all();
    assert!(all_after.iter().all(|e| e.status == EntryStatus::Approved));
    let all_ids: Vec<u64> = all_after.iter().map(|e| e.id).collect();
    assert_eq!(all_ids, vec![bob.id, alice.id]);
}
