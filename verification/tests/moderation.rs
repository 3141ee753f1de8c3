use guestbook::filter::{contains_sub, str_to_chars, ModerationFilter};
use guestbook::models::{CreateGuestEntryRequest, EntryStatus};
use guestbook::store::Guestbook;

fn req(name: &str, message: &str) -> CreateGuestEntryRequest {
    CreateGuestEntryRequest {
        name: name.to_string(),
        message: message.to_string(),
        website: None,
    }
}

#[test]
fn clean_submission_is_approved() {
    let mut gb = Guestbook::new(ModerationFilter::standard());
    let e = gb.submit(req("Alice", "hello world"), 10);
    assert_eq!(e.status, EntryStatus::Approved);
}

#[test]
fn flagged_message_is_held_for_review() {
    let mut gb = Guestbook::new(ModerationFilter::standard());
    let e = gb.submit(req("Bob", "this is dangerous stuff"), 10);
    assert_eq!(e.status, EntryStatus::PendingReview);
}

#[test]
fn flagged_name_is_held_for_review() {
    let mut gb = Guestbook::new(ModerationFilter::standard());
    let e = gb.submit(req("provocative person", "a perfectly fine message"), 10);
    assert_eq!(e.status, EntryStatus::PendingReview);
}

#[test]
fn deny_term_inside_a_longer_word_still_triggers() {
    let mut gb = Guestbook::new(ModerationFilter::standard());
    let e = gb.submit(req("Carol", "undangerousness"), 10);
    assert_eq!(e.status, EntryStatus::PendingReview);
}

#[test]
fn matching_is_case_insensitive() {
    let mut gb = Guestbook::new(ModerationFilter::standard());
    let e = gb.submit(req("Dave", "such a BadWord here"), 10);
    assert_eq!(e.status, EntryStatus::PendingReview);
    let e2 = gb.submit(req("DANGEROUS", "hi"), 11);
    assert_eq!(e2.status, EntryStatus::PendingReview);
}

#[test]
fn message_equal_to_a_deny_term_is_flagged() {
    let mut gb = Guestbook::new(ModerationFilter::standard());
    let e = gb.submit(req("Erin", "dangerous"), 10);
    assert_eq!(e.status, EntryStatus::PendingReview);
}

#[test]
fn empty_deny_list_approves_everything() {
    let mut gb = Guestbook::new(ModerationFilter::new(Vec::new()));
    let e = gb.submit(req("Frank", "badword provocative dangerous"), 10);
    assert_eq!(e.status, EntryStatus::Approved);
}

#[test]
fn empty_name_and_message_are_clean() {
    let mut gb = Guestbook::new(ModerationFilter::standard());
    let e = gb.submit(req("", ""), 10);
    assert_eq!(e.status, EntryStatus::Approved);
}

#[test]
fn custom_deny_list_is_respected() {
    let mut deny = Vec::new();
    deny.push(str_to_chars("spam"));
    let mut gb = Guestbook::new(ModerationFilter::new(deny));
    let flagged = gb.submit(req("Grace", "buy my SPAM now"), 10);
    assert_eq!(flagged.status, EntryStatus::PendingReview);
    let clean = gb.submit(req("Grace", "this is dangerous stuff"), 11);
    assert_eq!(clean.status, EntryStatus::Approved);
}

#[test]
fn substring_search_finds_inner_needle() {
    let hay = str_to_chars("hello world");
    assert!(contains_sub(&hay, &str_to_chars("o w")));
    assert!(contains_sub(&hay, &str_to_chars("hello")));
    assert!(contains_sub(&hay, &str_to_chars("world")));
    assert!(!contains_sub(&hay, &str_to_chars("worlds")));
    assert!(!contains_sub(&hay, &str_to_chars("Hello")));
}

#[test]
fn substring_search_edge_cases() {
    let hay = str_to_chars("abc");
    assert!(contains_sub(&hay, &str_to_chars("")));
    assert!(contains_sub(&str_to_chars(""), &str_to_chars("")));
    assert!(!contains_sub(&str_to_chars(""), &str_to_chars("a")));
    assert!(!contains_sub(&hay, &str_to_chars("abcd")));
}

#[test]
fn status_text_forms() {
    assert_eq!(EntryStatus::Approved.as_str(), "approved");
    assert_eq!(EntryStatus::PendingReview.as_str(), "pending_review");
    assert_eq!(EntryStatus::Rejected.as_str(), "rejected");
}
