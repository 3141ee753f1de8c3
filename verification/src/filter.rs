//! The moderation filter: classifies a candidate entry's text as clean or
//! flagged by case-insensitive substring containment against a deny-list.

use vstd::prelude::*;
use vstd::string::StrSliceExecFns;

use crate::models::EntryStatus;

verus! {

/// The lowercase form of a string, as `str::to_lowercase` computes it.
pub uninterp spec fn lower_of(s: Seq<char>) -> Seq<char>;

/// Relies on `str::to_lowercase`: the result is a function of the input
/// characters alone.
#[verifier::external_body]
fn lowercase_chars(s: &str) -> (r: Vec<char>)
    ensures
        r@ == lower_of(s@),
{
    s.to_lowercase().chars().collect()
}

/// `needle` occurs contiguously somewhere in `hay`.
pub open spec fn contains_seq(hay: Seq<char>, needle: Seq<char>) -> bool {
    exists|i: int|
        0 <= i && i + needle.len() <= hay.len() && #[trigger] hay.subrange(i, i + needle.len())
            == needle
}

/// `needle` occurs in `hay` starting exactly at index `at`.
fn match_at(hay: &Vec<char>, needle: &Vec<char>, at: usize) -> (r: bool)
    requires
        at + needle.len() <= hay.len(),
    ensures
        r == (hay@.subrange(at as int, at + needle@.len()) == needle@),
{
    let mut j: usize = 0;
    while j < needle.len()
        invariant
            at + needle.len() <= hay.len(),
            j <= needle.len(),
            forall|k: int| 0 <= k < j ==> hay@[at + k] == needle@[k],
        decreases needle.len() - j,
    {
        if hay[at + j] != needle[j] {
            proof {
                assert(hay@.subrange(at as int, at + needle@.len())[j as int] == hay@[at + j]);
            }
            return false;
        }
        j += 1;
    }
    proof {
        assert(hay@.subrange(at as int, at + needle@.len()) =~= needle@);
    }
    true
}

/// Substring search: the naive quadratic scan, exact against `contains_seq`.
pub fn contains_sub(hay: &Vec<char>, needle: &Vec<char>) -> (r: bool)
    ensures
        r == contains_seq(hay@, needle@),
{
    if needle.len() > hay.len() {
        return false;
    }
    if needle.len() == 0 {
        proof {
            let i: int = 0;
            assert(hay@.subrange(i, i + needle@.len()) =~= needle@);
            assert(contains_seq(hay@, needle@));
        }
        return true;
    }
    let last = hay.len() - needle.len();
    let mut i: usize = 0;
    while i <= last
        invariant
            0 < needle.len() <= hay.len(),
            last == hay.len() - needle.len(),
            i <= last + 1,
            forall|k: int|
                0 <= k < i ==> #[trigger] hay@.subrange(k, k + needle@.len()) != needle@,
        decreases last + 1 - i,
    {
        if match_at(hay, needle, i) {
            proof {
                assert(0 <= i as int && i as int + needle@.len() <= hay@.len()
                    && hay@.subrange(i as int, i as int + needle@.len()) == needle@);
            }
            return true;
        }
        i += 1;
    }
    false
}

/// The characters of a string, one by one.
pub fn str_to_chars(s: &str) -> (r: Vec<char>)
    ensures
        r@ == s@,
{
    let n = s.unicode_len();
    let mut r: Vec<char> = Vec::new();
    let mut i: usize = 0;
    while i < n
        invariant
            n == s@.len(),
            i <= n,
            r@ == s@.subrange(0, i as int),
        decreases n - i,
    {
        let c = s.get_char(i);
        r.push(c);
        proof {
            assert(r@ =~= s@.subrange(0, i as int + 1));
        }
        i += 1;
    }
    proof {
        assert(r@ =~= s@);
    }
    r
}

/// A submission is flagged when the lowercase form of its name or of its
/// message contains some deny-listed term.
pub open spec fn flagged(deny: Seq<Seq<char>>, name: Seq<char>, message: Seq<char>) -> bool {
    exists|i: int|
        0 <= i < deny.len() && (contains_seq(lower_of(name), deny[i]) || contains_seq(
            lower_of(message),
            deny[i],
        ))
}

/// The status a new entry is created with: flagged submissions are held for
/// review, clean ones are published at once. The filter never produces
/// `Rejected`.
pub open spec fn initial_status(deny: Seq<Seq<char>>, name: Seq<char>, message: Seq<char>) -> EntryStatus {
    if flagged(deny, name, message) {
        EntryStatus::PendingReview
    } else {
        EntryStatus::Approved
    }
}

/// The deny-list this service ships with.
pub open spec fn standard_deny_list() -> Seq<Seq<char>> {
    seq!["badword"@, "provocative"@, "dangerous"@]
}

/// The moderation filter: an immutable deny-list fixed at construction.
/// An empty deny-list means every submission is clean.
pub struct ModerationFilter {
    deny: Vec<Vec<char>>,
}

impl View for ModerationFilter {
    type V = Seq<Seq<char>>;

    closed spec fn view(&self) -> Seq<Seq<char>> {
        self.deny@.map_values(|t: Vec<char>| t@)
    }
}

impl ModerationFilter {
    pub fn new(deny: Vec<Vec<char>>) -> (f: ModerationFilter)
        ensures
            f@ == deny@.map_values(|t: Vec<char>| t@),
    {
        ModerationFilter { deny }
    }

    /// The filter with the standard deny-list.
    pub fn standard() -> (f: ModerationFilter)
        ensures
            f@ == standard_deny_list(),
    {
        let mut deny: Vec<Vec<char>> = Vec::new();
        deny.push(str_to_chars("badword"));
        deny.push(str_to_chars("provocative"));
        deny.push(str_to_chars("dangerous"));
        let f = ModerationFilter { deny };
        proof {
            assert(f@ =~= standard_deny_list());
        }
        f
    }

    /// Classify a submission and map the verdict to the initial lifecycle
    /// status: clean submissions come out `Approved`, flagged ones
    /// `PendingReview`.
    pub fn verdict(&self, name: &str, message: &str) -> (st: EntryStatus)
        ensures
            st == initial_status(self@, name@, message@),
    {
        let name_lower = lowercase_chars(name);
        let message_lower = lowercase_chars(message);
        let mut i: usize = 0;
        while i < self.deny.len()
            invariant
                name_lower@ == lower_of(name@),
                message_lower@ == lower_of(message@),
                i <= self.deny@.len(),
                forall|k: int|
                    0 <= k < i ==> !contains_seq(lower_of(name@), self@[k]) && !contains_seq(
                        lower_of(message@),
                        self@[k],
                    ),
            decreases self.deny@.len() - i,
        {
            if contains_sub(&name_lower, &self.deny[i]) || contains_sub(
                &message_lower,
                &self.deny[i],
            ) {
                proof {
                    assert(contains_seq(lower_of(name@), self@[i as int]) || contains_seq(
                        lower_of(message@),
                        self@[i as int],
                    ));
                }
                return EntryStatus::PendingReview;
            }
            i += 1;
        }
        EntryStatus::Approved
    }
}

} // verus!
