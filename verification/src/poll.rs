//! The decisions of a polling round over the substitution pages: which page
//! to fetch, when a page counts as changed, and when the round ends.
//!
//! A round fetches pages 1, 2, ... in order. A changed page adds a day; an
//! unchanged page is skipped; a page that cannot be fetched ends the round.
//! The round ends at the latest after page 5 or once three days are found.

use crate::text::{decimal, format_i64};
use vstd::prelude::*;

verus! {

// ---------------------------------------------------------------------------
// Page addresses
// ---------------------------------------------------------------------------

/// The address of substitution page `number`.
pub open spec fn page_url(number: int) -> Seq<char> {
    "https://geschuetzt.bszet.de/s-lk-vw/Vertretungsplaene/V_PlanBGy/V_DC_00"@ + decimal(number)
        + ".html"@
}

/// The address of substitution page `number`.
pub fn plan_page_url(number: i64) -> (r: String)
    ensures
        r@ == page_url(number as int),
{
    let mut s = String::from_str(
        "https://geschuetzt.bszet.de/s-lk-vw/Vertretungsplaene/V_PlanBGy/V_DC_00",
    );
    let digits = format_i64(number);
    s.append(digits.as_str());
    s.append(".html");
    s
}

// ---------------------------------------------------------------------------
// Change detection
// ---------------------------------------------------------------------------

/// Whether a page whose `Last-Modified` header reads `this_time` has changed
/// since the last recorded time `last`, and the time recorded afterwards.
pub open spec fn modification(last: Seq<char>, this_time: Seq<char>) -> (bool, Seq<char>) {
    (last != this_time, this_time)
}

/// Records the `Last-Modified` time `this_time` of a page in `last_time`,
/// and says whether it differs from the time recorded before.
pub fn note_modification(last_time: &mut String, this_time: &str) -> (changed: bool)
    ensures
        (changed, final(last_time)@) == modification(old(last_time)@, this_time@),
{
    let this = String::from_str(this_time);
    if *last_time == this {
        false
    } else {
        *last_time = this;
        true
    }
}

/// Law: once a page's time has been recorded, the same time again counts as
/// no change.
pub proof fn law_recorded_time_is_unchanged(last: Seq<char>, this_time: Seq<char>)
    ensures
        !modification(modification(last, this_time).1, this_time).0,
{
}

// ---------------------------------------------------------------------------
// Rounds
// ---------------------------------------------------------------------------

/// What fetching one page gave.
#[derive(Clone, Copy, Debug, PartialEq, Eq)]
pub enum PollOutcome {
    /// The page changed and holds a day.
    Changed,
    /// The page has not changed since the last round.
    Same,
    /// The page could not be fetched.
    Unavailable,
}

/// The state of a polling round: the next page to fetch, the number of
/// days found so far, and whether the round has ended.
#[derive(Clone, Copy, Debug)]
pub struct PollState {
    pub next_page: i64,
    pub found: usize,
    pub finished: bool,
}

/// The invariant of a round: pages 1 to 5 are fetched in order, at most
/// three days are found, at most one per fetched page, and an open round
/// has a page left to fetch and fewer than three days.
pub open spec fn poll_wf(s: PollState) -> bool {
    &&& 1 <= s.next_page <= 6
    &&& s.found <= 3
    &&& s.found < s.next_page
    &&& !s.finished ==> s.next_page <= 5 && s.found < 3
}

/// The state after fetching page `s.next_page` with outcome `o`.
pub open spec fn poll_step(s: PollState, o: PollOutcome) -> PollState {
    match o {
        PollOutcome::Changed => PollState {
            next_page: (s.next_page + 1) as i64,
            found: (s.found + 1) as usize,
            finished: s.found + 1 >= 3 || s.next_page == 5,
        },
        PollOutcome::Same => PollState {
            next_page: (s.next_page + 1) as i64,
            found: s.found,
            finished: s.next_page == 5,
        },
        PollOutcome::Unavailable => PollState {
            next_page: s.next_page,
            found: s.found,
            finished: true,
        },
    }
}

/// The state of a round started in `s` after the outcomes `os`, where an
/// ended round takes no more steps.
pub open spec fn poll_run(s: PollState, os: Seq<PollOutcome>) -> PollState
    decreases os.len(),
{
    if os.len() == 0 {
        s
    } else {
        let t = poll_run(s, os.drop_last());
        if t.finished {
            t
        } else {
            poll_step(t, os.last())
        }
    }
}

/// The state at the start of a round.
pub open spec fn poll_start() -> PollState {
    PollState { next_page: 1, found: 0, finished: false }
}

/// Starts a round.
pub fn poll_begin() -> (r: PollState)
    ensures
        r == poll_start(),
        poll_wf(r),
{
    PollState { next_page: 1, found: 0, finished: false }
}

/// The state after fetching page `s.next_page` with outcome `o`.
pub fn poll_advance(s: &PollState, o: PollOutcome) -> (r: PollState)
    requires
        poll_wf(*s),
        !s.finished,
    ensures
        r == poll_step(*s, o),
        poll_wf(r),
{
    match o {
        PollOutcome::Changed => PollState {
            next_page: s.next_page + 1,
            found: s.found + 1,
            finished: s.found + 1 >= 3 || s.next_page == 5,
        },
        PollOutcome::Same => PollState {
            next_page: s.next_page + 1,
            found: s.found,
            finished: s.next_page == 5,
        },
        PollOutcome::Unavailable => PollState {
            next_page: s.next_page,
            found: s.found,
            finished: true,
        },
    }
}

/// Every state of a round keeps the invariant, and a round that is still
/// open after `k` outcomes fetches page `k + 1` next.
proof fn lemma_run(os: Seq<PollOutcome>)
    ensures
        poll_wf(poll_run(poll_start(), os)),
        poll_run(poll_start(), os).finished || poll_run(poll_start(), os).next_page == os.len()
            + 1,
    decreases os.len(),
{
    if os.len() > 0 {
        lemma_run(os.drop_last());
    }
}

/// Law: a round never fetches more than five pages; whatever the outcomes,
/// it has ended after five of them.
pub proof fn law_round_ends_after_five_pages(os: Seq<PollOutcome>)
    requires
        os.len() == 5,
    ensures
        poll_run(poll_start(), os).finished,
{
    lemma_run(os);
}

/// Law: a round never collects more than three days, and never more days
/// than pages it has fetched.
pub proof fn law_round_collects_at_most_three_days(os: Seq<PollOutcome>)
    ensures
        poll_run(poll_start(), os).found <= 3,
        poll_run(poll_start(), os).found <= os.len(),
    decreases os.len(),
{
    lemma_run(os);
    if os.len() > 0 {
        law_round_collects_at_most_three_days(os.drop_last());
    }
}

/// The number of changed pages among the outcomes `os`.
pub open spec fn changed_count(os: Seq<PollOutcome>) -> int
    decreases os.len(),
{
    if os.len() == 0 {
        0
    } else {
        changed_count(os.drop_last()) + if os.last() == PollOutcome::Changed {
            1int
        } else {
            0int
        }
    }
}

/// Law: an unchanged page never ends a round before page 5. From an open
/// round at page `p < 5`, the outcome `Same` leaves the round open at page
/// `p + 1` with as many days found as before.
pub proof fn law_same_page_keeps_round_open(s: PollState)
    requires
        poll_wf(s),
        !s.finished,
        s.next_page < 5,
    ensures
        poll_step(s, PollOutcome::Same) == (PollState {
            next_page: (s.next_page + 1) as i64,
            found: s.found,
            finished: false,
        }),
{
}

/// Law: where every page of a round could be fetched, the round finds one
/// day per changed page, up to three: after at most five outcomes it has
/// found the smaller of three and the number of changed pages, and it has
/// ended exactly when three changed pages came or five pages were fetched;
/// while open, it fetches the page after the last one next.
pub proof fn law_round_counts_changed_pages(os: Seq<PollOutcome>)
    requires
        os.len() <= 5,
        forall|i: int| 0 <= i < os.len() ==> os[i] != PollOutcome::Unavailable,
    ensures
        poll_run(poll_start(), os).found == if changed_count(os) < 3 {
            changed_count(os)
        } else {
            3
        },
        poll_run(poll_start(), os).finished <==> (changed_count(os) >= 3 || os.len() == 5),
        !poll_run(poll_start(), os).finished ==> poll_run(poll_start(), os).next_page == os.len()
            + 1,
    decreases os.len(),
{
    lemma_run(os);
    if os.len() > 0 {
        let pre = os.drop_last();
        assert forall|i: int| 0 <= i < pre.len() implies pre[i] != PollOutcome::Unavailable by {
            assert(pre[i] == os[i]);
        }
        law_round_counts_changed_pages(pre);
        lemma_run(pre);
        assert(os.last() == os[os.len() - 1]);
    }
}

/// Law: a page that cannot be fetched ends the round at once, with the days
/// found so far.
pub proof fn law_missing_page_ends_round(s: PollState)
    requires
        poll_wf(s),
        !s.finished,
    ensures
        poll_step(s, PollOutcome::Unavailable).finished,
        poll_step(s, PollOutcome::Unavailable).found == s.found,
{
}

} // verus!
