use vertretung::poll::{note_modification, plan_page_url, poll_advance, poll_begin, PollOutcome, PollState};

#[test]
fn page_addresses() {
    assert_eq!(
        plan_page_url(1),
        "https://geschuetzt.bszet.de/s-lk-vw/Vertretungsplaene/V_PlanBGy/V_DC_001.html"
    );
    assert_eq!(
        plan_page_url(5),
        "https://geschuetzt.bszet.de/s-lk-vw/Vertretungsplaene/V_PlanBGy/V_DC_005.html"
    );
}

#[test]
fn modification_times() {
    let mut last = String::new();
    assert!(note_modification(&mut last, "Mon, 29 Aug 2022 06:00:00 GMT"));
    assert_eq!(last, "Mon, 29 Aug 2022 06:00:00 GMT");
    // the same time again is no change
    assert!(!note_modification(&mut last, "Mon, 29 Aug 2022 06:00:00 GMT"));
    assert_eq!(last, "Mon, 29 Aug 2022 06:00:00 GMT");
    assert!(note_modification(&mut last, "Mon, 29 Aug 2022 07:00:00 GMT"));
    assert_eq!(last, "Mon, 29 Aug 2022 07:00:00 GMT");
}

fn run(outcomes: &[PollOutcome]) -> (Vec<i64>, PollState) {
    let mut s = poll_begin();
    let mut fetched = Vec::new();
    for o in outcomes {
        if s.finished {
            break;
        }
        fetched.push(s.next_page);
        let o = match o {
            PollOutcome::Changed => PollOutcome::Changed,
            PollOutcome::Same => PollOutcome::Same,
            PollOutcome::Unavailable => PollOutcome::Unavailable,
        };
        s = poll_advance(&s, o);
    }
    (fetched, s)
}

#[test]
fn a_round_stops_after_three_days() {
    let (fetched, s) = run(&[PollOutcome::Changed, PollOutcome::Same, PollOutcome::Changed, PollOutcome::Changed, PollOutcome::Changed, PollOutcome::Changed]);
    assert_eq!(fetched, vec![1, 2, 3, 4]);
    assert!(s.finished);
    assert_eq!(s.found, 3);
}

#[test]
fn a_round_stops_at_a_missing_page() {
    let (fetched, s) = run(&[PollOutcome::Changed, PollOutcome::Unavailable, PollOutcome::Changed]);
    assert_eq!(fetched, vec![1, 2]);
    assert!(s.finished);
    assert_eq!(s.found, 1);
}

#[test]
fn a_round_fetches_at_most_five_pages() {
    let (fetched, s) = run(&[PollOutcome::Same; 7]);
    assert_eq!(fetched, vec![1, 2, 3, 4, 5]);
    assert!(s.finished);
    assert_eq!(s.found, 0);
    let (fetched, s) = run(&[PollOutcome::Same, PollOutcome::Changed, PollOutcome::Same, PollOutcome::Changed, PollOutcome::Same, PollOutcome::Changed]);
    assert_eq!(fetched, vec![1, 2, 3, 4, 5]);
    assert_eq!(s.found, 2);
}
