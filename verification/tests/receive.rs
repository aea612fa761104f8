use rssstv::receive::{remember, ReceiveClock, FRAME_INTERVAL_MS, FSK_HISTORY_WAIT_MS, STALL_TIMEOUT_MS};
use rssstv::receive::{history_eligible, retry_step, Frame, HistoryCandidate, Mailbox, Progress, Snapshot};

#[test]
fn only_live_receptions_are_active() {
    assert!(Progress::Acquiring.is_active());
    assert!(Progress::Decoding { rows: 1, total: 2 }.is_active());
    assert!(!Progress::Idle.is_active());
    assert!(!Progress::Complete.is_active());
    assert!(!Progress::Stopped.is_active());
}

#[test]
fn progress_maps_to_a_decoded_share() {
    assert_eq!(Progress::Idle.decoded_share(), (0, 1));
    assert_eq!(Progress::Acquiring.decoded_share(), (0, 1));
    assert_eq!(Progress::Decoding { rows: 62, total: 124 }.decoded_share(), (62, 124));
    assert_eq!(Progress::Decoding { rows: 0, total: 0 }.decoded_share(), (0, 1));
    assert_eq!(Progress::Decoding { rows: 9, total: 4 }.decoded_share(), (4, 4));
    assert_eq!(Progress::Complete.decoded_share(), (1, 1));
    assert_eq!(Progress::Stopped.decoded_share(), (1, 1));
}

#[test]
fn history_starts_at_sixty_five_percent() {
    assert!(!history_eligible(155, 240));
    assert!(history_eligible(156, 240));
    assert!(history_eligible(240, 240));
    assert!(!history_eligible(0, 0));
    assert!(history_eligible(usize::MAX, usize::MAX));
}

#[test]
fn refinement_retries_a_quarter_second_apart() {
    assert_eq!(retry_step(48_000), 12_000);
    assert_eq!(retry_step(8_000), 2_000);
    assert_eq!(retry_step(3), 1);
    assert_eq!(retry_step(0), 1);
}

fn frame() -> Frame {
    Frame { width: 1, height: 1, rgba: vec![1, 2, 3, 255] }
}

#[test]
fn overwriting_the_mailbox_preserves_uncollected_payloads() {
    let mut mailbox = Mailbox::new();
    mailbox.publish(Snapshot {
        frame: Some(frame()),
        error: Some("capture gap".to_owned()),
        ..Snapshot::default()
    });
    mailbox.publish(Snapshot {
        progress: Progress::Decoding { rows: 3, total: 10 },
        ..Snapshot::default()
    });

    let snapshot = mailbox.take().unwrap();
    assert_eq!(snapshot.progress, Progress::Decoding { rows: 3, total: 10 });
    assert_eq!(snapshot.frame, Some(frame()));
    assert_eq!(snapshot.error.as_deref(), Some("capture gap"));
}

#[test]
fn overwriting_the_mailbox_preserves_uncollected_history() {
    let mut mailbox = Mailbox::new();
    let history = HistoryCandidate {
        mode_name: "Robot 36".to_owned(),
        mode_tag: "Robot36".to_owned(),
        frame: frame(),
        received_at: "2026-08-04T12:34:56+09:00".to_owned(),
        fsk_ids: vec!["JA1ABC".to_owned()],
    };
    mailbox.publish(Snapshot { history: Some(history.clone()), ..Snapshot::default() });
    mailbox.publish(Snapshot::default());
    assert_eq!(mailbox.take().unwrap().history, Some(history));
}

#[test]
fn a_collected_mailbox_reports_nothing_until_it_is_written_again() {
    let mut mailbox = Mailbox::new();
    mailbox.publish(Snapshot::default());
    assert!(mailbox.take().is_some());
    assert!(mailbox.take().is_none());
}

#[test]
fn newer_payloads_replace_uncollected_ones() {
    let mut mailbox = Mailbox::new();
    mailbox.publish(Snapshot { error: Some("first".to_owned()), ..Snapshot::default() });
    mailbox.publish(Snapshot { error: Some("second".to_owned()), ..Snapshot::default() });
    assert_eq!(mailbox.take().unwrap().error.as_deref(), Some("second"));
}

#[test]
fn an_identifier_is_remembered_once_in_the_order_it_arrived() {
    let mut list = Vec::new();
    remember(&mut list, "JA1ABC".to_owned());
    remember(&mut list, "JH1XYZ".to_owned());
    remember(&mut list, "JA1ABC".to_owned());
    assert_eq!(list, vec!["JA1ABC".to_owned(), "JH1XYZ".to_owned()]);
}

#[test]
fn a_stalled_reception_is_stopped_after_its_timeout() {
    let decoding = Progress::Decoding { rows: 3, total: 10 };
    let mut clock = ReceiveClock::new(0);
    assert!(!clock.must_interrupt(decoding, 100));
    assert_eq!(clock.progress_changed_at, 100);
    assert!(!clock.must_interrupt(decoding, 100 + STALL_TIMEOUT_MS - 1));
    assert!(clock.must_interrupt(decoding, 100 + STALL_TIMEOUT_MS));
    assert!(clock.must_interrupt(Progress::Stopped, 0));
    clock.interrupted(Progress::Stopped, 50_000);
    assert!(!clock.must_interrupt(Progress::Idle, 90_000));
    assert!(!clock.must_interrupt(Progress::Idle, 900_000));
}

#[test]
fn a_finished_reception_waits_a_while_for_its_identifier() {
    let mut clock = ReceiveClock::new(0);
    assert!(!clock.history_ready(false, false, 10));
    assert!(!clock.history_ready(true, false, 1_000));
    assert_eq!(clock.history_deadline, Some(1_000 + FSK_HISTORY_WAIT_MS));
    assert!(!clock.history_ready(true, false, 2_000));
    assert!(clock.history_ready(true, true, 2_000));
    assert!(clock.history_ready(true, false, 1_000 + FSK_HISTORY_WAIT_MS));
    clock.history_taken();
    assert_eq!(clock.history_deadline, None);
}

#[test]
fn frames_go_out_no_faster_than_their_interval() {
    let mut clock = ReceiveClock::new(0);
    assert!(clock.frame_due(false, 0));
    clock.frame_sent(10);
    assert!(!clock.frame_due(false, 10 + FRAME_INTERVAL_MS - 1));
    assert!(clock.frame_due(false, 10 + FRAME_INTERVAL_MS));
    assert!(clock.frame_due(true, 11));
}

#[test]
fn remembered_identifiers_only_accumulate() {
    let arrivals = ["JA1ABC", "JH1XYZ", "JA1ABC", "7K1AAA", "JH1XYZ", "JR2BBB"];
    let mut list: Vec<String> = Vec::new();
    let mut earlier: Vec<String> = Vec::new();
    for id in arrivals {
        remember(&mut list, id.to_owned());
        assert!(list.starts_with(&earlier));
        for (i, a) in list.iter().enumerate() {
            assert!(!list[i + 1..].contains(a));
        }
        earlier = list.clone();
    }
    assert_eq!(list, vec!["JA1ABC", "JH1XYZ", "7K1AAA", "JR2BBB"]);
}
