use rssstv::app::{can_transmit, commit_variables, rx_state, tx_state, RxState, TxState};
use rssstv::app::{
    activity_for, contest_number_text, current_minute, note_activity, playback_step, repaint_after,
    rig_problem, rig_ready_to_send, transmit_problem, transmit_step, trim_in_place, tune_problem, tx_progress,
    ComposeOutcome, Composition, DecodedFollower, Dsp, DspFlags, FailureSource, Qso, RepaintWatch, Station,
    Tab, TransmitControl, TransmitProblem, TransmitStep, TransmitWatch, TuneProblem, COMPOSE_POLL_MS,
    FIRST_QSO_NUMBER, LIVE_INTERVAL_MS, WATCH_INTERVAL_MS,
};
use rssstv::platform::Activity;
use rssstv::receive::Progress;
use rssstv::transmit::{RasterTiming, TxPhase, TxProgress};

#[test]
fn tabs_and_switches_are_labelled_by_message_keys() {
    assert_eq!(Tab::all(), [Tab::Receive, Tab::Transmit]);
    assert_eq!(Tab::default_tab(), Tab::Receive);
    assert_eq!(Tab::Receive.label_key(), "tab-receive");
    assert_eq!(Tab::Transmit.label_key(), "tab-transmit");
    assert_eq!(Dsp::all(), [Dsp::Afc, Dsp::Lms, Dsp::Slant]);
    assert_eq!(Dsp::Afc.label_key(), "dsp-afc");
    assert_eq!(Dsp::Lms.label_key(), "dsp-lms");
    assert_eq!(Dsp::Slant.label_key(), "dsp-slant");
}

#[test]
fn slant_is_enabled_by_default_in_the_ui_and_worker_settings() {
    let flags = DspFlags::default();
    assert!(flags.live_slant);
    assert!(flags.afc);
    assert!(!flags.lms_filter);
}

#[test]
fn dsp_toggles_flip_one_flag() {
    for (dsp, expected) in [(Dsp::Afc, false), (Dsp::Lms, true), (Dsp::Slant, false)] {
        let mut flags = DspFlags::default();
        flags.toggle(dsp);
        assert_eq!(flags.get(dsp), expected);
        for other in Dsp::all() {
            if other != dsp {
                assert_eq!(flags.get(other), DspFlags::default().get(other));
            }
        }
    }
}

#[test]
fn toggling_a_switch_twice_changes_nothing() {
    for dsp in Dsp::all() {
        let mut flags = DspFlags::default();
        flags.toggle(dsp);
        flags.toggle(dsp);
        assert_eq!(flags, DspFlags::default());
    }
}

#[test]
fn a_fresh_contact_offers_the_usual_report_and_the_first_serial() {
    let qso = Qso::default();
    assert_eq!(qso.call, "");
    assert_eq!(qso.rsv_received, "");
    assert_eq!(qso.rsv, "595");
    assert_eq!(qso.number, "001");
}

#[test]
fn callsign_input_is_normalized() {
    let mut qso = Qso::default();
    qso.call = "ja1xyz".to_owned();
    qso.normalize_call();
    assert_eq!(qso.call, "JA1XYZ");
    qso.call = "JA1XYZ".to_owned();
    qso.normalize_call();
    assert_eq!(qso.call, "JA1XYZ");
}

#[test]
fn leaving_a_qso_field_trims_it() {
    let mut qso = Qso::default();
    qso.call = " JA1ABC ".to_owned();
    qso.rsv = " 595 ".to_owned();
    qso.rsv_received = "595  ".to_owned();
    qso.number = " 007".to_owned();

    assert!(qso.finish_edit());

    assert_eq!(qso.call, "JA1ABC");
    assert_eq!(qso.rsv, "595");
    assert_eq!(qso.rsv_received, "595");
    assert_eq!(qso.number, "007");
    assert!(!qso.finish_edit());
}

#[test]
fn trimming_reports_whether_there_was_anything_to_trim() {
    let mut text = " a b ".to_owned();
    assert!(trim_in_place(&mut text));
    assert_eq!(text, "a b");
    assert!(!trim_in_place(&mut text));
    assert_eq!(text, "a b");
}

#[test]
fn the_serial_number_counts_on() {
    for (before, after) in [("001", "002"), ("009", "010"), ("099", "100"), ("999", "1000"), (" 7 ", "008")] {
        let mut qso = Qso::default();
        qso.number = before.to_owned();
        assert!(qso.increment_number());
        assert_eq!(qso.number, after);
    }
    let mut qso = Qso::default();
    qso.number = u32::MAX.to_string();
    qso.increment_number();
    assert_eq!(qso.number, u32::MAX.to_string());
}

#[test]
fn a_serial_that_is_not_a_number_is_left_alone() {
    let mut qso = Qso::default();
    qso.number = "13H".to_owned();

    assert!(!qso.increment_number());

    assert_eq!(qso.number, "13H");
}

#[test]
fn the_serial_number_is_reset_and_kept() {
    let mut qso = Qso::default();
    qso.number = "042".to_owned();
    qso.reset_number();
    assert_eq!(qso.number, FIRST_QSO_NUMBER);
}

#[test]
fn the_contest_number_is_filtered_and_uppercased() {
    for (typed, expected) in [("001", "001"), ("13h", "13H"), (" 42 ", "42"), ("100-2", "1002"), ("", "")] {
        assert_eq!(contest_number_text(typed, true).as_deref(), Some(expected), "{typed}");
    }
}

#[test]
fn no_contest_number_is_sent_outside_contest_mode() {
    assert_eq!(contest_number_text("001", false), None);
}

#[test]
fn station_details_are_kept_and_normalized() {
    let mut station = Station {
        callsign: " ja1abc ".to_owned(),
        qth: "  Chiyoda, Tokyo ".to_owned(),
        grid: " PM95uq".to_owned(),
        open: true,
    };
    station.normalize();
    assert_eq!(station.callsign, "JA1ABC");
    assert_eq!(station.qth, "Chiyoda, Tokyo");
    assert_eq!(station.grid, "PM95uq");
    assert!(station.open);
}

fn list(items: &[&str]) -> Vec<String> {
    items.iter().map(|item| (*item).to_owned()).collect()
}

#[test]
fn a_decoded_identifier_fills_the_qso_contact_field() {
    let mut follower = DecodedFollower::new();
    let mut qso = Qso::default();
    assert!(follower.adopt_callsign(&list(&["JA1ABC"]), &mut qso.call));
    assert_eq!(qso.call, "JA1ABC");
}

#[test]
fn an_unchanged_identifier_list_leaves_the_contact_field_alone() {
    let mut follower = DecodedFollower::new();
    let mut qso = Qso::default();
    follower.adopt_callsign(&list(&["JA1ABC"]), &mut qso.call);
    qso.call = "JA1XYZ".to_owned();
    assert!(!follower.adopt_callsign(&list(&["JA1ABC"]), &mut qso.call));
    assert_eq!(qso.call, "JA1XYZ");
}

#[test]
fn a_newly_decoded_identifier_replaces_the_contact_field() {
    let mut follower = DecodedFollower::new();
    let mut qso = Qso::default();
    follower.adopt_callsign(&list(&["JA1ABC"]), &mut qso.call);
    qso.call = "TYPED".to_owned();
    follower.adopt_callsign(&list(&["JA1ABC", "JH1XYZ"]), &mut qso.call);
    assert_eq!(qso.call, "JH1XYZ");
}

#[test]
fn an_identifier_after_a_restart_is_adopted_again() {
    let mut follower = DecodedFollower::new();
    let mut qso = Qso::default();
    follower.adopt_callsign(&list(&["JA1ABC", "JH1XYZ"]), &mut qso.call);
    follower.adopt_callsign(&list(&[]), &mut qso.call);
    follower.adopt_callsign(&list(&["JA1ABC"]), &mut qso.call);
    assert_eq!(qso.call, "JA1ABC");
}

#[test]
fn a_reopened_device_starts_the_counts_over() {
    let mut follower = DecodedFollower::new();
    let mut qso = Qso::default();
    follower.adopt_callsign(&list(&["JA1ABC"]), &mut qso.call);
    qso.call = "TYPED".to_owned();
    follower.follow_session(1);
    assert_eq!(follower.callsigns, 0);
    follower.adopt_callsign(&list(&["JH1XYZ"]), &mut qso.call);
    assert_eq!(qso.call, "JH1XYZ");
    follower.follow_session(1);
    assert_eq!(follower.callsigns, 1);
}

#[test]
fn a_blank_identifier_does_not_reach_the_contact_field() {
    let mut follower = DecodedFollower::new();
    let mut qso = Qso::default();
    qso.call = "JA1ABC".to_owned();
    assert!(!follower.adopt_callsign(&list(&["   "]), &mut qso.call));
    assert_eq!(qso.call, "JA1ABC");
}

#[test]
fn a_decoded_contest_number_fills_the_received_report() {
    let mut follower = DecodedFollower::new();
    let mut qso = Qso::default();
    assert!(follower.adopt_number(&list(&["001"]), &mut qso.rsv_received));
    assert_eq!(qso.rsv_received, "595001");
}

#[test]
fn an_unchanged_number_list_leaves_the_received_report_alone() {
    let mut follower = DecodedFollower::new();
    let mut qso = Qso::default();
    follower.adopt_number(&list(&["001"]), &mut qso.rsv_received);
    qso.rsv_received = "599".to_owned();
    follower.adopt_number(&list(&["001"]), &mut qso.rsv_received);
    assert_eq!(qso.rsv_received, "599");
}

#[test]
fn a_number_after_a_restart_is_adopted_again() {
    let mut follower = DecodedFollower::new();
    let mut qso = Qso::default();
    follower.adopt_number(&list(&["001", "002"]), &mut qso.rsv_received);
    assert_eq!(qso.rsv_received, "595002");
    follower.adopt_number(&list(&[]), &mut qso.rsv_received);
    follower.adopt_number(&list(&["001"]), &mut qso.rsv_received);
    assert_eq!(qso.rsv_received, "595001");
}

#[test]
fn the_identifier_setting_decides_only_whether_the_callsign_is_sent() {
    let problem = transmit_problem(false, Err("bad callsign".to_owned()), false, false, None);
    assert_eq!(problem, Some(TransmitProblem::InvalidStationCall("bad callsign".to_owned())));
    assert_eq!(transmit_problem(false, Ok(()), false, false, None), Some(TransmitProblem::NoTransmitFrame));
}

#[test]
fn a_picture_is_held_back_by_the_first_problem_in_order() {
    assert_eq!(
        transmit_problem(true, Err("bad".to_owned()), false, false, Some("rig".to_owned())),
        Some(TransmitProblem::ToneActive)
    );
    assert_eq!(transmit_problem(false, Ok(()), true, false, None), Some(TransmitProblem::NoOutputDevice));
    assert_eq!(
        transmit_problem(false, Ok(()), true, true, Some("refused".to_owned())),
        Some(TransmitProblem::RigUnavailable("refused".to_owned()))
    );
    assert_eq!(transmit_problem(false, Ok(()), true, true, None), None);
}

#[test]
fn a_tune_tone_needs_only_an_output_device() {
    assert_eq!(tune_problem(false, false, None), Some(TuneProblem::NoOutputDevice));
    assert_eq!(tune_problem(false, true, None), None);
}

#[test]
fn a_tone_and_a_picture_refuse_each_other() {
    assert_eq!(tune_problem(true, true, None), Some(TuneProblem::TransmitActive));
    assert_eq!(transmit_problem(true, Ok(()), true, true, None), Some(TransmitProblem::ToneActive));
}

#[test]
fn rig_control_that_is_not_ready_stops_a_transmission() {
    assert!(rig_problem(true, false, None, "connecting".to_owned()).is_some());
    assert!(rig_problem(true, true, None, "receiving".to_owned()).is_none());
    assert!(rig_problem(false, false, Some("failed".to_owned()), "failed".to_owned()).is_none());
}

#[test]
fn a_rig_failure_is_reported_in_the_rig_s_own_words() {
    let problem = rig_problem(true, false, Some("connection refused".to_owned()), "Failed".to_owned());
    assert_eq!(problem.as_deref(), Some("connection refused"));
    let problem = rig_problem(true, false, None, "Connecting".to_owned());
    assert_eq!(problem.as_deref(), Some("Connecting"));
}

#[test]
fn audio_waits_until_the_rig_says_it_is_transmitting() {
    assert!(rig_ready_to_send(false, false));
    assert!(!rig_ready_to_send(true, false));
    assert!(rig_ready_to_send(true, true));
}

fn watch(phase: TxPhase) -> TransmitWatch {
    TransmitWatch {
        tune_expired: false,
        worker_running: true,
        phase,
        rig_keyed: false,
        rig_failed: false,
        rig_transmitting: false,
        playback_started: false,
    }
}

#[test]
fn a_tune_tone_stops_itself_once_its_time_is_up() {
    let step = transmit_step(TransmitWatch { tune_expired: true, ..watch(TxPhase::Producing) });
    assert_eq!(step, TransmitStep::Finish(TxPhase::Complete));
    let mut control = TransmitControl::idle();
    control.begin(true, false);
    control.stop_with(TxPhase::Complete);
    assert!(!control.tuning);
    assert_eq!(control.phase, TxPhase::Complete);
}

#[test]
fn a_transmission_is_driven_by_what_its_worker_and_rig_report() {
    assert_eq!(transmit_step(TransmitWatch { worker_running: false, ..watch(TxPhase::Producing) }), TransmitStep::Continue);
    assert_eq!(transmit_step(watch(TxPhase::Failed)), TransmitStep::Fail(FailureSource::Worker));
    assert_eq!(
        transmit_step(TransmitWatch { rig_keyed: true, rig_failed: true, ..watch(TxPhase::Producing) }),
        TransmitStep::Fail(FailureSource::Rig)
    );
    assert_eq!(transmit_step(watch(TxPhase::Producing)), TransmitStep::StartPlayback);
    assert_eq!(transmit_step(watch(TxPhase::Priming)), TransmitStep::Continue);
    assert_eq!(
        transmit_step(TransmitWatch { rig_keyed: true, ..watch(TxPhase::Draining) }),
        TransmitStep::Continue
    );
    assert_eq!(
        transmit_step(TransmitWatch { rig_keyed: true, rig_transmitting: true, ..watch(TxPhase::Draining) }),
        TransmitStep::StartPlayback
    );
    assert_eq!(
        transmit_step(TransmitWatch { playback_started: true, ..watch(TxPhase::Producing) }),
        TransmitStep::Continue
    );
    assert_eq!(playback_step(true, true, TxPhase::Producing, false), TransmitStep::Fail(FailureSource::Underrun));
    assert_eq!(playback_step(false, true, TxPhase::Draining, true), TransmitStep::Finish(TxPhase::Complete));
    assert_eq!(playback_step(true, false, TxPhase::Producing, true), TransmitStep::Continue);
}

#[test]
fn stopping_a_tune_tone_ends_the_transmission() {
    let mut control = TransmitControl::idle();
    control.begin(true, true);
    assert_eq!(control.stop_tune(), (true, true));
    assert!(!control.tuning);
    assert_eq!(control.phase, TxPhase::Cancelled);
    assert_eq!(control.stop_tune(), (false, false));
}

#[test]
fn a_tune_tone_mutes_reception_until_it_is_stopped() {
    let mut control = TransmitControl::idle();
    assert!(!control.mutes_reception());
    control.begin(true, false);
    assert!(control.mutes_reception());
    control.stop_tune();
    assert!(!control.mutes_reception());
}

#[test]
fn reception_is_muted_for_as_long_as_a_transmission_runs() {
    for (phase, expected) in [
        (TxPhase::Priming, true),
        (TxPhase::Producing, true),
        (TxPhase::Draining, true),
        (TxPhase::Complete, false),
        (TxPhase::Cancelled, false),
        (TxPhase::Failed, false),
    ] {
        let control = TransmitControl { phase, ..TransmitControl::idle() };
        assert_eq!(control.mutes_reception(), expected);
    }
}

#[test]
fn the_transmit_progress_follows_the_phase() {
    let raster = RasterTiming { start_samples: 100, samples: 20, rows: 40 };
    assert_eq!(tx_progress(TxPhase::Complete, 105, raster), TxProgress::Complete);
    assert_eq!(tx_progress(TxPhase::Idle, 105, raster), TxProgress::Idle);
    assert_eq!(tx_progress(TxPhase::Producing, 105, raster), TxProgress::Scanning { rows: 10, total: 40 });
}

#[test]
fn a_transmission_outranks_a_reception() {
    let decoding = Progress::Decoding { rows: 40, total: 100 };
    assert_eq!(activity_for(true, decoding), Activity::Transmitting);
    assert_eq!(activity_for(false, decoding), Activity::Receiving);
    assert_eq!(activity_for(false, Progress::Idle), Activity::Idle);
}

#[test]
fn a_reception_asks_the_platform_to_stay_awake_until_it_ends() {
    let mut reported = Activity::default();
    assert!(note_activity(&mut reported, activity_for(false, Progress::Decoding { rows: 40, total: 100 })));
    assert_eq!(reported, Activity::Receiving);
    assert!(note_activity(&mut reported, activity_for(false, Progress::Idle)));
    assert_eq!(reported, Activity::Idle);
}

#[test]
fn an_unchanged_activity_is_not_reported_again() {
    let mut reported = Activity::default();
    assert!(note_activity(&mut reported, activity_for(false, Progress::Decoding { rows: 10, total: 100 })));
    assert!(!note_activity(&mut reported, activity_for(false, Progress::Decoding { rows: 20, total: 100 })));
}

fn quiet() -> RepaintWatch {
    RepaintWatch {
        transmitting: false,
        composing: false,
        scanning: false,
        shows_clock: false,
        now_second: 0,
        watching: false,
    }
}

#[test]
fn an_idle_interface_schedules_no_frames() {
    assert_eq!(repaint_after(quiet()), None);
}

#[test]
fn a_running_tone_schedules_frames() {
    assert_eq!(repaint_after(RepaintWatch { transmitting: true, ..quiet() }), Some(LIVE_INTERVAL_MS));
}

#[test]
fn the_shortest_interval_wins() {
    assert_eq!(repaint_after(RepaintWatch { watching: true, ..quiet() }), Some(WATCH_INTERVAL_MS));
    assert_eq!(
        repaint_after(RepaintWatch { watching: true, transmitting: true, ..quiet() }),
        Some(LIVE_INTERVAL_MS)
    );
    assert_eq!(
        repaint_after(RepaintWatch { watching: true, scanning: true, ..quiet() }),
        Some(COMPOSE_POLL_MS)
    );
}

#[test]
fn a_frame_that_shows_the_clock_is_redrawn_as_the_minute_turns() {
    assert_eq!(repaint_after(RepaintWatch { shows_clock: true, now_second: 125, ..quiet() }), Some(55_000));
    assert_eq!(repaint_after(RepaintWatch { shows_clock: true, now_second: -1, ..quiet() }), Some(1_000));
    assert_eq!(
        repaint_after(RepaintWatch { shows_clock: true, now_second: 59, composing: true, ..quiet() }),
        Some(COMPOSE_POLL_MS)
    );
}

#[test]
fn minutes_are_counted_from_the_epoch() {
    assert_eq!(current_minute(0), 0);
    assert_eq!(current_minute(59), 0);
    assert_eq!(current_minute(60), 1);
    assert_eq!(current_minute(-1), -1);
    assert_eq!(current_minute(-60), -1);
    assert_eq!(current_minute(-61), -2);
}

#[test]
fn only_a_composition_that_shows_the_time_is_made_again() {
    let mut composition = Composition::new(10);
    assert!(!composition.clock_moved_on(11));
    composition.request(10, false, true);
    composition.adopt(composition.generation, true, false);
    assert!(!composition.clock_moved_on(10));
    assert!(composition.clock_moved_on(11));
}

#[test]
fn qso_changes_do_not_invalidate_template_or_stock_files() {
    let mut composition = Composition::new(0);
    let template_generation = composition.template_generation;
    let stock_generation = composition.stock_generation;

    composition.request(0, false, true);
    assert_eq!(composition.template_generation, template_generation);
    assert_eq!(composition.stock_generation, stock_generation);

    composition.template_changed();
    assert_eq!(composition.template_generation, template_generation.wrapping_add(1));
    assert_eq!(composition.stock_generation, stock_generation);

    composition.stock_changed();
    assert_eq!(composition.stock_generation, stock_generation.wrapping_add(1));
}

#[test]
fn a_selection_during_a_transmission_takes_effect_when_it_ends() {
    let mut composition = Composition::new(0);
    assert_eq!(composition.request(0, false, true), ComposeOutcome::Requested(1));
    assert!(composition.adopt(1, false, false));
    assert_eq!(composition.request(0, true, true), ComposeOutcome::Deferred);
    assert_eq!(composition.generation, 1);
    assert!(composition.take_deferred());
    assert!(!composition.take_deferred());
    assert_eq!(composition.request(0, false, true), ComposeOutcome::Requested(2));
}

#[test]
fn an_answer_to_an_older_request_is_ignored() {
    let mut composition = Composition::new(0);
    composition.request(0, false, true);
    composition.request(0, false, true);
    let before = composition;
    assert!(!composition.adopt(1, true, true));
    assert_eq!(composition, before);
    assert!(composition.pending);
    assert!(composition.adopt(2, true, true));
    assert!(!composition.pending);
    assert!(composition.shows_clock);
}

#[test]
fn nothing_to_compose_without_a_template_and_a_background() {
    let mut composition = Composition::new(0);
    assert_eq!(composition.request(3, false, false), ComposeOutcome::NothingSelected);
    assert_eq!(composition.minute, 3);
    assert!(!composition.pending);
}

#[test]
fn generations_wrap_rather_than_overflow() {
    let mut composition = Composition::new(0);
    composition.generation = u64::MAX;
    assert_eq!(composition.request(0, false, true), ComposeOutcome::Requested(0));
    composition.template_generation = u64::MAX;
    composition.template_changed();
    assert_eq!(composition.template_generation, 0);
}

#[test]
fn the_receive_line_says_what_the_receiver_is_doing() {
    assert_eq!(rx_state(true, Progress::Decoding { rows: 1, total: 2 }), RxState::Muted);
    assert_eq!(rx_state(false, Progress::Stopped), RxState::Stopped);
    assert_eq!(rx_state(false, Progress::Idle), RxState::Waiting);
    assert_eq!(rx_state(false, Progress::Complete), RxState::Complete);
    assert_eq!(rx_state(false, Progress::Acquiring), RxState::Receiving(Progress::Acquiring));
}

#[test]
fn the_transmit_line_says_what_the_transmitter_is_doing() {
    assert_eq!(tx_state(true, TxPhase::Producing, TxProgress::Leader, false), TxState::Tone);
    assert_eq!(tx_state(false, TxPhase::Priming, TxProgress::Leader, false), TxState::Preparing);
    assert_eq!(
        tx_state(false, TxPhase::Producing, TxProgress::Scanning { rows: 3, total: 9 }, false),
        TxState::Transmitting { row: 3, total: 9 }
    );
    assert_eq!(tx_state(false, TxPhase::Draining, TxProgress::Identifying, false), TxState::Identifying);
    assert_eq!(tx_state(false, TxPhase::Producing, TxProgress::Leader, false), TxState::Leader);
    assert_eq!(tx_state(false, TxPhase::Complete, TxProgress::Complete, true), TxState::Complete);
    assert_eq!(tx_state(false, TxPhase::Idle, TxProgress::Idle, true), TxState::Ready);
    assert_eq!(tx_state(false, TxPhase::Failed, TxProgress::Idle, false), TxState::NotReady);
    assert!(can_transmit(true, TxPhase::Idle));
    assert!(!can_transmit(true, TxPhase::Producing));
    assert!(!can_transmit(false, TxPhase::Idle));
}

#[test]
fn an_unusable_custom_variable_name_is_kept_out_of_the_composition() {
    let draft = vec![("club".to_owned(), "JARL".to_owned()), ("2m rig".to_owned(), "FT-991A".to_owned())];
    let variables = commit_variables(&draft, &vec![true, false]);
    assert_eq!(variables, vec![("club".to_owned(), "JARL".to_owned())]);
}

#[test]
fn custom_variables_are_kept_exactly_as_they_were_entered() {
    let draft = vec![("club".to_owned(), "  JARL  ".to_owned())];
    let variables = commit_variables(&draft, &vec![true]);
    assert_eq!(variables, vec![("club".to_owned(), "  JARL  ".to_owned())]);
}

#[test]
fn variables_are_ordered_by_name_and_the_last_row_wins() {
    let draft = vec![
        ("rig".to_owned(), "IC-705".to_owned()),
        ("club".to_owned(), "JARL".to_owned()),
        ("rig".to_owned(), "FT-991A".to_owned()),
        ("Zone".to_owned(), "25".to_owned()),
    ];
    let variables = commit_variables(&draft, &vec![true, true, true, true]);
    assert_eq!(
        variables,
        vec![
            ("Zone".to_owned(), "25".to_owned()),
            ("club".to_owned(), "JARL".to_owned()),
            ("rig".to_owned(), "FT-991A".to_owned()),
        ]
    );
}

#[test]
fn a_rig_keyed_for_a_picture_is_unkeyed_when_it_ends() {
    let mut control = TransmitControl::idle();
    control.begin(false, true);
    assert!(control.rig_keyed);
    assert!(control.stop_with(TxPhase::Complete));
    assert!(!control.rig_keyed);
    control.begin(false, false);
    assert!(!control.stop_with(TxPhase::Failed));
}
