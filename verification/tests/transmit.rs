use rssstv::transmit::{
    asset_candidates, cover_geometry, cover_image, crop_rgb, fail, prefill, record_written, samples_for,
    template_variables, try_cover_image, RasterTiming, TxPhase, TxProgress, TxSnapshot,
};

#[test]
fn an_unknown_raster_window_reports_the_leader_rather_than_a_row() {
    assert_eq!(RasterTiming::default().progress_at(1_000), TxProgress::Leader);
}

#[test]
fn played_samples_map_onto_the_row_being_transmitted() {
    let raster = RasterTiming { start_samples: 100, samples: 20, rows: 40 };
    for (played, expected) in [
        (0, TxProgress::Leader),
        (99, TxProgress::Leader),
        (100, TxProgress::Scanning { rows: 0, total: 40 }),
        (105, TxProgress::Scanning { rows: 10, total: 40 }),
        (119, TxProgress::Scanning { rows: 38, total: 40 }),
        (120, TxProgress::Identifying),
        (400, TxProgress::Identifying),
    ] {
        assert_eq!(raster.progress_at(played), expected, "{played}");
    }
}

#[test]
fn progress_maps_to_a_sent_share() {
    assert_eq!(TxProgress::Leader.sent_share(), (0, 1));
    assert_eq!(TxProgress::Scanning { rows: 62, total: 124 }.sent_share(), (62, 124));
    assert_eq!(TxProgress::Scanning { rows: 0, total: 0 }.sent_share(), (0, 1));
    assert_eq!(TxProgress::Identifying.sent_share(), (1, 1));
    assert_eq!(TxProgress::Complete.sent_share(), (1, 1));
}

#[test]
fn only_a_running_transmission_is_active() {
    assert!(!TxPhase::Idle.is_active());
    assert!(TxPhase::Priming.is_active());
    assert!(TxPhase::Producing.is_active());
    assert!(TxPhase::Draining.is_active());
    assert!(!TxPhase::Complete.is_active());
    assert!(!TxPhase::Cancelled.is_active());
    assert!(!TxPhase::Failed.is_active());
    assert_eq!(TxPhase::default_phase(), TxPhase::Idle);
}

#[test]
fn a_duration_becomes_whole_samples_rounded_up() {
    assert_eq!(samples_for(1_000_000_000_000, 48_000), 48_000);
    assert_eq!(samples_for(1, 48_000), 1);
    assert_eq!(samples_for(0, 48_000), 0);
    assert_eq!(samples_for(500_000_000_000, 8_000), 4_000);
}

#[test]
fn a_failure_is_recorded_with_its_reason() {
    let mut snapshot = TxSnapshot::idle();
    snapshot.generated_samples = 7;
    fail(&mut snapshot, "device gone".to_owned());
    assert_eq!(snapshot.phase, TxPhase::Failed);
    assert_eq!(snapshot.error.as_deref(), Some("device gone"));
    assert_eq!(snapshot.generated_samples, 7);
}

#[test]
fn priming_ends_once_the_prefill_is_written() {
    let mut snapshot = TxSnapshot::idle();
    snapshot.phase = TxPhase::Priming;
    assert!(!record_written(&mut snapshot, 100, false, 250));
    assert_eq!(snapshot.phase, TxPhase::Priming);
    assert!(record_written(&mut snapshot, 150, false, 250));
    assert_eq!(snapshot.phase, TxPhase::Producing);
    assert_eq!(snapshot.generated_samples, 250);
    assert!(!record_written(&mut snapshot, 10, true, 250));
    assert_eq!(snapshot.generated_samples, 260);
}

#[test]
fn the_prefill_is_a_quarter_second_at_most() {
    assert_eq!(prefill(100_000, 48_000, 1_000_000), 12_000);
    assert_eq!(prefill(500, 48_000, 1_000_000), 500);
    assert_eq!(prefill(100_000, 48_000, 300), 300);
    assert_eq!(prefill(100_000, 2, 1_000), 1);
}

#[test]
fn covering_crops_the_middle_of_a_scaled_image() {
    let geometry = cover_geometry(4, 2, 2, 2);
    assert_eq!((geometry.resized_width, geometry.resized_height), (4, 2));
    assert_eq!((geometry.x, geometry.y), (1, 0));
    let geometry = cover_geometry(320, 240, 320, 256);
    assert_eq!((geometry.resized_width, geometry.resized_height), (342, 256));
    assert_eq!((geometry.x, geometry.y), (11, 0));
}

#[test]
fn cropping_keeps_the_window_row_by_row() {
    let rgb: Vec<u8> = (0..(3 * 2 * 3)).map(|v| v as u8).collect();
    let cropped = crop_rgb(&rgb, 3, 2, 1, 0, 2, 2);
    assert_eq!(cropped, vec![3, 4, 5, 6, 7, 8, 12, 13, 14, 15, 16, 17]);
}

#[test]
fn cover_resize_matches_mode_dimensions() {
    let mut source = Vec::new();
    for _y in 0..2u8 {
        for x in 0..4u8 {
            source.extend_from_slice(&[x, 0, 0]);
        }
    }
    let result = cover_image(&source, 4, 2, 2, 2);
    assert_eq!(result.len(), 2 * 2 * 3);
    assert!(result[0] > 0);
    assert!(result[3] < 3);
}

#[test]
fn template_variables_include_station_and_contact_fields() {
    let variables = template_variables("JA1ABC", "N0CALL", "595", "001");
    let get = |name: &str| variables.iter().find(|(key, _)| key == name).map(|(_, value)| value.as_str());
    assert_eq!(get("station.callsign"), Some("JA1ABC"));
    assert_eq!(get("contact.callsign"), Some("N0CALL"));
    assert_eq!(get("mycall"), Some("JA1ABC"));
    assert_eq!(get("report.sent"), Some("595"));
    assert_eq!(get("report.number"), Some("001"));
    assert_eq!(variables.len(), 5);
}

#[test]
fn an_asset_is_looked_for_beside_the_template_then_among_the_shared_ones() {
    assert_eq!(
        asset_candidates("/t", "/a", "logo.png"),
        ("/t/logo.png".to_owned(), "/a/logo.png".to_owned())
    );
    assert_eq!(
        asset_candidates("/t", "/a", "assets/logo.png"),
        ("/t/assets/logo.png".to_owned(), "/a/logo.png".to_owned())
    );
    assert_eq!(asset_candidates("/t", "/a", "assets"), ("/t/assets".to_owned(), "/a/".to_owned()));
    assert_eq!(
        asset_candidates("/t/", "/a/", "assetsx/logo.png"),
        ("/t/assetsx/logo.png".to_owned(), "/a/assetsx/logo.png".to_owned())
    );
}

#[test]
fn a_background_that_cannot_be_fitted_is_refused() {
    assert_eq!(try_cover_image(&[], 0, 2, 2, 2), None);
    assert_eq!(try_cover_image(&[0; 12], 4, 2, 2, 2), None);
    assert_eq!(try_cover_image(&[0; 6], 1, 2, u32::MAX, 1), None);
    assert_eq!(try_cover_image(&[0; 3], 1, 1, u32::MAX, u32::MAX), None);
}

#[test]
fn a_background_that_fits_is_covered_as_cover_image_covers_it() {
    let source: Vec<u8> = (0..24).collect();
    assert_eq!(try_cover_image(&source, 4, 2, 2, 2), Some(cover_image(&source, 4, 2, 2, 2)));
}
