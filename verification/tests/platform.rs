use rssstv::platform::{
    app_directory, file_manager, is_in_window, keep_awake, manual_fallback, to_rgba, ui_fonts, wide, Activity,
    HostOs, InertPlatform, Platform, QuietPlatform,
};

#[test]
fn icon_bgra_pixels_are_reordered() {
    let pixels = to_rgba(vec![1, 2, 3, 4, 5, 6, 7, 8]);
    assert_eq!(pixels, vec![3, 2, 1, 4, 7, 6, 5, 8]);
}

/// A frame without alpha has to stay visible.
#[test]
fn icon_a_fully_transparent_bitmap_is_taken_as_opaque() {
    let pixels = to_rgba(vec![1, 2, 3, 0, 5, 6, 7, 0]);
    assert_eq!(pixels, vec![3, 2, 1, 255, 7, 6, 5, 255]);
}

#[test]
fn windows_bgra_pixels_are_reordered() {
    let pixels = to_rgba(vec![1, 2, 3, 4, 5, 6, 7, 8]);
    assert_eq!(pixels, vec![3, 2, 1, 4, 7, 6, 5, 8]);
}

/// A frame without alpha has to stay visible.
#[test]
fn windows_a_fully_transparent_bitmap_is_taken_as_opaque() {
    let pixels = to_rgba(vec![1, 2, 3, 0, 5, 6, 7, 0]);
    assert_eq!(pixels, vec![3, 2, 1, 255, 7, 6, 5, 255]);
}

#[test]
fn a_bitmap_with_one_visible_pixel_keeps_every_alpha() {
    let pixels = to_rgba(vec![1, 2, 3, 0, 5, 6, 7, 9]);
    assert_eq!(pixels, vec![3, 2, 1, 0, 7, 6, 5, 9]);
}

#[test]
fn turning_a_visible_bitmap_around_twice_restores_it() {
    let given = vec![10, 20, 30, 40, 50, 60, 70, 0];
    assert_eq!(to_rgba(to_rgba(given.clone())), given);
}

#[test]
fn bytes_after_the_last_whole_pixel_are_left_alone() {
    let pixels = to_rgba(vec![1, 2, 3, 4, 9, 8]);
    assert_eq!(pixels, vec![3, 2, 1, 4, 9, 8]);
    assert_eq!(to_rgba(Vec::new()), Vec::<u8>::new());
}

#[test]
fn text_is_encoded_as_terminated_utf16() {
    assert_eq!(wide("A"), vec![0x41, 0]);
    assert_eq!(wide(""), vec![0]);
    assert_eq!(wide("日本"), vec![0x65E5, 0x672C, 0]);
    assert_eq!(wide("\u{1F4E1}"), vec![0xD83D, 0xDCE1, 0]);
    let expected: Vec<u16> = "kb10uy.RSSSTV".encode_utf16().chain(std::iter::once(0)).collect();
    assert_eq!(wide("kb10uy.RSSSTV"), expected);
}

#[test]
fn only_platforms_without_a_menu_bar_draw_it_in_the_window() {
    assert!(!is_in_window(HostOs::Windows));
    assert!(!is_in_window(HostOs::MacOs));
    assert!(is_in_window(HostOs::Linux));
    assert!(is_in_window(HostOs::Other));
}

#[test]
fn the_platform_answers_name_its_own_conventions() {
    assert_eq!(app_directory(HostOs::Linux), "rssstv");
    assert_eq!(app_directory(HostOs::Windows), "RSSSTV");
    assert_eq!(app_directory(HostOs::MacOs), "RSSSTV");
    assert_eq!(file_manager(HostOs::Linux), Some("xdg-open"));
    assert_eq!(file_manager(HostOs::MacOs), Some("open"));
    assert_eq!(file_manager(HostOs::Windows), Some("explorer.exe"));
    assert_eq!(file_manager(HostOs::Other), None);
    assert_eq!(manual_fallback(HostOs::Linux), Some("/usr/share/doc/rssstv/help/index.html"));
    assert_eq!(manual_fallback(HostOs::Windows), None);
    assert_eq!(ui_fonts(HostOs::Windows), vec!["Yu Gothic UI", "Meiryo UI", "Segoe UI"]);
    assert_eq!(ui_fonts(HostOs::MacOs), vec!["Hiragino Sans", "Helvetica Neue"]);
    assert_eq!(ui_fonts(HostOs::Linux), vec!["Noto Sans CJK JP", "Noto Sans", "DejaVu Sans"]);
}

#[test]
fn only_a_transmission_keeps_the_display_on() {
    assert_eq!(keep_awake(Activity::Idle), (false, false));
    assert_eq!(keep_awake(Activity::Receiving), (true, false));
    assert_eq!(keep_awake(Activity::Transmitting), (true, true));
    assert_eq!(Activity::default(), Activity::Idle);
}

#[test]
fn the_quiet_platforms_accept_every_activity() {
    let mut inert = InertPlatform;
    let mut quiet = QuietPlatform;
    for activity in [Activity::Idle, Activity::Receiving, Activity::Transmitting] {
        inert.set_activity(activity);
        quiet.set_activity(activity);
    }
}
