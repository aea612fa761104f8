use rssstv::history::HistoryFormat;
use rssstv::i18n::{I18n, Locale};
use rssstv::menu::{
    asks_to_close, device_items, flatten, folder_items, history_items, locale_items, manual_opening, model, model_from_labels, structure_matches, Action, Item, ManualOpening,
    Menu, MenuHost, MenuLabels, MenuState,
};
use rssstv::paths::Folder;

fn count(items: &[Item]) -> usize {
    items
        .iter()
        .map(|item| match item {
            Item::Submenu { items, .. } => 1 + count(items),
            _ => 1,
        })
        .sum()
}

fn labels(prefix: &str) -> MenuLabels {
    let text = |key: &str| format!("{prefix}{key}");
    MenuLabels {
        file: text("file"),
        folders: (0..6).map(|k| text(&format!("folder{k}"))).collect(),
        quit: text("quit"),
        view: text("view"),
        zoom_in: text("zoom-in"),
        zoom_out: text("zoom-out"),
        zoom_reset: text("zoom-reset"),
        settings: text("settings"),
        station: text("station"),
        custom_variables: text("custom-variables"),
        input_device: text("input-device"),
        no_input: text("no-input"),
        output_device: text("output-device"),
        no_output: text("no-output"),
        transmit: text("transmit"),
        send_fskid: text("send-fskid"),
        receive: text("receive"),
        vis_restart: text("vis-restart"),
        history: text("history"),
        auto_history: text("auto-history"),
        formats: (0..3).map(|k| text(&format!("format{k}"))).collect(),
        rig: text("rig"),
        rig_write_script: text("rig-write-script"),
        rig_write_bands: text("rig-write-bands"),
        language: text("language"),
        help: text("help"),
        manual: text("manual"),
    }
}

fn state() -> MenuState {
    MenuState {
        input_devices: vec!["mic".to_owned(), "line".to_owned()],
        input_selected: Some("line".to_owned()),
        output_devices: Vec::new(),
        output_selected: None,
        send_fskid: true,
        vis_restart: false,
        auto_history: true,
        history_format: HistoryFormat::Png,
        locale: Locale::Ja,
    }
}

#[test]
fn menu_flattening_visits_a_submenu_before_its_contents() {
    let model = vec![Menu {
        label: "settings".to_owned(),
        items: vec![
            Item::Separator,
            Item::Submenu {
                label: "outer".to_owned(),
                items: vec![Item::Pending("inner".to_owned())],
            },
            Item::Pending("after".to_owned()),
        ],
    }];
    let flat = flatten(&model);
    assert!(matches!(flat[0], Item::Separator));
    assert!(matches!(flat[1], Item::Submenu { .. }));
    assert!(matches!(flat[2], Item::Pending(label) if label == "inner"));
    assert!(matches!(flat[3], Item::Pending(label) if label == "after"));
}

#[test]
fn menu_flattening_counts_every_item_including_separators() {
    let model = model_from_labels(&labels(""), &state());
    let expected: usize = model.iter().map(|menu| count(&menu.items)).sum();
    assert_eq!(flatten(&model).len(), expected);
    assert!(model.iter().any(|menu| menu.items.iter().any(|item| matches!(item, Item::Separator))));
}

/// Messages for the keys the menu is labelled by.
const MESSAGES: &str = "menu-file = File\n\
menu-open-received = Open received\n\
menu-open-sent = Open sent\n\
menu-open-stocks = Open stocks\n\
menu-open-templates = Open templates\n\
menu-open-assets = Open assets\n\
menu-open-config = Open configuration\n\
menu-quit = Quit\n\
menu-zoom-reset = Reset zoom ({ $percent }%)\n\
input-device = Input device\n\
action-send-fskid = Send FSK ID\n\
menu-help = Help\n\
menu-manual = Manual\n";

fn i18n() -> I18n {
    I18n::new(Locale::En, MESSAGES.to_owned())
}

#[test]
fn menu_the_file_menu_offers_every_folder() {
    let i18n = i18n();
    let model = model(&i18n, "100", &state());
    let offered: Vec<Folder> = model[0]
        .items
        .iter()
        .filter_map(|item| match item {
            Item::Command { action: Action::Reveal(folder), .. } => Some(*folder),
            _ => None,
        })
        .collect();
    assert_eq!(offered, Folder::all());
    for (item, folder) in model[0].items.iter().zip(Folder::all()) {
        let key = folder.label_key();
        assert_ne!(i18n.text(key), key, "{key} is not translated");
        assert!(matches!(item, Item::Command { label, .. } if *label == i18n.text(key)));
    }
    assert!(matches!(model[0].items.last(), Some(Item::Command { label, action: Action::Quit }) if label == "Quit"));
}

#[test]
fn the_help_menu_opens_the_manual() {
    let i18n = i18n();
    let model = model(&i18n, "100", &state());
    let help = model.last().expect("the menu should end with Help");
    assert!(matches!(help.items.as_slice(), [Item::Command { action: Action::OpenManual, .. }]));
    assert!(matches!(help.items.as_slice(), [Item::Command { label, .. }] if label == "Manual"));
    assert_ne!(i18n.text("menu-manual"), "menu-manual");
}

#[test]
fn the_menu_is_labelled_by_the_messages_of_its_keys() {
    let model = model(&i18n(), "150", &state());
    assert_eq!(model[0].label, "File");
    assert_eq!(model[3].label, "Help");
    assert!(matches!(&model[1].items[2], Item::Command { label, action: Action::ZoomReset } if label == "Reset zoom (150%)"));
    assert!(matches!(&model[2].items[3], Item::Submenu { label, .. } if label == "Input device"));
    assert!(matches!(&model[2].items[5], Item::Submenu { items, .. }
        if matches!(items.as_slice(), [Item::Check { label, .. }] if label == "Send FSK ID")));
    // A key with no message shows the key itself.
    assert_eq!(model[1].label, "menu-view");
}

#[test]
fn the_model_marks_what_the_state_selects() {
    let model = model_from_labels(&labels(""), &state());
    let flat = flatten(&model);
    let checked: Vec<&str> = flat
        .iter()
        .filter_map(|item| match item {
            Item::Check { label, checked: true, .. } => Some(label.as_str()),
            _ => None,
        })
        .collect();
    assert_eq!(checked, vec!["line", "send-fskid", "auto-history", "format1", "日本語"]);
    assert!(flat.iter().any(|item| matches!(item, Item::Pending(label) if label == "no-output")));
}

#[test]
fn a_relabelled_model_keeps_its_structure() {
    let english = model_from_labels(&labels("en-"), &state());
    let japanese = model_from_labels(&labels("ja-"), &state());
    assert!(structure_matches(&english, &japanese));
    let mut fewer = state();
    fewer.input_devices.pop();
    assert!(!structure_matches(&english, &model_from_labels(&labels("en-"), &fewer)));
    let mut none = state();
    none.input_devices.clear();
    assert!(!structure_matches(&english, &model_from_labels(&labels("en-"), &none)));
}

#[test]
fn device_lists_mark_the_selected_device() {
    let names = vec!["a".to_owned(), "b".to_owned()];
    let items = device_items(&names, Some("b"), "none".to_owned(), true);
    assert!(matches!(&items[0], Item::Check { label, checked: false, action: Action::SelectOutputDevice(n) } if label == "a" && n == "a"));
    assert!(matches!(&items[1], Item::Check { label, checked: true, action: Action::SelectOutputDevice(n) } if label == "b" && n == "b"));
    let items = device_items(&Vec::new(), None, "none".to_owned(), false);
    assert!(matches!(items.as_slice(), [Item::Pending(label)] if label == "none"));
}

#[test]
fn the_language_and_history_lists_mark_what_is_in_use() {
    let items = locale_items(Locale::En);
    assert!(matches!(&items[0], Item::Check { label, checked: true, action: Action::SelectLocale(Locale::En) } if label == "English"));
    assert!(matches!(&items[1], Item::Check { label, checked: false, action: Action::SelectLocale(Locale::Ja) } if label == "日本語"));
    let formats = vec!["W".to_owned(), "P".to_owned(), "J".to_owned()];
    let items = history_items(false, "keep".to_owned(), &formats, HistoryFormat::Jpeg);
    assert_eq!(items.len(), 5);
    assert!(matches!(&items[0], Item::Check { checked: false, action: Action::ToggleAutoHistory, .. }));
    assert!(matches!(&items[1], Item::Separator));
    assert!(matches!(&items[4], Item::Check { label, checked: true, action: Action::SelectHistoryFormat(HistoryFormat::Jpeg) } if label == "J"));
    let folders: Vec<String> = (0..6).map(|k| k.to_string()).collect();
    let items = folder_items(&folders, "quit".to_owned());
    assert_eq!(items.len(), 8);
    assert!(matches!(&items[3], Item::Command { label, action: Action::Reveal(Folder::Templates) } if label == "3"));
}

#[test]
fn the_in_window_host_has_nothing_to_keep_in_step() {
    let mut host = MenuHost;
    host.sync(&model_from_labels(&labels(""), &state()));
    assert!(host.poll().is_empty());
    host.prepare_for_close();
}

#[test]
fn a_missing_manual_is_reported() {
    let i18n = I18n::new(Locale::En, "error-manual-missing = The manual is not installed.\n".to_owned());
    assert!(matches!(manual_opening(None, &i18n), ManualOpening::Missing(text) if text == "The manual is not installed."));
    assert!(matches!(manual_opening(Some("/opt/help/index.html".to_owned()), &i18n),
        ManualOpening::Open(page) if page == "/opt/help/index.html"));
}

#[test]
fn only_quit_closes_the_application() {
    assert!(asks_to_close(&Action::Quit));
    assert!(!asks_to_close(&Action::OpenManual));
    assert!(!asks_to_close(&Action::Reveal(Folder::Config)));
    assert!(!asks_to_close(&Action::SelectDevice("mic".to_owned())));
}
