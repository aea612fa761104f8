use rssstv::app::DspFlags;
use rssstv::config::{settings_from, store_plan, EditValue, PortSettings, Settings, StoredSettings, DEFAULT_ADDRESS};
use rssstv::history::HistoryFormat;
use rssstv::i18n::Locale;
use rssstv::settings_file::{empty_config, parse_config, read_settings, store_settings, ConfigDocument};
use toml_edit::{value, DocumentMut};

fn port(address: &str) -> PortSettings {
    PortSettings { address: address.to_owned() }
}

/// What the settings read from `document`, taking a name with a space in it
/// as one no template could hold.
fn read(document: &DocumentMut) -> StoredSettings {
    let mut stored = read_settings(document);
    for variable in stored.variables.iter_mut() {
        variable.usable = !variable.name.contains(' ');
    }
    stored
}

/// The numbers kept beside the settings, at the keys `store_settings` takes
/// them from.
fn numbers() -> DocumentMut {
    let mut numbers = DocumentMut::new();
    numbers["ui-scale"] = value(1.5);
    numbers["volume"] = value(0.5);
    numbers["poll-interval"] = value(2.5);
    numbers["lead-in"] = value(0.3);
    numbers["tail"] = value(0.1);
    numbers
}

fn apply(document: &mut DocumentMut, settings: &Settings, rx_mode: &str, tx_mode: &str) {
    store_settings(document, settings, rx_mode, tx_mode, &numbers());
}

fn defaults() -> Settings {
    settings_from(&read(&empty_config()))
}

fn populated() -> Settings {
    Settings {
        locale: Locale::Ja,
        input_device: Some("Line In (Interface)".to_owned()),
        output_device: Some("Speakers (Interface)".to_owned()),
        station_callsign: "JA1ABC".to_owned(),
        station_qth: "Chiyoda, Tokyo".to_owned(),
        station_grid: "PM95uq".to_owned(),
        qso_number: "042".to_owned(),
        custom_variables: vec![("club".to_owned(), "JARL".to_owned()), ("rig".to_owned(), "FT-991A".to_owned())],
        template: Some("field-day.kdl".to_owned()),
        stock: Some("antenna.png".to_owned()),
        rx_mode: Some("Robot 36".to_owned()),
        tx_mode: Some("Martin 1".to_owned()),
        auto_mode: false,
        dsp: DspFlags { afc: false, lms_filter: true, live_slant: false },
        vis_restart: false,
        send_fskid: false,
        contest_mode: true,
        auto_history: false,
        history_format: HistoryFormat::Jpeg,
        rig_enabled: true,
        ports: vec![
            ("amplifier".to_owned(), port("127.0.0.1:4533")),
            ("rig".to_owned(), port("192.168.0.8:4532")),
        ],
    }
}

fn same(a: &Settings, b: &Settings) {
    assert_eq!(a.locale, b.locale);
    assert_eq!(a.input_device, b.input_device);
    assert_eq!(a.output_device, b.output_device);
    assert_eq!(a.station_callsign, b.station_callsign);
    assert_eq!(a.station_qth, b.station_qth);
    assert_eq!(a.station_grid, b.station_grid);
    assert_eq!(a.qso_number, b.qso_number);
    assert_eq!(a.custom_variables, b.custom_variables);
    assert_eq!(a.template, b.template);
    assert_eq!(a.stock, b.stock);
    assert_eq!(a.rx_mode, b.rx_mode);
    assert_eq!(a.tx_mode, b.tx_mode);
    assert_eq!(a.auto_mode, b.auto_mode);
    assert_eq!(a.dsp, b.dsp);
    assert_eq!(a.vis_restart, b.vis_restart);
    assert_eq!(a.send_fskid, b.send_fskid);
    assert_eq!(a.contest_mode, b.contest_mode);
    assert_eq!(a.auto_history, b.auto_history);
    assert_eq!(a.history_format, b.history_format);
    assert_eq!(a.rig_enabled, b.rig_enabled);
    assert_eq!(a.ports, b.ports);
}

#[test]
fn config_a_missing_file_reads_as_the_defaults() {
    let settings = defaults();
    assert_eq!(settings.locale, Locale::En);
    assert_eq!(settings.input_device, None);
    assert_eq!(settings.station_callsign, "");
    assert_eq!(settings.qso_number, "001");
    assert!(settings.custom_variables.is_empty());
    assert_eq!(settings.rx_mode, None);
    assert!(settings.auto_mode);
    assert_eq!(settings.dsp, DspFlags::default());
    assert!(settings.vis_restart);
    assert!(settings.send_fskid);
    assert!(!settings.contest_mode);
    assert!(settings.auto_history);
    assert_eq!(settings.history_format, HistoryFormat::Webp);
    assert!(!settings.rig_enabled);
    assert_eq!(settings.ports, vec![("rig".to_owned(), port(DEFAULT_ADDRESS))]);
}

#[test]
fn config_stored_settings_survive_a_reload() {
    let mut document = DocumentMut::new();
    let settings = populated();
    apply(&mut document, &settings, "Robot 36", "Martin 1");
    let reparsed = parse_config(&document.to_string()).unwrap();
    same(&settings_from(&read(&reparsed)), &settings);
}

#[test]
fn config_saving_keeps_comments_and_unrelated_keys() {
    let mut document: DocumentMut = "# rig settings, edited by hand\nrig-port = \"COM3\"\n".parse().unwrap();
    apply(&mut document, &defaults(), "PD 120", "Scottie 2");
    let stored = document.to_string();
    assert!(stored.contains("# rig settings, edited by hand"));
    assert!(stored.contains("rig-port = \"COM3\""));
    assert!(stored.contains("[receive]"));
}

#[test]
fn config_a_setting_with_no_value_is_removed_rather_than_emptied() {
    let mut document = DocumentMut::new();
    apply(&mut document, &populated(), "Robot 36", "Martin 1");
    apply(&mut document, &defaults(), "PD 120", "Scottie 2");
    let stored = document.to_string();
    assert!(!stored.contains("input-device"));
    assert!(!stored.contains("template"));
    assert!(!stored.contains("[variables]"));
    let mut expected = defaults();
    expected.rx_mode = Some("PD 120".to_owned());
    expected.tx_mode = Some("Scottie 2".to_owned());
    same(&settings_from(&read(&document)), &expected);
}

#[test]
fn config_unrecognized_values_fall_back_to_the_defaults() {
    let document: DocumentMut =
        "language = \"tlh\"\n[receive]\nafc = \"yes\"\nhistory-format = \"gif\"\n[library]\ntemplate = \"   \"\n"
            .parse()
            .unwrap();
    let settings = settings_from(&read(&document));
    assert_eq!(settings.locale, Locale::En);
    assert!(settings.dsp.afc);
    assert_eq!(settings.history_format, HistoryFormat::Webp);
    assert_eq!(settings.template, None);
}

#[test]
fn the_callsign_an_earlier_version_wrote_is_still_read() {
    let document: DocumentMut = "callsign = \" ja1abc \"\n".parse().unwrap();
    assert_eq!(settings_from(&read(&document)).station_callsign, "ja1abc");
    let document: DocumentMut = "callsign = \"OLD\"\n[station]\ncallsign = \"NEW\"\n".parse().unwrap();
    assert_eq!(settings_from(&read(&document)).station_callsign, "NEW");
}

#[test]
fn the_default_port_is_written_out_under_the_name_the_script_reaches_it_by() {
    let mut document = DocumentMut::new();
    apply(&mut document, &defaults(), "PD 120", "Scottie 2");
    let stored = document.to_string();
    assert!(stored.contains("[rig.ports.rig]"), "{stored}");
    assert!(stored.contains(r#"address = "127.0.0.1:4532""#), "{stored}");
}

#[test]
fn every_named_port_is_read_back() {
    let document: DocumentMut = "[rig.ports.rig]\nkind = \"rigctld\"\naddress = \"192.168.0.8:4532\"\n\
[rig.ports.amplifier]\nkind = \"rigctld\"\n"
        .parse()
        .unwrap();
    let ports = settings_from(&read(&document)).ports;
    assert_eq!(
        ports,
        vec![
            ("amplifier".to_owned(), port(DEFAULT_ADDRESS)),
            ("rig".to_owned(), port("192.168.0.8:4532")),
        ]
    );
}

#[test]
fn an_entry_that_is_not_a_section_is_not_a_port() {
    let document: DocumentMut = "[rig.ports]\nrig = 3\n".parse().unwrap();
    assert!(settings_from(&read(&document)).ports.is_empty());
}

#[test]
fn a_ports_key_that_is_not_a_section_leaves_the_default_port() {
    let document: DocumentMut = "[rig]\nports = 3\n".parse().unwrap();
    assert_eq!(settings_from(&read(&document)).ports, vec![("rig".to_owned(), port(DEFAULT_ADDRESS))]);
}

#[test]
fn the_transport_kind_is_taken_out_of_a_port() {
    let mut document: DocumentMut =
        "[rig.ports.rig]\nkind = \"rigctld\"\naddress = \"192.168.0.8:4532\"\n".parse().unwrap();
    let settings = settings_from(&read(&document));
    apply(&mut document, &settings, "PD 120", "Scottie 2");
    let stored = document.to_string();
    assert!(!stored.contains("kind"), "{stored}");
    assert!(stored.contains("192.168.0.8:4532"), "{stored}");
}

#[test]
fn the_keys_of_the_earlier_arrangement_are_taken_out() {
    let mut document: DocumentMut = "[rig]\naddress = \"192.168.0.8:4532\"\n[rig.commands]\ntransmit = \"T 1\"\n\
[rig.bands]\n\"40m\" = '\\set_ant 1 0'\n"
        .parse()
        .unwrap();
    apply(&mut document, &defaults(), "PD 120", "Scottie 2");
    let stored = document.to_string();
    assert!(!stored.contains("[rig.commands]"), "{stored}");
    assert!(!stored.contains("[rig.bands]"), "{stored}");
    assert!(!stored.contains("192.168.0.8"), "{stored}");
    assert!(stored.contains("[rig.ports.rig]"), "{stored}");
}

#[test]
fn config_a_conflicting_table_name_is_replaced() {
    let mut document: DocumentMut = "audio = 3\nstation = \"x\"\nvariables = 1\n".parse().unwrap();
    let settings = populated();
    apply(&mut document, &settings, "Robot 36", "Martin 1");
    same(&settings_from(&read(&document)), &settings);
}

#[test]
fn unusable_variable_names_are_kept_out_and_the_last_entry_wins() {
    let document: DocumentMut = "[variables]\nclub = \"JARL\"\n\"2m rig\" = \"FT-991A\"\nnumber = 3\n".parse().unwrap();
    assert_eq!(settings_from(&read(&document)).custom_variables, vec![("club".to_owned(), "JARL".to_owned())]);
}

#[test]
fn the_plan_writes_the_numbers_where_the_file_keeps_them() {
    let edits = store_plan(&defaults(), "PD 120", "Scottie 2");
    let numbers: Vec<(Vec<String>, String)> = edits
        .iter()
        .filter(|edit| matches!(edit.value, EditValue::Number(_)))
        .map(|edit| (edit.table.clone(), edit.key.clone()))
        .collect();
    assert_eq!(
        numbers,
        vec![
            (vec![], "ui-scale".to_owned()),
            (vec!["transmit".to_owned()], "volume".to_owned()),
            (vec!["rig".to_owned()], "poll-interval".to_owned()),
            (vec!["rig".to_owned()], "lead-in".to_owned()),
            (vec!["rig".to_owned()], "tail".to_owned()),
        ]
    );
}

#[test]
fn a_malformed_file_is_refused_with_the_parsers_message() {
    let refused = parse_config("language = ").unwrap_err();
    assert!(!refused.is_empty());
    assert!(parse_config("language = \"ja\"\n").is_ok());
}

#[test]
fn the_numbers_are_written_where_the_file_keeps_them() {
    let mut document = empty_config();
    apply(&mut document, &defaults(), "PD 120", "Scottie 2");
    assert_eq!(document["ui-scale"].as_float(), Some(1.5));
    assert_eq!(document["transmit"]["volume"].as_float(), Some(0.5));
    assert_eq!(document["rig"]["poll-interval"].as_float(), Some(2.5));
    assert_eq!(document["rig"]["lead-in"].as_float(), Some(0.3));
    assert_eq!(document["rig"]["tail"].as_float(), Some(0.1));
}

#[test]
fn a_value_standing_where_a_port_section_belongs_is_replaced() {
    let mut document: DocumentMut = "rig = 5\n".parse().unwrap();
    let settings = populated();
    apply(&mut document, &settings, "Robot 36", "Martin 1");
    same(&settings_from(&read(&document)), &settings);
    let mut document: DocumentMut = "[rig]\nports = [1]\n[rig.extra]\nkept = true\n".parse().unwrap();
    apply(&mut document, &settings, "Robot 36", "Martin 1");
    let written = document.to_string();
    assert!(written.contains("[rig.ports.rig]"), "{written}");
    assert!(written.contains("kept = true"), "{written}");
    same(&settings_from(&read(&document)), &settings);
}

#[test]
fn ports_that_are_not_listed_are_taken_out() {
    let mut document: DocumentMut =
        "[rig.ports.old]\naddress = \"10.0.0.1:4532\"\n[rig.ports.rig]\naddress = \"1.2.3.4:4532\"\n".parse().unwrap();
    let settings = populated();
    apply(&mut document, &settings, "Robot 36", "Martin 1");
    let written = document.to_string();
    assert!(!written.contains("old"), "{written}");
    assert_eq!(settings_from(&read(&document)).ports, settings.ports);
}

#[test]
fn config_a_malformed_file_reports_the_error_and_is_not_overwritten() {
    let mut config = ConfigDocument::from_read(Some(Ok("language = \n".to_owned())));
    assert!(config.error.is_some());
    assert!(config.read_only);
    same(&settings_from(&read(&config.document)), &defaults());
    assert!(!config.store(&populated(), "Robot 36", "Martin 1", &numbers()));
    assert_eq!(config.document.to_string(), "");
}

#[test]
fn a_file_that_could_not_be_read_is_left_alone() {
    let mut config = ConfigDocument::from_read(Some(Err("permission denied".to_owned())));
    assert_eq!(config.error.as_deref(), Some("permission denied"));
    assert!(!config.store(&populated(), "Robot 36", "Martin 1", &numbers()));
}

#[test]
fn a_missing_or_readable_file_is_written_back() {
    let mut missing = ConfigDocument::from_read(None);
    assert!(missing.error.is_none() && !missing.read_only);
    assert!(missing.store(&populated(), "Robot 36", "Martin 1", &numbers()));
    same(&settings_from(&read(&missing.document)), &populated());
    let mut read = ConfigDocument::from_read(Some(Ok("# kept\nlanguage = \"en\"\n".to_owned())));
    assert!(read.error.is_none());
    assert!(read.store(&populated(), "Robot 36", "Martin 1", &numbers()));
    assert!(read.document.to_string().contains("# kept"));
}
