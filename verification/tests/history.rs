use rssstv::history::{
    encode_history, escape_xml, history_file_name, history_path, jpeg_with_xmp, rgba_to_rgb, xmp_packet,
    HistoryFormat,
};
use rssstv::receive::{Frame, HistoryCandidate};
use image::codecs::{jpeg::JpegDecoder, png::PngDecoder, webp::WebPDecoder};
use image::ImageDecoder;

fn candidate() -> HistoryCandidate {
    HistoryCandidate {
        mode_name: "Robot 36".to_owned(),
        mode_tag: "Robot36".to_owned(),
        frame: Frame { width: 2, height: 1, rgba: vec![10, 20, 30, 255, 40, 50, 60, 255] },
        received_at: "2026-08-04T12:34:56+09:00".to_owned(),
        fsk_ids: vec!["JA1&ABC".to_owned(), "JA2XYZ".to_owned()],
    }
}

fn contains(haystack: &[u8], needle: &str) -> bool {
    haystack.windows(needle.len()).any(|window| window == needle.as_bytes())
}

/// The packet each format's decoder finds in `bytes`.
fn read_xmp(bytes: &[u8], format: HistoryFormat) -> Vec<u8> {
    let reader = std::io::Cursor::new(bytes);
    match format {
        HistoryFormat::Webp => WebPDecoder::new(reader).unwrap().xmp_metadata().unwrap().unwrap(),
        HistoryFormat::Png => PngDecoder::new(reader).unwrap().xmp_metadata().unwrap().unwrap(),
        HistoryFormat::Jpeg => JpegDecoder::new(reader).unwrap().xmp_metadata().unwrap().unwrap(),
    }
}

#[test]
fn saves_each_format_with_xmp() {
    for format in HistoryFormat::all() {
        let bytes = encode_history(&candidate(), format).unwrap();
        assert_eq!(image::load_from_memory(&bytes).unwrap().width(), 2, "{format:?}");
        if format == HistoryFormat::Webp {
            assert!(contains(&bytes, "VP8L"));
        }
        let xmp = String::from_utf8(read_xmp(&bytes, format)).unwrap();
        assert!(xmp.contains("xmp:CreateDate=\"2026-08-04T12:34:56+09:00\""), "{format:?}");
        assert!(xmp.contains("sstv:Mode=\"Robot 36\""), "{format:?}");
        assert!(xmp.contains("<rdf:li>JA1&amp;ABC</rdf:li>"), "{format:?}");
        assert!(xmp.contains("<rdf:li>JA2XYZ</rdf:li>"), "{format:?}");
    }
}

#[test]
fn a_jpeg_carries_its_packet_right_after_the_start_marker() {
    let bytes = encode_history(&candidate(), HistoryFormat::Jpeg).unwrap();
    assert_eq!(&bytes[..4], &[0xff, 0xd8, 0xff, 0xe1]);
    assert!(contains(&bytes[6..40], "http://ns.adobe.com/xap/1.0/"));
}

#[test]
fn the_same_reception_second_uses_the_same_path() {
    let c = candidate();
    let first = history_path("/r", &c.received_at, &c.mode_tag, HistoryFormat::Webp);
    let second = history_path("/r", &c.received_at, &c.mode_tag, HistoryFormat::Webp);
    assert_eq!(first, second);
    assert_eq!(first, "/r/20260804-123456-Robot36.webp");
}

#[test]
fn a_reception_is_named_by_its_time_and_mode() {
    assert_eq!(history_file_name("2026-08-04T12:34:56+09:00", "Pd120", HistoryFormat::Png), "20260804-123456-Pd120.png");
    assert_eq!(history_file_name("2026-08-04T12:34:56+09:00", "Pd120", HistoryFormat::Jpeg), "20260804-123456-Pd120.jpg");
    assert_eq!(history_file_name("soon", "Pd120", HistoryFormat::Webp), "unknown-time-Pd120.webp");
}

#[test]
fn configuration_names_are_tolerant() {
    assert_eq!(HistoryFormat::from_config("webp"), Some(HistoryFormat::Webp));
    assert_eq!(HistoryFormat::from_config("PNG"), Some(HistoryFormat::Png));
    assert_eq!(HistoryFormat::from_config("jpg"), Some(HistoryFormat::Jpeg));
    assert_eq!(HistoryFormat::from_config("jpeg"), Some(HistoryFormat::Jpeg));
    assert_eq!(HistoryFormat::from_config("gif"), None);
}

#[test]
fn formats_are_written_and_read_by_their_configuration_names() {
    for format in HistoryFormat::all() {
        assert_eq!(HistoryFormat::from_config(format.config_name()), Some(format));
    }
    assert_eq!(HistoryFormat::default_format(), HistoryFormat::Webp);
    assert_eq!(HistoryFormat::Jpeg.config_name(), "jpeg");
    assert_eq!(HistoryFormat::Jpeg.extension(), "jpg");
    assert_eq!(HistoryFormat::Png.label_key(), "history-format-png");
}

#[test]
fn markup_is_escaped() {
    assert_eq!(escape_xml("a&b<c>\"d'"), "a&amp;b&lt;c&gt;&quot;d&apos;");
    assert_eq!(escape_xml("plain"), "plain");
}

#[test]
fn the_packet_lists_every_identifier() {
    let packet = xmp_packet("t", "m", &vec!["A".to_owned(), "B<".to_owned()]);
    assert!(packet.starts_with("<?xpacket begin=\"\u{feff}\""));
    assert!(packet.contains("xmp:CreateDate=\"t\" sstv:Mode=\"m\">"));
    assert!(packet.contains("<rdf:Bag><rdf:li>A</rdf:li><rdf:li>B&lt;</rdf:li></rdf:Bag>"));
    assert!(packet.ends_with("<?xpacket end=\"w\"?>"));
}

#[test]
fn an_oversized_packet_is_refused() {
    let jpeg = vec![0xff, 0xd8, 0xff, 0xd9];
    let huge = vec![b'x'; 70_000];
    assert_eq!(
        jpeg_with_xmp(&jpeg, &huge).unwrap_err(),
        "XMP packet is too large for a JPEG APP1 segment"
    );
    let spliced = jpeg_with_xmp(&jpeg, b"<x/>").unwrap();
    assert_eq!(&spliced[..4], &[0xff, 0xd8, 0xff, 0xe1]);
    assert_eq!(&spliced[spliced.len() - 2..], &[0xff, 0xd9]);
}

#[test]
fn alpha_is_dropped_for_a_jpeg() {
    assert_eq!(rgba_to_rgb(&[1, 2, 3, 4, 5, 6, 7, 8]), vec![1, 2, 3, 5, 6, 7]);
}
