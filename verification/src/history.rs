//! Received pictures kept on disk: their formats, their names, and the XMP
//! packet that says what they were.

use vstd::prelude::*;
use crate::text::{chars_of, eq_ignore_ascii_case, eq_ignoring_ascii_case, push_char};
use crate::paths::{join, path_join};

verus! {

/// The format a received picture is kept in.
#[derive(Clone, Copy, Debug, PartialEq, Eq, Structural)]
pub enum HistoryFormat {
    Webp,
    Png,
    Jpeg,
}

impl HistoryFormat {
    /// Every format, in the order the menu offers them.
    pub fn all() -> (formats: [HistoryFormat; 3])
        ensures
            formats@ == seq![HistoryFormat::Webp, HistoryFormat::Png, HistoryFormat::Jpeg],
    {
        [HistoryFormat::Webp, HistoryFormat::Png, HistoryFormat::Jpeg]
    }

    /// The format a first run keeps pictures in.
    pub fn default_format() -> (format: HistoryFormat)
        ensures
            format == HistoryFormat::Webp,
    {
        HistoryFormat::Webp
    }

    pub open spec fn spec_config_name(self) -> Seq<char> {
        match self {
            HistoryFormat::Webp => "webp"@,
            HistoryFormat::Png => "png"@,
            HistoryFormat::Jpeg => "jpeg"@,
        }
    }

    /// The name the configuration file stores the format under.
    pub fn config_name(self) -> (name: &'static str)
        ensures
            name@ == self.spec_config_name(),
    {
        match self {
            HistoryFormat::Webp => "webp",
            HistoryFormat::Png => "png",
            HistoryFormat::Jpeg => "jpeg",
        }
    }

    pub open spec fn spec_from_config(name: Seq<char>) -> Option<HistoryFormat> {
        if eq_ignoring_ascii_case("jpg"@, name) {
            Some(HistoryFormat::Jpeg)
        } else if eq_ignoring_ascii_case(HistoryFormat::Webp.spec_config_name(), name) {
            Some(HistoryFormat::Webp)
        } else if eq_ignoring_ascii_case(HistoryFormat::Png.spec_config_name(), name) {
            Some(HistoryFormat::Png)
        } else if eq_ignoring_ascii_case(HistoryFormat::Jpeg.spec_config_name(), name) {
            Some(HistoryFormat::Jpeg)
        } else {
            None
        }
    }

    /// Resolves a stored format name, tolerating a difference in case and the
    /// common `jpg` spelling.
    pub fn from_config(name: &str) -> (format: Option<HistoryFormat>)
        ensures
            format == HistoryFormat::spec_from_config(name@),
    {
        if eq_ignore_ascii_case("jpg", name) {
            Some(HistoryFormat::Jpeg)
        } else if eq_ignore_ascii_case(HistoryFormat::Webp.config_name(), name) {
            Some(HistoryFormat::Webp)
        } else if eq_ignore_ascii_case(HistoryFormat::Png.config_name(), name) {
            Some(HistoryFormat::Png)
        } else if eq_ignore_ascii_case(HistoryFormat::Jpeg.config_name(), name) {
            Some(HistoryFormat::Jpeg)
        } else {
            None
        }
    }

    pub open spec fn spec_label_key(self) -> Seq<char> {
        match self {
            HistoryFormat::Webp => "history-format-webp"@,
            HistoryFormat::Png => "history-format-png"@,
            HistoryFormat::Jpeg => "history-format-jpeg"@,
        }
    }

    /// The message key the format's menu entry is labelled by.
    pub fn label_key(self) -> (key: &'static str)
        ensures
            key@ == self.spec_label_key(),
    {
        match self {
            HistoryFormat::Webp => "history-format-webp",
            HistoryFormat::Png => "history-format-png",
            HistoryFormat::Jpeg => "history-format-jpeg",
        }
    }

    pub open spec fn spec_extension(self) -> Seq<char> {
        match self {
            HistoryFormat::Webp => "webp"@,
            HistoryFormat::Png => "png"@,
            HistoryFormat::Jpeg => "jpg"@,
        }
    }

    /// The extension a picture kept in this format is named with.
    pub fn extension(self) -> (extension: &'static str)
        ensures
            extension@ == self.spec_extension(),
    {
        match self {
            HistoryFormat::Webp => "webp",
            HistoryFormat::Png => "png",
            HistoryFormat::Jpeg => "jpg",
        }
    }
}

/// A stored format name reads back as the format it was written from.
pub proof fn lemma_config_name_round_trips(format: HistoryFormat)
    ensures
        HistoryFormat::spec_from_config(format.spec_config_name()) == Some(format),
{
    reveal_strlit("jpg");
    reveal_strlit("webp");
    reveal_strlit("png");
    reveal_strlit("jpeg");
    assert(crate::text::ascii_lowercase("jpg"@).len() == 3);
    assert(crate::text::ascii_lowercase("webp"@)[0] == 'w');
    assert(crate::text::ascii_lowercase("png"@)[0] == 'p');
    assert(crate::text::ascii_lowercase("jpeg"@).len() == 4);
    assert(crate::text::ascii_lowercase("jpg"@)[0] == 'j');
}

} // verus!

verus! {

/// How one character is written inside XML text or an attribute value.
pub open spec fn xml_escape_char(c: char) -> Seq<char> {
    if c == '&' {
        "&amp;"@
    } else if c == '<' {
        "&lt;"@
    } else if c == '>' {
        "&gt;"@
    } else if c == '"' {
        "&quot;"@
    } else if c == '\'' {
        "&apos;"@
    } else {
        seq![c]
    }
}

/// `s` with every character XML gives a meaning to written as its entity.
pub open spec fn xml_escaped(s: Seq<char>) -> Seq<char>
    decreases s.len(),
{
    if s.len() == 0 {
        Seq::empty()
    } else {
        xml_escaped(s.drop_last()) + xml_escape_char(s.last())
    }
}

/// Writes `value` so that it can stand inside XML text or a quoted attribute.
pub fn escape_xml(value: &str) -> (escaped: String)
    ensures
        escaped@ == xml_escaped(value@),
{
    let chars = chars_of(value);
    let mut escaped = String::new();
    let mut i: usize = 0;
    while i < chars.len()
        invariant
            i <= chars.len(),
            chars@ == value@,
            escaped@ == xml_escaped(chars@.take(i as int)),
        decreases chars.len() - i,
    {
        let c = chars[i];
        assert(chars@.take(i + 1).drop_last() == chars@.take(i as int));
        if c == '&' {
            escaped.append("&amp;");
        } else if c == '<' {
            escaped.append("&lt;");
        } else if c == '>' {
            escaped.append("&gt;");
        } else if c == '"' {
            escaped.append("&quot;");
        } else if c == '\'' {
            escaped.append("&apos;");
        } else {
            push_char(&mut escaped, c);
        }
        i += 1;
    }
    assert(chars@.take(chars.len() as int) == chars@);
    escaped
}

/// Nothing escaped holds a bare `<`, `>` or quote, so it cannot end the text
/// or the attribute it is written into.
pub proof fn lemma_escaped_text_has_no_markup(s: Seq<char>)
    ensures
        forall|i: int|
            0 <= i < xml_escaped(s).len() ==> {
                let c = #[trigger] xml_escaped(s)[i];
                c != '<' && c != '>' && c != '"' && c != '\''
            },
    decreases s.len(),
{
    reveal_strlit("&amp;");
    reveal_strlit("&lt;");
    reveal_strlit("&gt;");
    reveal_strlit("&quot;");
    reveal_strlit("&apos;");
    if s.len() > 0 {
        lemma_escaped_text_has_no_markup(s.drop_last());
        let prefix = xml_escaped(s.drop_last());
        let tail = xml_escape_char(s.last());
        assert forall|i: int| 0 <= i < xml_escaped(s).len() implies {
            let c = #[trigger] xml_escaped(s)[i];
            c != '<' && c != '>' && c != '"' && c != '\''
        } by {
            if i >= prefix.len() {
                assert(xml_escaped(s)[i] == tail[i - prefix.len()]);
            } else {
                assert(xml_escaped(s)[i] == prefix[i]);
            }
        }
    }
}

/// The ASCII digits of `s`, in order.
pub open spec fn ascii_digits(s: Seq<char>) -> Seq<char>
    decreases s.len(),
{
    if s.len() == 0 {
        Seq::empty()
    } else if crate::text::is_ascii_digit(s.last()) {
        ascii_digits(s.drop_last()).push(s.last())
    } else {
        ascii_digits(s.drop_last())
    }
}

/// The date and time a file name gives a reception: its first fourteen digits
/// as `YYYYMMDD-hhmmss`, or `unknown-time` when it has fewer.
pub open spec fn history_timestamp(received_at: Seq<char>) -> Seq<char> {
    let digits = ascii_digits(received_at);
    if digits.len() >= 14 {
        digits.take(8) + seq!['-'] + digits.subrange(8, 14)
    } else {
        "unknown-time"@
    }
}

/// The name a reception is kept under: its timestamp, its mode, and the
/// format's extension.
pub open spec fn history_file_name_of(
    received_at: Seq<char>,
    mode_name: Seq<char>,
    format: HistoryFormat,
) -> Seq<char> {
    history_timestamp(received_at) + seq!['-'] + mode_name + seq!['.'] + format.spec_extension()
}

/// Collects the ASCII digits of `chars`, stopping after `limit` of them.
fn leading_digits(chars: &Vec<char>, limit: usize) -> (digits: Vec<char>)
    ensures
        digits@ == (if ascii_digits(chars@).len() >= limit {
            ascii_digits(chars@).take(limit as int)
        } else {
            ascii_digits(chars@)
        }),
{
    let mut digits: Vec<char> = Vec::new();
    let mut i: usize = 0;
    while i < chars.len() && digits.len() < limit
        invariant
            i <= chars.len(),
            digits@ == ascii_digits(chars@.take(i as int)),
            digits@.len() <= limit,
        decreases chars.len() - i,
    {
        let c = chars[i];
        proof {
            let pre = chars@.take(i as int);
            assert(chars@.take(i + 1).drop_last() == pre);
        }
        if '0' <= c && c <= '9' {
            digits.push(c);
        }
        i += 1;
    }
    proof {
        lemma_filter_prefix(chars@, i as int);
        if i == chars.len() {
            assert(chars@.take(i as int) == chars@);
        }
    }
    digits
}

/// Filtering a longer prefix keeps what filtering the shorter one found, in
/// front.
proof fn lemma_filter_prefix(s: Seq<char>, k: int)
    requires
        0 <= k <= s.len(),
    ensures
        ascii_digits(s.take(k)).len() <= ascii_digits(s).len(),
        ascii_digits(s).take(ascii_digits(s.take(k)).len() as int) == ascii_digits(s.take(k)),
    decreases s.len() - k,
{
    if k < s.len() {
        lemma_filter_prefix(s, k + 1);
        let pre = s.take(k);
        assert(s.take(k + 1).drop_last() == pre);
        let shorter = ascii_digits(pre);
        let longer = ascii_digits(s.take(k + 1));
        assert(longer.take(shorter.len() as int) == shorter);
        assert(ascii_digits(s).take(shorter.len() as int) == longer.take(shorter.len() as int));
    } else {
        assert(s.take(k) == s);
    }
}

/// The name a reception is kept under.
pub fn history_file_name(received_at: &str, mode_name: &str, format: HistoryFormat) -> (name:
    String)
    ensures
        name@ == history_file_name_of(received_at@, mode_name@, format),
{
    let chars = chars_of(received_at);
    let digits = leading_digits(&chars, 14);
    let mut name = if digits.len() == 14 {
        let mut stamp = crate::text::string_of_range(&digits, 0, 8);
        push_char(&mut stamp, '-');
        let rest = crate::text::string_of_range(&digits, 8, 14);
        stamp.append(rest.as_str());
        proof {
            assert(digits@.take(8) == ascii_digits(received_at@).take(8));
            assert(digits@.subrange(8, 14) == ascii_digits(received_at@).subrange(8, 14));
        }
        stamp
    } else {
        "unknown-time".to_owned()
    };
    push_char(&mut name, '-');
    name.append(mode_name);
    push_char(&mut name, '.');
    name.append(format.extension());
    name
}

/// Where a reception is kept inside `directory`.
pub fn history_path(directory: &str, received_at: &str, mode_name: &str, format: HistoryFormat)
    -> (path: String)
    ensures
        path@ == path_join(directory@, history_file_name_of(received_at@, mode_name@, format)),
{
    let name = history_file_name(received_at, mode_name, format);
    join(directory, name.as_str())
}

} // verus!

verus! {

/// One station identifier as the XMP bag lists it.
pub open spec fn xmp_list_item(id: Seq<char>) -> Seq<char> {
    "<rdf:li>"@ + xml_escaped(id) + "</rdf:li>"@
}

/// Every identifier as the XMP bag lists them, in order.
pub open spec fn xmp_list(ids: Seq<Seq<char>>) -> Seq<char>
    decreases ids.len(),
{
    if ids.len() == 0 {
        Seq::empty()
    } else {
        xmp_list(ids.drop_last()) + xmp_list_item(ids.last())
    }
}

pub open spec fn xmp_head() -> Seq<char> {
    "<?xpacket begin=\"\u{feff}\" id=\"W5M0MpCehiHzreSzNTczkc9d\"?>\n<x:xmpmeta xmlns:x=\"adobe:ns:meta/\">\n<rdf:RDF xmlns:rdf=\"http://www.w3.org/1999/02/22-rdf-syntax-ns#\">\n<rdf:Description rdf:about=\"\" xmlns:xmp=\"http://ns.adobe.com/xap/1.0/\" xmlns:sstv=\"https://github.com/kb10uy/rssstv/ns/1.0/\" xmp:CreatorTool=\"RSSSTV\" xmp:CreateDate=\""@
}

pub open spec fn xmp_mode_attribute() -> Seq<char> {
    "\" sstv:Mode=\""@
}

pub open spec fn xmp_bag_open() -> Seq<char> {
    "\">\n<sstv:FskId><rdf:Bag>"@
}

pub open spec fn xmp_tail() -> Seq<char> {
    "</rdf:Bag></sstv:FskId>\n</rdf:Description>\n</rdf:RDF>\n</x:xmpmeta>\n<?xpacket end=\"w\"?>"@
}

/// The XMP packet a kept reception carries: when it was received, the mode
/// it was sent in, and the station identifiers decoded from it.
pub open spec fn xmp_packet_of(received_at: Seq<char>, mode_name: Seq<char>, ids: Seq<Seq<char>>)
    -> Seq<char> {
    xmp_head() + xml_escaped(received_at) + xmp_mode_attribute() + xml_escaped(mode_name)
        + xmp_bag_open() + xmp_list(ids) + xmp_tail()
}

/// The texts of `strings`, in order.
pub open spec fn string_views(strings: Seq<String>) -> Seq<Seq<char>> {
    strings.map_values(|s: String| s@)
}

/// Writes the XMP packet for a reception.
pub fn xmp_packet(received_at: &str, mode_name: &str, fsk_ids: &Vec<String>) -> (packet: String)
    ensures
        packet@ == xmp_packet_of(received_at@, mode_name@, string_views(fsk_ids@)),
{
    let mut list = String::new();
    let mut i: usize = 0;
    while i < fsk_ids.len()
        invariant
            i <= fsk_ids.len(),
            list@ == xmp_list(string_views(fsk_ids@.take(i as int))),
        decreases fsk_ids.len() - i,
    {
        assert(string_views(fsk_ids@.take(i + 1)).drop_last() == string_views(
            fsk_ids@.take(i as int),
        ));
        list.append("<rdf:li>");
        let escaped = escape_xml(fsk_ids[i].as_str());
        list.append(escaped.as_str());
        list.append("</rdf:li>");
        i += 1;
    }
    assert(fsk_ids@.take(fsk_ids.len() as int) == fsk_ids@);
    let mut packet = String::new();
    packet.append(
        "<?xpacket begin=\"\u{feff}\" id=\"W5M0MpCehiHzreSzNTczkc9d\"?>\n<x:xmpmeta xmlns:x=\"adobe:ns:meta/\">\n<rdf:RDF xmlns:rdf=\"http://www.w3.org/1999/02/22-rdf-syntax-ns#\">\n<rdf:Description rdf:about=\"\" xmlns:xmp=\"http://ns.adobe.com/xap/1.0/\" xmlns:sstv=\"https://github.com/kb10uy/rssstv/ns/1.0/\" xmp:CreatorTool=\"RSSSTV\" xmp:CreateDate=\"",
    );
    packet.append(escape_xml(received_at).as_str());
    packet.append("\" sstv:Mode=\"");
    packet.append(escape_xml(mode_name).as_str());
    packet.append("\">\n<sstv:FskId><rdf:Bag>");
    packet.append(list.as_str());
    packet.append(
        "</rdf:Bag></sstv:FskId>\n</rdf:Description>\n</rdf:RDF>\n</x:xmpmeta>\n<?xpacket end=\"w\"?>",
    );
    packet
}

/// The identifier an XMP packet is introduced by inside a JPEG APP1 segment.
pub open spec fn xmp_jpeg_header() -> Seq<u8> {
    seq![
        0x68u8, 0x74, 0x74, 0x70, 0x3a, 0x2f, 0x2f, 0x6e, 0x73, 0x2e, 0x61, 0x64, 0x6f, 0x62, 0x65,
        0x2e, 0x63, 0x6f, 0x6d, 0x2f, 0x78, 0x61, 0x70, 0x2f, 0x31, 0x2e, 0x30, 0x2f, 0x00,
    ]
}

fn xmp_jpeg_header_bytes() -> (header: Vec<u8>)
    ensures
        header@ == xmp_jpeg_header(),
{
    let header: Vec<u8> = vec![
        0x68u8, 0x74, 0x74, 0x70, 0x3a, 0x2f, 0x2f, 0x6e, 0x73, 0x2e, 0x61, 0x64, 0x6f, 0x62, 0x65,
        0x2e, 0x63, 0x6f, 0x6d, 0x2f, 0x78, 0x61, 0x70, 0x2f, 0x31, 0x2e, 0x30, 0x2f, 0x00,
    ];
    assert(header@ == xmp_jpeg_header());
    header
}

/// A JPEG stream with an XMP APP1 segment put right after its start marker.
pub open spec fn jpeg_with_xmp_of(jpeg: Seq<u8>, xmp: Seq<u8>) -> Seq<u8> {
    let length = xmp_jpeg_header().len() + xmp.len() + 2;
    jpeg.take(2) + seq![0xffu8, 0xe1u8, (length / 256) as u8, (length % 256) as u8]
        + xmp_jpeg_header() + xmp + jpeg.skip(2)
}

/// Puts `xmp` into `jpeg` as an APP1 segment, right after the start marker.
///
/// A segment's length is a 16-bit count that includes itself, so a packet too
/// large for one is refused.
pub fn jpeg_with_xmp(jpeg: &Vec<u8>, xmp: &[u8]) -> (stream: Result<Vec<u8>, String>)
    requires
        jpeg@.len() >= 2,
    ensures
        stream is Err <==> xmp_jpeg_header().len() + xmp@.len() + 2 > u16::MAX,
        stream matches Ok(bytes) ==> bytes@ == jpeg_with_xmp_of(jpeg@, xmp@),
        stream matches Err(message) ==> message@ == "XMP packet is too large for a JPEG APP1 segment"@,
{
    let header = xmp_jpeg_header_bytes();
    if xmp.len() > 65535 - 2 - header.len() {
        return Err("XMP packet is too large for a JPEG APP1 segment".to_owned());
    }
    let length = header.len() + xmp.len() + 2;
    let mut stream: Vec<u8> = Vec::new();
    stream.push(jpeg[0]);
    stream.push(jpeg[1]);
    stream.push(0xff);
    stream.push(0xe1);
    stream.push((length / 256) as u8);
    stream.push((length % 256) as u8);
    let ghost start = stream@;
    let mut i: usize = 0;
    while i < header.len()
        invariant
            i <= header.len(),
            stream@ == start + header@.take(i as int),
        decreases header.len() - i,
    {
        stream.push(header[i]);
        assert(header@.take(i + 1) == header@.take(i as int).push(header@[i as int]));
        i += 1;
    }
    assert(header@.take(header.len() as int) == header@);
    let ghost with_header = stream@;
    let mut j: usize = 0;
    while j < xmp.len()
        invariant
            j <= xmp.len(),
            stream@ == with_header + xmp@.take(j as int),
        decreases xmp.len() - j,
    {
        stream.push(xmp[j]);
        assert(xmp@.take(j + 1) == xmp@.take(j as int).push(xmp@[j as int]));
        j += 1;
    }
    assert(xmp@.take(xmp.len() as int) == xmp@);
    let ghost with_xmp = stream@;
    let mut k: usize = 2;
    while k < jpeg.len()
        invariant
            2 <= k <= jpeg.len(),
            stream@ == with_xmp + jpeg@.subrange(2, k as int),
        decreases jpeg.len() - k,
    {
        stream.push(jpeg[k]);
        assert(jpeg@.subrange(2, k + 1) == jpeg@.subrange(2, k as int).push(jpeg@[k as int]));
        k += 1;
    }
    assert(jpeg@.take(2) == seq![jpeg@[0], jpeg@[1]]);
    assert(jpeg@.skip(2) == jpeg@.subrange(2, jpeg.len() as int));
    assert(stream@ == jpeg_with_xmp_of(jpeg@, xmp@));
    Ok(stream)
}

/// The colour bytes of RGBA pixels, with every alpha byte left out.
pub open spec fn rgb_of_rgba(rgba: Seq<u8>) -> Seq<u8> {
    Seq::new((rgba.len() / 4 * 3) as nat, |i: int| rgba[(i / 3) * 4 + i % 3])
}

/// Drops the alpha byte of every RGBA pixel.
///
/// Bytes past the last whole pixel are left out as well.
pub fn rgba_to_rgb(rgba: &[u8]) -> (rgb: Vec<u8>)
    ensures
        rgb@ == rgb_of_rgba(rgba@),
{
    let pixels = rgba.len() / 4;
    let mut rgb: Vec<u8> = Vec::new();
    let mut p: usize = 0;
    while p < pixels
        invariant
            p <= pixels == rgba.len() / 4,
            rgb@.len() == p * 3,
            forall|i: int| 0 <= i < p * 3 ==> rgb@[i] == rgba@[(i / 3) * 4 + i % 3],
        decreases pixels - p,
    {
        rgb.push(rgba[p * 4]);
        rgb.push(rgba[p * 4 + 1]);
        rgb.push(rgba[p * 4 + 2]);
        assert forall|i: int| 0 <= i < (p + 1) * 3 implies rgb@[i] == rgba@[(i / 3) * 4 + i % 3] by {
            if i >= p * 3 {
                assert(i / 3 == p) by (nonlinear_arith)
                    requires
                        p * 3 <= i < (p + 1) * 3,
                ;
                assert(i % 3 == i - p * 3) by (nonlinear_arith)
                    requires
                        p * 3 <= i < (p + 1) * 3,
                        i / 3 == p,
                ;
            }
        }
        p += 1;
    }
    assert(rgb@ == rgb_of_rgba(rgba@));
    rgb
}

} // verus!

verus! {

/// The bytes, or the error text, an encoder left.
pub open spec fn encoded_view(result: Result<Vec<u8>, String>) -> Result<Seq<u8>, Seq<char>> {
    match result {
        Ok(bytes) => Ok(bytes@),
        Err(message) => Err(message@),
    }
}

/// What the `image` crate's JPEG encoder makes of RGB pixels at a quality.
pub uninterp spec fn jpeg_encoding(rgb: Seq<u8>, width: u32, height: u32, quality: u8) -> Result<
    Seq<u8>,
    Seq<char>,
>;

/// What `image_webp`'s lossless encoder makes of RGBA pixels carrying an XMP
/// packet.
pub uninterp spec fn webp_encoding(rgba: Seq<u8>, width: u32, height: u32, xmp: Seq<u8>) -> Result<
    Seq<u8>,
    Seq<char>,
>;

/// What the `png` crate's encoder makes of 8-bit RGBA pixels carrying an XMP
/// packet in an `XML:com.adobe.xmp` text chunk.
pub uninterp spec fn png_encoding(rgba: Seq<u8>, width: u32, height: u32, xmp: Seq<char>) -> Result<
    Seq<u8>,
    Seq<char>,
>;

/// Encodes RGB pixels as a baseline JPEG through
/// `image::codecs::jpeg::JpegEncoder::new_with_quality` and `write_image`.
///
/// The encoder writes the start-of-image marker before anything else, so a
/// stream it returns begins with `FF D8`. It panics on a buffer whose length
/// is not three bytes a pixel, which the precondition rules out.
#[verifier::external_body]
fn encode_jpeg(rgb: &[u8], width: u32, height: u32, quality: u8) -> (jpeg: Result<Vec<u8>, String>)
    requires
        rgb@.len() == width as int * height as int * 3,
    ensures
        encoded_view(jpeg) == jpeg_encoding(rgb@, width, height, quality),
        jpeg matches Ok(bytes) ==> bytes@.len() >= 2 && bytes@[0] == 0xff && bytes@[1] == 0xd8,
{
    let mut out = Vec::new();
    image::ImageEncoder::write_image(
        image::codecs::jpeg::JpegEncoder::new_with_quality(&mut out, quality),
        rgb,
        width,
        height,
        image::ExtendedColorType::Rgb8,
    ).map_err(|error| error.to_string())?;
    Ok(out)
}

/// Encodes RGBA pixels as a lossless WebP carrying `xmp`, through
/// `image_webp::WebPEncoder::set_xmp_metadata` and `encode`.
///
/// The encoder panics on a buffer whose length is not four bytes a pixel,
/// which the precondition rules out.
#[verifier::external_body]
fn encode_webp(rgba: &[u8], width: u32, height: u32, xmp: &[u8]) -> (webp: Result<Vec<u8>, String>)
    requires
        rgba@.len() == width as int * height as int * 4,
    ensures
        encoded_view(webp) == webp_encoding(rgba@, width, height, xmp@),
{
    let mut out = Vec::new();
    let mut encoder = image_webp::WebPEncoder::new(&mut out);
    encoder.set_xmp_metadata(xmp.to_vec());
    encoder
        .encode(rgba, width, height, image_webp::ColorType::Rgba8)
        .map_err(|error| error.to_string())?;
    Ok(out)
}

/// Encodes 8-bit RGBA pixels as a PNG carrying `xmp` in an
/// `XML:com.adobe.xmp` international text chunk, through `png::Encoder`.
///
/// The writer multiplies a row's length by the height without a check, so
/// the buffer has to be exactly four bytes a pixel, as the precondition asks.
#[verifier::external_body]
fn encode_png(rgba: &[u8], width: u32, height: u32, xmp: &str) -> (png: Result<Vec<u8>, String>)
    requires
        rgba@.len() == width as int * height as int * 4,
    ensures
        encoded_view(png) == png_encoding(rgba@, width, height, xmp@),
{
    let mut out = Vec::new();
    let mut encoder = png::Encoder::new(&mut out, width, height);
    encoder.set_color(png::ColorType::Rgba);
    encoder.set_depth(png::BitDepth::Eight);
    encoder.add_itxt_chunk("XML:com.adobe.xmp".to_owned(), xmp.to_owned()).map_err(|e| e.to_string())?;
    let mut writer = encoder.write_header().map_err(|error| error.to_string())?;
    writer.write_image_data(rgba).map_err(|error| error.to_string())?;
    writer.finish().map_err(|error| error.to_string())?;
    Ok(out)
}

/// The quality kept JPEGs are encoded at.
pub const JPEG_QUALITY: u8 = 90;

/// The bytes a kept reception is written as, in `format`, with its XMP packet.
pub open spec fn history_encoding(
    frame_rgba: Seq<u8>,
    width: u32,
    height: u32,
    xmp: Seq<char>,
    xmp_bytes: Seq<u8>,
    format: HistoryFormat,
) -> Result<Seq<u8>, Seq<char>> {
    match format {
        HistoryFormat::Webp => webp_encoding(frame_rgba, width, height, xmp_bytes),
        HistoryFormat::Png => png_encoding(frame_rgba, width, height, xmp),
        HistoryFormat::Jpeg => match jpeg_encoding(rgb_of_rgba(frame_rgba), width, height, 90) {
            Ok(jpeg) => if xmp_jpeg_header().len() + xmp_bytes.len() + 2 > u16::MAX {
                Err("XMP packet is too large for a JPEG APP1 segment"@)
            } else {
                Ok(jpeg_with_xmp_of(jpeg, xmp_bytes))
            },
            Err(message) => Err(message),
        },
    }
}

/// Encodes a kept reception in `format`, with the XMP packet that says when
/// it was received, in what mode, and who sent it.
pub fn encode_history(candidate: &crate::receive::HistoryCandidate, format: HistoryFormat) -> (bytes:
    Result<Vec<u8>, String>)
    requires
        candidate.frame.is_whole(),
    ensures
        encoded_view(bytes) == history_encoding(
            candidate.frame.rgba@,
            candidate.frame.width,
            candidate.frame.height,
            xmp_packet_of(
                candidate.received_at@,
                candidate.mode_name@,
                string_views(candidate.fsk_ids@),
            ),
            vstd::utf8::encode_utf8(
                xmp_packet_of(
                    candidate.received_at@,
                    candidate.mode_name@,
                    string_views(candidate.fsk_ids@),
                ),
            ),
            format,
        ),
{
    let xmp = xmp_packet(
        candidate.received_at.as_str(),
        candidate.mode_name.as_str(),
        &candidate.fsk_ids,
    );
    let frame = &candidate.frame;
    let xmp_text = xmp.as_str();
    let xmp_bytes = xmp_text.as_bytes();
    match format {
        HistoryFormat::Webp => encode_webp(frame.rgba.as_slice(), frame.width, frame.height, xmp_bytes),
        HistoryFormat::Png => encode_png(frame.rgba.as_slice(), frame.width, frame.height, xmp_text),
        HistoryFormat::Jpeg => {
            let rgb = rgba_to_rgb(frame.rgba.as_slice());
            assert(rgb@.len() == frame.width as int * frame.height as int * 3) by (nonlinear_arith)
                requires
                    rgb@.len() == frame.rgba@.len() / 4 * 3,
                    frame.rgba@.len() == frame.width as int * frame.height as int * 4,
            ;
            match encode_jpeg(rgb.as_slice(), frame.width, frame.height, JPEG_QUALITY) {
                Ok(jpeg) => jpeg_with_xmp(&jpeg, xmp_bytes),
                Err(message) => Err(message),
            }
        },
    }
}

} // verus!
