//! What differs between the operating systems the application runs on, and
//! what the application tells them about itself.

use vstd::prelude::*;

verus! {

/// The operating systems the application tells apart.
#[derive(Clone, Copy, Debug, PartialEq, Eq, Structural)]
pub enum HostOs {
    Windows,
    MacOs,
    Linux,
    /// Anything the project has not been tried on, which gets the same
    /// neutral answers as Linux where an answer does not name Linux itself.
    Other,
}

/// What the application is doing, as far as the platform cares: only the
/// states worth keeping the machine awake for are told apart.
#[derive(Clone, Copy, Debug, PartialEq, Eq, Structural)]
pub enum Activity {
    Idle,
    /// A picture is being decoded.
    Receiving,
    /// A picture is being sent.
    Transmitting,
}

impl Default for Activity {
    /// Nothing is going on.
    fn default() -> (activity: Activity)
        ensures
            activity == Activity::Idle,
    {
        Activity::Idle
    }
}

/// Platform side effects that follow what the application is doing.
pub trait Platform {
    /// Reports what the application is doing; called only when that changes.
    fn set_activity(&mut self, activity: Activity);
}

/// A platform with nothing to say about activity.
#[derive(Clone, Copy, Debug, Default)]
pub struct InertPlatform;

impl Platform for InertPlatform {
    fn set_activity(&mut self, activity: Activity) {
    }
}

/// A platform that answers without doing anything at all, for a session
/// that should touch nothing outside itself.
#[derive(Clone, Copy, Debug, Default)]
pub struct QuietPlatform;

impl Platform for QuietPlatform {
    fn set_activity(&mut self, activity: Activity) {
    }
}

/// What the machine is asked to keep up while the application is doing
/// something: the system for any picture, and the display as well while one
/// is being sent, which is short and attended.
pub fn keep_awake(activity: Activity) -> (request: (bool, bool))
    ensures
        request.0 == (activity != Activity::Idle),
        request.1 == (activity == Activity::Transmitting),
{
    match activity {
        Activity::Idle => (false, false),
        Activity::Receiving => (true, false),
        Activity::Transmitting => (true, true),
    }
}

/// Whether the menu has to be drawn inside the window: everywhere but where
/// the platform has a menu bar of its own.
pub fn is_in_window(os: HostOs) -> (in_window: bool)
    ensures
        in_window == !(os == HostOs::Windows || os == HostOs::MacOs),
{
    match os {
        HostOs::Windows | HostOs::MacOs => false,
        _ => true,
    }
}

/// The directory name the application keeps its own files under: lowercase
/// on Linux, where the base directory is already hidden, and named the way
/// the application is named where the operator sees it.
pub fn app_directory(os: HostOs) -> (name: &'static str)
    ensures
        name@ == (if os == HostOs::Linux { "rssstv"@ } else { "RSSSTV"@ }),
{
    match os {
        HostOs::Linux => "rssstv",
        _ => "RSSSTV",
    }
}

/// The program a directory is opened with, where the platform has one.
pub fn file_manager(os: HostOs) -> (program: Option<&'static str>)
    ensures
        os == HostOs::Windows ==> program is Some && program->0@ == "explorer.exe"@,
        os == HostOs::MacOs ==> program is Some && program->0@ == "open"@,
        os == HostOs::Linux ==> program is Some && program->0@ == "xdg-open"@,
        os == HostOs::Other ==> program is None,
{
    match os {
        HostOs::Windows => Some("explorer.exe"),
        HostOs::MacOs => Some("open"),
        HostOs::Linux => Some("xdg-open"),
        HostOs::Other => None,
    }
}

/// Where an installed copy keeps the manual's first page, when the platform
/// has one: only Linux packages install it.
pub fn manual_fallback(os: HostOs) -> (page: Option<&'static str>)
    ensures
        os == HostOs::Linux ==> page is Some && page->0@ == "/usr/share/doc/rssstv/help/index.html"@,
        os != HostOs::Linux ==> page is None,
{
    match os {
        HostOs::Linux => Some("/usr/share/doc/rssstv/help/index.html"),
        _ => None,
    }
}

/// The font families the interface is drawn with, in priority order: the
/// platform's own interface face first.
pub fn ui_fonts(os: HostOs) -> (families: Vec<&'static str>)
    ensures
        os == HostOs::Windows ==> families@.len() == 3 && families@[0]@ == "Yu Gothic UI"@
            && families@[1]@ == "Meiryo UI"@ && families@[2]@ == "Segoe UI"@,
        os == HostOs::MacOs ==> families@.len() == 2 && families@[0]@ == "Hiragino Sans"@
            && families@[1]@ == "Helvetica Neue"@,
        (os == HostOs::Linux || os == HostOs::Other) ==> families@.len() == 3
            && families@[0]@ == "Noto Sans CJK JP"@ && families@[1]@ == "Noto Sans"@
            && families@[2]@ == "DejaVu Sans"@,
{
    match os {
        HostOs::Windows => vec!["Yu Gothic UI", "Meiryo UI", "Segoe UI"],
        HostOs::MacOs => vec!["Hiragino Sans", "Helvetica Neue"],
        _ => vec!["Noto Sans CJK JP", "Noto Sans", "DejaVu Sans"],
    }
}

/// The bytes of `p` that belong to whole four-byte pixels.
pub open spec fn whole_pixel_bytes(p: Seq<u8>) -> int {
    ((p.len() / 4) * 4) as int
}

/// Whether every whole pixel of `p` has an alpha of zero.
pub open spec fn all_transparent(p: Seq<u8>) -> bool {
    forall|i: int| 0 <= i < whole_pixel_bytes(p) && i % 4 == 3 ==> #[trigger] p[i] == 0
}

/// Byte `i` of `p` once blue and red have traded places in each whole
/// pixel, with the alpha made opaque when `transparent`; the bytes after the
/// last whole pixel stay as they are.
pub open spec fn rgba_byte(p: Seq<u8>, i: int, transparent: bool) -> u8 {
    if i >= whole_pixel_bytes(p) {
        p[i]
    } else if i % 4 == 0 {
        p[i + 2]
    } else if i % 4 == 2 {
        p[i - 2]
    } else if i % 4 == 3 && transparent {
        255
    } else {
        p[i]
    }
}

/// A BGRA bitmap as RGBA; one whose every pixel has an alpha of zero is
/// taken as opaque, because a bitmap without alpha would otherwise vanish.
pub open spec fn spec_to_rgba(p: Seq<u8>) -> Seq<u8> {
    Seq::new(p.len(), |i: int| rgba_byte(p, i, all_transparent(p)))
}

proof fn lemma_pixel_bounds(i: int, whole: int)
    requires
        0 <= i,
        whole % 4 == 0,
    ensures
        i < whole && i % 4 == 0 ==> i + 3 < whole,
        i % 4 == 2 ==> i >= 2,
{
}

/// Turns a BGRA bitmap into RGBA.
pub fn to_rgba(pixels: Vec<u8>) -> (rgba: Vec<u8>)
    ensures
        rgba@ == spec_to_rgba(pixels@),
{
    let len = pixels.len();
    let whole = len - len % 4;
    assert(whole == whole_pixel_bytes(pixels@)) by (nonlinear_arith)
        requires
            whole == len - len % 4,
            len == pixels@.len(),
    ;
    assert(whole % 4 == 0) by (nonlinear_arith)
        requires
            whole == len - len % 4,
    ;
    let mut transparent = true;
    let mut i: usize = 3;
    while i < whole
        invariant
            whole == whole_pixel_bytes(pixels@),
            whole <= pixels@.len(),
            whole % 4 == 0,
            i % 4 == 3,
            i <= whole + 3,
            transparent == (forall|j: int| 0 <= j < i - 3 && j % 4 == 3 ==> #[trigger] pixels@[j] == 0),
        decreases whole + 3 - i,
    {
        if pixels[i] != 0 {
            transparent = false;
        }
        i += 4;
    }
    assert(i == whole + 3) by (nonlinear_arith)
        requires
            i % 4 == 3,
            whole % 4 == 0,
            whole <= i <= whole + 3,
    ;
    assert(transparent == all_transparent(pixels@)) by {
        if transparent {
            assert forall|j: int| 0 <= j < whole && j % 4 == 3 implies #[trigger] pixels@[j] == 0 by {
                assert(j < i - 3);
            }
        }
    }
    let mut rgba: Vec<u8> = Vec::new();
    let mut k: usize = 0;
    while k < len
        invariant
            len == pixels@.len(),
            whole == whole_pixel_bytes(pixels@),
            whole % 4 == 0,
            whole <= len,
            k <= len,
            transparent == all_transparent(pixels@),
            rgba@.len() == k,
            forall|j: int| 0 <= j < k ==> #[trigger] rgba@[j] == rgba_byte(pixels@, j, transparent),
        decreases len - k,
    {
        proof {
            lemma_pixel_bounds(k as int, whole as int);
        }
        let byte = if k >= whole {
            pixels[k]
        } else if k % 4 == 0 {
            pixels[k + 2]
        } else if k % 4 == 2 {
            pixels[k - 2]
        } else if k % 4 == 3 && transparent {
            255
        } else {
            pixels[k]
        };
        rgba.push(byte);
        k += 1;
    }
    assert(rgba@ == spec_to_rgba(pixels@));
    rgba
}

/// A bitmap with a visible pixel comes back unchanged from being turned
/// around twice: the second pass trades blue and red back and finds the
/// same alpha bytes the first one left alone.
pub proof fn lemma_to_rgba_twice_restores(p: Seq<u8>)
    requires
        !all_transparent(p),
    ensures
        spec_to_rgba(spec_to_rgba(p)) == p,
{
    let q = spec_to_rgba(p);
    assert(whole_pixel_bytes(q) == whole_pixel_bytes(p));
    let w = choose|i: int| 0 <= i < whole_pixel_bytes(p) && i % 4 == 3 && p[i] != 0;
    assert(q[w] == p[w]);
    assert(!all_transparent(q));
    assert forall|i: int| 0 <= i < p.len() implies #[trigger] spec_to_rgba(q)[i] == p[i] by {
        if i < whole_pixel_bytes(p) {
            lemma_pixel_bounds(i, whole_pixel_bytes(p));
            assert(whole_pixel_bytes(p) % 4 == 0) by (nonlinear_arith)
                requires
                    whole_pixel_bytes(p) == (p.len() / 4) * 4,
            ;
            lemma_pixel_bounds(i, whole_pixel_bytes(p));
            if i % 4 == 0 {
                assert((i + 2) % 4 == 2);
            } else if i % 4 == 2 {
                assert((i - 2) % 4 == 0);
            }
        }
    }
    assert(spec_to_rgba(q) =~= p);
}

/// The UTF-16 code units of one character.
pub open spec fn utf16_units(c: char) -> Seq<u16> {
    let v = c as u32;
    if v < 0x10000 {
        seq![v as u16]
    } else {
        seq![(0xD800 + (v - 0x10000) / 0x400) as u16, (0xDC00 + (v - 0x10000) % 0x400) as u16]
    }
}

/// The UTF-16 code units of `s`, character by character.
pub open spec fn utf16_of(s: Seq<char>) -> Seq<u16>
    decreases s.len(),
{
    if s.len() == 0 {
        Seq::empty()
    } else {
        utf16_of(s.drop_last()) + utf16_units(s.last())
    }
}

/// `value` as the null-terminated UTF-16 the Win32 interface expects.
pub fn wide(value: &str) -> (units: Vec<u16>)
    ensures
        units@ == utf16_of(value@).push(0u16),
{
    let chars = crate::text::chars_of(value);
    let mut units: Vec<u16> = Vec::new();
    let mut i: usize = 0;
    while i < chars.len()
        invariant
            i <= chars.len(),
            chars@ == value@,
            units@ == utf16_of(chars@.take(i as int)),
        decreases chars.len() - i,
    {
        assert(chars@.take(i + 1).drop_last() == chars@.take(i as int));
        let v: u32 = chars[i] as u32;
        if v < 0x10000 {
            units.push(v as u16);
        } else {
            let offset = v - 0x10000;
            units.push((0xD800 + offset / 0x400) as u16);
            units.push((0xDC00 + offset % 0x400) as u16);
        }
        i += 1;
    }
    assert(chars@.take(chars.len() as int) == chars@);
    units.push(0);
    units
}

} // verus!
