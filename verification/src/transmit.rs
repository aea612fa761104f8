//! How a transmission reports where it has got to, and how its picture is
//! prepared.

use vstd::prelude::*;

verus! {

/// Where a transmission's worker has got to.
#[derive(Clone, Copy, Debug, PartialEq, Eq, Structural)]
pub enum TxPhase {
    Idle,
    Priming,
    Producing,
    Draining,
    Complete,
    Cancelled,
    Failed,
}

impl TxPhase {
    /// The phase before anything has been sent.
    pub fn default_phase() -> (phase: TxPhase)
        ensures
            phase == TxPhase::Idle,
    {
        TxPhase::Idle
    }

    pub open spec fn spec_is_active(self) -> bool {
        self is Priming || self is Producing || self is Draining
    }

    /// Whether anything is still going out.
    pub fn is_active(self) -> (active: bool)
        ensures
            active == self.spec_is_active(),
    {
        match self {
            TxPhase::Priming | TxPhase::Producing | TxPhase::Draining => true,
            _ => false,
        }
    }
}

/// How far the audible transmission has advanced through the image raster.
///
/// The leader and the station identifier frame the raster and carry no rows,
/// so they are named rather than folded into a fraction that would sit pinned
/// at either end.
#[derive(Clone, Copy, Debug, PartialEq, Eq, Structural)]
pub enum TxProgress {
    /// Nothing is being transmitted.
    Idle,
    /// The VOX sequence, VIS framing, or leading segments are being sent.
    Leader,
    /// Image rows are being sent.
    Scanning { rows: usize, total: usize },
    /// The raster is finished; the footer and station identifier are being sent.
    Identifying,
    /// The whole transmission was sent.
    Complete,
}

impl TxProgress {
    /// The transmitted share of the raster as a numerator over a nonzero
    /// denominator, never more than one.
    pub open spec fn spec_sent_share(self) -> (nat, nat) {
        match self {
            TxProgress::Idle | TxProgress::Leader => (0, 1),
            TxProgress::Scanning { rows, total } => if total > 0 {
                (if rows <= total {
                    rows as nat
                } else {
                    total as nat
                }, total as nat)
            } else {
                (0, 1)
            },
            TxProgress::Identifying | TxProgress::Complete => (1, 1),
        }
    }

    /// The transmitted share of the raster, as the progress bar draws it.
    pub fn sent_share(self) -> (share: (usize, usize))
        ensures
            (share.0 as nat, share.1 as nat) == self.spec_sent_share(),
            share.1 > 0,
            share.0 <= share.1,
    {
        match self {
            TxProgress::Idle | TxProgress::Leader => (0, 1),
            TxProgress::Scanning { rows, total } => if total > 0 {
                (if rows <= total {
                    rows
                } else {
                    total
                }, total)
            } else {
                (0, 1)
            },
            TxProgress::Identifying | TxProgress::Complete => (1, 1),
        }
    }
}

/// Where the image raster sits inside the transmission, in output samples.
///
/// The interface reports progress by row, so it needs the window the rows
/// occupy rather than the length of the audio around them.
#[derive(Clone, Copy, Debug, PartialEq, Eq, Structural)]
pub struct RasterTiming {
    pub start_samples: u64,
    pub samples: u64,
    pub rows: usize,
}

impl Default for RasterTiming {
    /// A window that is not known yet.
    fn default() -> (timing: RasterTiming)
        ensures
            timing == (RasterTiming { start_samples: 0, samples: 0, rows: 0 }),
    {
        RasterTiming::unknown()
    }
}

impl RasterTiming {
    /// A window that is not known yet.
    pub fn unknown() -> (timing: RasterTiming)
        ensures
            timing == (RasterTiming { start_samples: 0, samples: 0, rows: 0 }),
    {
        RasterTiming { start_samples: 0, samples: 0, rows: 0 }
    }

    pub open spec fn spec_progress_at(self, played_samples: u64) -> TxProgress {
        if self.rows == 0 || self.samples == 0 || played_samples < self.start_samples {
            TxProgress::Leader
        } else if played_samples - self.start_samples >= self.samples {
            TxProgress::Identifying
        } else {
            TxProgress::Scanning {
                rows: ((played_samples - self.start_samples) as int * self.rows as int / self.samples as int) as usize,
                total: self.rows,
            }
        }
    }

    /// Maps an audible sample position onto the row being transmitted.
    ///
    /// A position before the window is still in the leader and one past it is
    /// in the station identification; neither carries a row.
    pub fn progress_at(self, played_samples: u64) -> (progress: TxProgress)
        ensures
            progress == self.spec_progress_at(played_samples),
    {
        if self.rows == 0 || self.samples == 0 || played_samples < self.start_samples {
            return TxProgress::Leader;
        }
        let elapsed = played_samples - self.start_samples;
        if elapsed >= self.samples {
            return TxProgress::Identifying;
        }
        assert(elapsed as int * self.rows as int <= u64::MAX as int * usize::MAX as int) by (nonlinear_arith)
            requires
                elapsed <= u64::MAX,
                self.rows <= usize::MAX,
        ;
        let scaled = elapsed as u128 * self.rows as u128;
        let rows = scaled / self.samples as u128;
        assert(rows < self.rows) by (nonlinear_arith)
            requires
                rows == elapsed as int * self.rows as int / self.samples as int,
                elapsed < self.samples,
                self.samples > 0,
                self.rows > 0,
        ;
        TxProgress::Scanning { rows: rows as usize, total: self.rows }
    }
}

/// A row being sent is never past the last row, and a later sample is never
/// on an earlier row.
pub proof fn lemma_rows_advance_with_the_audio(timing: RasterTiming, a: u64, b: u64)
    requires
        a <= b,
        timing.spec_progress_at(a) is Scanning,
        timing.spec_progress_at(b) is Scanning,
    ensures
        timing.spec_progress_at(a)->rows <= timing.spec_progress_at(b)->rows,
        timing.spec_progress_at(b)->rows < timing.rows,
{
    let ea = (a - timing.start_samples) as int;
    let eb = (b - timing.start_samples) as int;
    let r = timing.rows as int;
    let s = timing.samples as int;
    assert(ea * r / s <= eb * r / s) by (nonlinear_arith)
        requires
            0 <= ea <= eb,
            r >= 0,
            s > 0,
    ;
    assert(eb * r / s < r) by (nonlinear_arith)
        requires
            0 <= eb < s,
            r > 0,
            s > 0,
    ;
}

/// The number of output samples a duration covers, rounded up: picoseconds
/// times samples per second, over the picoseconds in a second.
pub open spec fn spec_samples_for(duration_picos: u64, sample_rate_hz: u32) -> int {
    let scaled = duration_picos as int * sample_rate_hz as int;
    (scaled + 999_999_999_999) / 1_000_000_000_000
}

/// Converts a duration in picoseconds into output samples, rounding up so
/// that no part of the duration goes unplayed.
pub fn samples_for(duration_picos: u64, sample_rate_hz: u32) -> (samples: u64)
    ensures
        samples == spec_samples_for(duration_picos, sample_rate_hz),
{
    assert(duration_picos as int * sample_rate_hz as int <= u64::MAX as int * u32::MAX as int) by (nonlinear_arith)
        requires
            duration_picos <= u64::MAX,
            sample_rate_hz <= u32::MAX,
    ;
    let scaled = duration_picos as u128 * sample_rate_hz as u128;
    let rounded = (scaled + 999_999_999_999) / 1_000_000_000_000;
    assert(rounded <= u64::MAX) by (nonlinear_arith)
        requires
            scaled <= u64::MAX as int * u32::MAX as int,
            rounded == (scaled + 999_999_999_999) / 1_000_000_000_000,
    ;
    rounded as u64
}

/// What a transmission's worker last published.
#[derive(Clone, Debug)]
pub struct TxSnapshot {
    pub phase: TxPhase,
    pub generated_samples: u64,
    pub total_samples: u64,
    pub raster: RasterTiming,
    pub error: Option<String>,
}

impl TxSnapshot {
    /// The snapshot before a transmission has started.
    pub fn idle() -> (snapshot: TxSnapshot)
        ensures
            snapshot.phase == TxPhase::Idle,
            snapshot.generated_samples == 0,
            snapshot.total_samples == 0,
            snapshot.raster == (RasterTiming { start_samples: 0, samples: 0, rows: 0 }),
            snapshot.error is None,
    {
        TxSnapshot {
            phase: TxPhase::Idle,
            generated_samples: 0,
            total_samples: 0,
            raster: RasterTiming::unknown(),
            error: None,
        }
    }
}

/// Records that a transmission failed, and why.
pub fn fail(snapshot: &mut TxSnapshot, error: String)
    ensures
        final(snapshot).phase == TxPhase::Failed,
        final(snapshot).error == Some(error),
        final(snapshot).generated_samples == old(snapshot).generated_samples,
        final(snapshot).total_samples == old(snapshot).total_samples,
        final(snapshot).raster == old(snapshot).raster,
{
    snapshot.phase = TxPhase::Failed;
    snapshot.error = Some(error);
}

/// Counts samples the worker handed to the output, and moves on from priming
/// once the queue holds `prefill` of them.
///
/// Returns whether this is the write that finished priming.
pub fn record_written(snapshot: &mut TxSnapshot, written: u64, primed: bool, prefill: u64) -> (now_primed:
    bool)
    requires
        old(snapshot).generated_samples + written <= u64::MAX,
    ensures
        final(snapshot).generated_samples == old(snapshot).generated_samples + written,
        now_primed == (!primed && final(snapshot).generated_samples >= prefill),
        final(snapshot).phase == (if now_primed {
            TxPhase::Producing
        } else {
            old(snapshot).phase
        }),
        final(snapshot).error == old(snapshot).error,
        final(snapshot).total_samples == old(snapshot).total_samples,
        final(snapshot).raster == old(snapshot).raster,
{
    snapshot.generated_samples = snapshot.generated_samples + written;
    if !primed && snapshot.generated_samples >= prefill {
        snapshot.phase = TxPhase::Producing;
        true
    } else {
        false
    }
}

pub open spec fn spec_prefill(vacant: nat, sample_rate_hz: nat, total_samples: nat) -> nat {
    let quarter = if sample_rate_hz / 4 >= 1 {
        sample_rate_hz / 4
    } else {
        1
    };
    let bounded = if vacant <= quarter {
        vacant
    } else {
        quarter
    };
    if bounded <= total_samples {
        bounded
    } else {
        total_samples
    }
}

/// How much audio is queued before the output starts: a quarter second, or
/// less when the queue or the transmission is shorter.
pub fn prefill(vacant: usize, sample_rate_hz: u32, total_samples: u64) -> (samples: usize)
    ensures
        samples as nat == spec_prefill(vacant as nat, sample_rate_hz as nat, total_samples as nat),
{
    let quarter: u64 = if sample_rate_hz / 4 >= 1 {
        (sample_rate_hz / 4) as u64
    } else {
        1
    };
    let bounded: u64 = if (vacant as u64) <= quarter {
        vacant as u64
    } else {
        quarter
    };
    if bounded <= total_samples {
        bounded as usize
    } else {
        total_samples as usize
    }
}

} // verus!

verus! {

/// How a background is fitted to a mode: scaled to cover the mode's raster
/// without distortion, then cut to it about the centre.
#[derive(Clone, Copy, Debug, PartialEq, Eq, Structural)]
pub struct CoverGeometry {
    pub resized_width: u32,
    pub resized_height: u32,
    pub x: u32,
    pub y: u32,
}

pub open spec fn ceil_div(a: int, b: int) -> int {
    (a + b - 1) / b
}

/// The geometry `cover_geometry` settles on.
pub open spec fn spec_cover(source_width: u32, source_height: u32, width: u32, height: u32) -> (
    int,
    int,
) {
    if width as int * source_height as int >= height as int * source_width as int {
        (width as int, ceil_div(source_height as int * width as int, source_width as int))
    } else {
        (ceil_div(source_width as int * height as int, source_height as int), height as int)
    }
}

/// Whether a source of that size can be fitted without a side overflowing.
pub open spec fn cover_fits(source_width: u32, source_height: u32, width: u32, height: u32) -> bool {
    let (w, h) = spec_cover(source_width, source_height, width, height);
    w <= u32::MAX && h <= u32::MAX
}

/// Scales a `source_width` × `source_height` picture to cover `width` ×
/// `height`, keeping its shape, and centres the cut.
pub fn cover_geometry(source_width: u32, source_height: u32, width: u32, height: u32) -> (geometry:
    CoverGeometry)
    requires
        source_width > 0,
        source_height > 0,
        cover_fits(source_width, source_height, width, height),
    ensures
        geometry.resized_width == spec_cover(source_width, source_height, width, height).0,
        geometry.resized_height == spec_cover(source_width, source_height, width, height).1,
        geometry.resized_width >= width,
        geometry.resized_height >= height,
        geometry.x == (geometry.resized_width - width) / 2,
        geometry.y == (geometry.resized_height - height) / 2,
{
    let sw = source_width as u64;
    let sh = source_height as u64;
    let w = width as u64;
    let h = height as u64;
    assert(w * sh <= u32::MAX as int * u32::MAX as int) by (nonlinear_arith)
        requires
            w <= u32::MAX,
            sh <= u32::MAX,
    ;
    assert(h * sw <= u32::MAX as int * u32::MAX as int) by (nonlinear_arith)
        requires
            h <= u32::MAX,
            sw <= u32::MAX,
    ;
    let (rw, rh) = if w * sh >= h * sw {
        let rh = (sh * w + sw - 1) / sw;
        assert(rh >= h) by (nonlinear_arith)
            requires
                w * sh >= h * sw,
                sw > 0,
                rh == (sh * w + sw - 1) / (sw as int),
        ;
        (w, rh)
    } else {
        let rw = (sw * h + sh - 1) / sh;
        assert(rw >= w) by (nonlinear_arith)
            requires
                w * sh < h * sw,
                sh > 0,
                rw == (sw * h + sh - 1) / (sh as int),
        ;
        (rw, h)
    };
    CoverGeometry {
        resized_width: rw as u32,
        resized_height: rh as u32,
        x: ((rw - w) / 2) as u32,
        y: ((rh - h) / 2) as u32,
    }
}

/// The pixel bytes a `width` × `height` cut of an RGB picture holds, taken
/// from `x`, `y` of a picture `source_width` pixels wide.
pub open spec fn cropped_rgb(
    rgb: Seq<u8>,
    source_width: int,
    x: int,
    y: int,
    width: int,
    height: int,
) -> Seq<u8> {
    Seq::new(
        (width * height * 3) as nat,
        |k: int| rgb[((y + k / (width * 3)) * source_width + x + (k % (width * 3)) / 3) * 3 + k % 3],
    )
}

/// Cuts a `width` × `height` window out of an RGB picture, starting at `x`,
/// `y`.
pub fn crop_rgb(
    rgb: &[u8],
    source_width: u32,
    source_height: u32,
    x: u32,
    y: u32,
    width: u32,
    height: u32,
) -> (cropped: Vec<u8>)
    requires
        rgb@.len() == source_width as int * source_height as int * 3,
        x as int + width as int <= source_width as int,
        y as int + height as int <= source_height as int,
    ensures
        cropped@ == cropped_rgb(
            rgb@,
            source_width as int,
            x as int,
            y as int,
            width as int,
            height as int,
        ),
{
    let total = rgb.len();
    let mut cropped: Vec<u8> = Vec::new();
    let ghost target = cropped_rgb(
        rgb@,
        source_width as int,
        x as int,
        y as int,
        width as int,
        height as int,
    );
    let mut row: u32 = 0;
    while row < height
        invariant
            row <= height,
            rgb@.len() == source_width as int * source_height as int * 3,
            rgb@.len() == total,
            x as int + width as int <= source_width as int,
            y as int + height as int <= source_height as int,
            target == cropped_rgb(rgb@, source_width as int, x as int, y as int, width as int, height as int),
            cropped@.len() == row as int * width as int * 3,
            forall|k: int| 0 <= k < cropped@.len() ==> cropped@[k] == target[k],
        decreases height - row,
    {
        let mut col: u32 = 0;
        while col < width
            invariant
                row < height,
                col <= width,
                rgb@.len() == source_width as int * source_height as int * 3,
                rgb@.len() == total,
                x as int + width as int <= source_width as int,
                y as int + height as int <= source_height as int,
                target == cropped_rgb(rgb@, source_width as int, x as int, y as int, width as int, height as int),
                cropped@.len() == (row as int * width as int + col as int) * 3,
                forall|k: int| 0 <= k < cropped@.len() ==> cropped@[k] == target[k],
            decreases width - col,
        {
            let ghost base_len = cropped@.len() as int;
            let ghost source_pixel = (y as int + row as int) * source_width as int + x as int + col as int;
            assert(0 <= source_pixel < source_width as int * source_height as int) by (nonlinear_arith)
                requires
                    source_pixel == (y as int + row as int) * source_width as int + x as int + col as int,
                    row < height,
                    col < width,
                    x as int + width as int <= source_width as int,
                    y as int + height as int <= source_height as int,
            ;
            assert((y as int + row as int) * source_width as int <= source_height as int * source_width as int) by (nonlinear_arith)
                requires
                    y as int + row as int <= source_height as int,
            ;
            assert(source_height as int * source_width as int <= usize::MAX) by (nonlinear_arith)
                requires
                    rgb@.len() == source_width as int * source_height as int * 3,
                    rgb@.len() == total,
                    total <= usize::MAX,
            ;
            let line = (y as usize + row as usize) * source_width as usize;
            let pixel = line + x as usize + col as usize;
            assert(pixel as int == source_pixel);
            let start = pixel * 3;
            cropped.push(rgb[start]);
            cropped.push(rgb[start + 1]);
            cropped.push(rgb[start + 2]);
            assert forall|k: int| base_len <= k < base_len + 3 implies cropped@[k] == target[k] by {
                let c = k - base_len;
                assert(k / (width as int * 3) == row as int && (k % (width as int * 3)) / 3 == col as int
                    && k % 3 == c) by (nonlinear_arith)
                    requires
                        base_len == (row as int * width as int + col as int) * 3,
                        0 <= c < 3,
                        k == base_len + c,
                        col < width,
                ;
                assert(base_len + 3 <= width as int * height as int * 3) by (nonlinear_arith)
                    requires
                        base_len == (row as int * width as int + col as int) * 3,
                        row < height,
                        col < width,
                ;
                assert(target[k] == rgb@[source_pixel * 3 + c]);
            }
            col += 1;
        }
        assert((row as int * width as int + width as int) * 3 == (row as int + 1) * width as int * 3) by (nonlinear_arith);
        row += 1;
    }
    assert(cropped@.len() == target.len()) by (nonlinear_arith)
        requires
            cropped@.len() == row as int * width as int * 3,
            row == height,
            target.len() == width as int * height as int * 3,
    ;
    assert(cropped@ == target);
    cropped
}

} // verus!

verus! {

/// What `image::imageops::resize` with the Lanczos3 filter makes of an RGB
/// picture at a new size.
pub uninterp spec fn lanczos_resized(
    rgb: Seq<u8>,
    width: u32,
    height: u32,
    new_width: u32,
    new_height: u32,
) -> Seq<u8>;

/// Resamples an RGB picture to a new size through `image::imageops::resize`
/// with `FilterType::Lanczos3`.
///
/// The buffer it returns is an `ImageBuffer` of the new size, three bytes a
/// pixel. The picture is rebuilt with `ImageBuffer::from_raw`, which accepts a
/// buffer of exactly three bytes a pixel, as the precondition asks.
#[verifier::external_body]
fn resize_rgb(rgb: &[u8], width: u32, height: u32, new_width: u32, new_height: u32) -> (resized: Vec<u8>)
    requires
        rgb@.len() == width as int * height as int * 3,
        new_width as int * new_height as int * 3 <= usize::MAX,
    ensures
        resized@ == lanczos_resized(rgb@, width, height, new_width, new_height),
        resized@.len() == new_width as int * new_height as int * 3,
{
    let source = image::RgbImage::from_raw(width, height, rgb.to_vec()).expect("the buffer fits the size");
    image::imageops::resize(&source, new_width, new_height, image::imageops::FilterType::Lanczos3)
        .into_raw()
}

/// A background prepared for a mode: covered and centred, as `cover_image`
/// leaves it.
pub open spec fn covered_rgb(rgb: Seq<u8>, source_width: u32, source_height: u32, width: u32, height: u32) -> Seq<u8> {
    let (rw, rh) = spec_cover(source_width, source_height, width, height);
    cropped_rgb(
        lanczos_resized(rgb, source_width, source_height, rw as u32, rh as u32),
        rw,
        (rw - width) / 2,
        (rh - height) / 2,
        width as int,
        height as int,
    )
}

/// Scales a background to cover a mode's raster without distorting it, and
/// cuts the raster out of its centre.
pub fn cover_image(rgb: &[u8], source_width: u32, source_height: u32, width: u32, height: u32) -> (covered:
    Vec<u8>)
    requires
        source_width > 0,
        source_height > 0,
        rgb@.len() == source_width as int * source_height as int * 3,
        cover_fits(source_width, source_height, width, height),
        spec_cover(source_width, source_height, width, height).0 * spec_cover(
            source_width,
            source_height,
            width,
            height,
        ).1 * 3 <= usize::MAX,
    ensures
        covered@ == covered_rgb(rgb@, source_width, source_height, width, height),
        covered@.len() == width as int * height as int * 3,
{
    let geometry = cover_geometry(source_width, source_height, width, height);
    let resized = resize_rgb(
        rgb,
        source_width,
        source_height,
        geometry.resized_width,
        geometry.resized_height,
    );
    assert(geometry.x as int + width as int <= geometry.resized_width as int);
    assert(geometry.y as int + height as int <= geometry.resized_height as int);
    let covered = crop_rgb(
        resized.as_slice(),
        geometry.resized_width,
        geometry.resized_height,
        geometry.x,
        geometry.y,
        width,
        height,
    );
    covered
}

/// A background is fitted by scaling it to cover the mode's raster and
/// cutting the raster out of the middle of it: the resized picture is at
/// least as wide and as tall as the raster and meets it on one side; the
/// margins it leaves above and below the cut differ by at most a pixel, with
/// the larger below, and so do those left and right of it; and every pixel
/// of the result is the pixel of the resized picture that many rows down and
/// columns across.
pub proof fn lemma_the_cut_is_centred(
    rgb: Seq<u8>,
    source_width: u32,
    source_height: u32,
    width: u32,
    height: u32,
    top: int,
    left: int,
    row: int,
    column: int,
    channel: int,
)
    requires
        source_width > 0,
        source_height > 0,
        top <= spec_cover(source_width, source_height, width, height).1 - height - top <= top + 1,
        left <= spec_cover(source_width, source_height, width, height).0 - width - left <= left + 1,
        0 <= row < height,
        0 <= column < width,
        0 <= channel < 3,
    ensures
        spec_cover(source_width, source_height, width, height).0 >= width,
        spec_cover(source_width, source_height, width, height).1 >= height,
        spec_cover(source_width, source_height, width, height).0 == width || spec_cover(
            source_width,
            source_height,
            width,
            height,
        ).1 == height,
        covered_rgb(rgb, source_width, source_height, width, height)[(row * width + column) * 3 + channel]
            == lanczos_resized(
            rgb,
            source_width,
            source_height,
            spec_cover(source_width, source_height, width, height).0 as u32,
            spec_cover(source_width, source_height, width, height).1 as u32,
        )[((row + top) * spec_cover(source_width, source_height, width, height).0 + column + left) * 3 + channel],
{
    let (rw, rh) = spec_cover(source_width, source_height, width, height);
    let sw = source_width as int;
    let sh = source_height as int;
    let w = width as int;
    let h = height as int;
    if w * sh >= h * sw {
        assert(rh >= h) by (nonlinear_arith)
            requires
                w * sh >= h * sw,
                sw > 0,
                rh == (sh * w + sw - 1) / sw,
        ;
    } else {
        assert(rw >= w) by (nonlinear_arith)
            requires
                w * sh < h * sw,
                sh > 0,
                rw == (sw * h + sh - 1) / sh,
        ;
    }
    assert(top == (rh - h) / 2);
    assert(left == (rw - w) / 2);
    let d = w * 3;
    let k = (row * w + column) * 3 + channel;
    let within = column * 3 + channel;
    assert(k == row * d + within) by (nonlinear_arith)
        requires
            k == (row * w + column) * 3 + channel,
            d == w * 3,
            within == column * 3 + channel,
    ;
    assert(0 <= within < d);
    vstd::arithmetic::div_mod::lemma_fundamental_div_mod_converse_div(k, d, row, within);
    vstd::arithmetic::div_mod::lemma_fundamental_div_mod_converse_mod(k, d, row, within);
    vstd::arithmetic::div_mod::lemma_fundamental_div_mod_converse_div(within, 3, column, channel);
    vstd::arithmetic::div_mod::lemma_fundamental_div_mod_converse_mod(k, 3, row * w + column, channel);
    assert(0 <= k < w * h * 3) by (nonlinear_arith)
        requires
            k == row * d + within,
            0 <= within < d,
            d == w * 3,
            0 <= row < h,
    ;
}

/// The size a background is scaled to is the least that covers the raster
/// without distorting it: when the picture is at least as tall for its width
/// as the raster, its width is the raster's and its height the scaled height
/// rounded up to a whole pixel; otherwise its height is the raster's and its
/// width the scaled width rounded up.
pub proof fn lemma_the_cover_is_the_least_that_covers(
    source_width: u32,
    source_height: u32,
    width: u32,
    height: u32,
)
    requires
        source_width > 0,
        source_height > 0,
    ensures
        ({
            let (rw, rh) = spec_cover(source_width, source_height, width, height);
            let sw = source_width as int;
            let sh = source_height as int;
            let w = width as int;
            let h = height as int;
            &&& w * sh >= h * sw ==> rw == w && rh * sw >= sh * w && (rh - 1) * sw < sh * w
            &&& w * sh < h * sw ==> rh == h && rw * sh >= sw * h && (rw - 1) * sh < sw * h
        }),
{
    let (rw, rh) = spec_cover(source_width, source_height, width, height);
    let sw = source_width as int;
    let sh = source_height as int;
    let w = width as int;
    let h = height as int;
    if w * sh >= h * sw {
        let n = sh * w + sw - 1;
        vstd::arithmetic::div_mod::lemma_fundamental_div_mod(n, sw);
        vstd::arithmetic::div_mod::lemma_mod_pos_bound(n, sw);
        assert(rh == n / sw);
        assert(rh * sw >= sh * w && (rh - 1) * sw < sh * w) by (nonlinear_arith)
            requires
                n == sw * (n / sw) + n % sw,
                0 <= n % sw < sw,
                rh == n / sw,
                n == sh * w + sw - 1,
        ;
    } else {
        let n = sw * h + sh - 1;
        vstd::arithmetic::div_mod::lemma_fundamental_div_mod(n, sh);
        vstd::arithmetic::div_mod::lemma_mod_pos_bound(n, sh);
        assert(rw == n / sh);
        assert(rw * sh >= sw * h && (rw - 1) * sh < sw * h) by (nonlinear_arith)
            requires
                n == sh * (n / sh) + n % sh,
                0 <= n % sh < sh,
                rw == n / sh,
                n == sw * h + sh - 1,
        ;
    }
}

/// Whether `cover_image` can fit a `source_width` × `source_height` picture
/// held in `len` bytes to `width` × `height`.
pub open spec fn can_cover(len: int, source_width: u32, source_height: u32, width: u32, height: u32) -> bool {
    &&& source_width > 0
    &&& source_height > 0
    &&& len == source_width as int * source_height as int * 3
    &&& cover_fits(source_width, source_height, width, height)
    &&& spec_cover(source_width, source_height, width, height).0 * spec_cover(source_width, source_height, width, height).1
        * 3 <= usize::MAX
}

/// Fits a background to a mode's raster as `cover_image` does, or gives
/// nothing for a picture that cannot be fitted: an empty one, one whose bytes
/// do not cover its size, or one whose scaled size would not fit in memory.
pub fn try_cover_image(rgb: &[u8], source_width: u32, source_height: u32, width: u32, height: u32) -> (covered:
    Option<Vec<u8>>)
    ensures
        covered is Some <==> can_cover(rgb@.len() as int, source_width, source_height, width, height),
        covered is Some ==> covered->0@ == covered_rgb(rgb@, source_width, source_height, width, height),
{
    if source_width == 0 || source_height == 0 {
        return None;
    }
    let sw = source_width as u128;
    let sh = source_height as u128;
    let w = width as u128;
    let h = height as u128;
    assert(sw * sh * 3 <= u32::MAX as int * u32::MAX as int * 3) by (nonlinear_arith)
        requires
            sw <= u32::MAX,
            sh <= u32::MAX,
    ;
    if rgb.len() as u128 != sw * sh * 3 {
        return None;
    }
    assert(w * sh <= u32::MAX as int * u32::MAX as int) by (nonlinear_arith)
        requires
            w <= u32::MAX,
            sh <= u32::MAX,
    ;
    assert(h * sw <= u32::MAX as int * u32::MAX as int) by (nonlinear_arith)
        requires
            h <= u32::MAX,
            sw <= u32::MAX,
    ;
    let (rw, rh) = if w * sh >= h * sw {
        (w, (sh * w + sw - 1) / sw)
    } else {
        ((sw * h + sh - 1) / sh, h)
    };
    assert(rw == spec_cover(source_width, source_height, width, height).0);
    assert(rh == spec_cover(source_width, source_height, width, height).1);
    if rw > u32::MAX as u128 || rh > u32::MAX as u128 {
        return None;
    }
    assert(rw * rh <= u32::MAX as int * u32::MAX as int) by (nonlinear_arith)
        requires
            rw <= u32::MAX,
            rh <= u32::MAX,
    ;
    if rw * rh * 3 > usize::MAX as u128 {
        return None;
    }
    Some(cover_image(rgb, source_width, source_height, width, height))
}

/// The places a template's asset reference is looked for, in order: beside
/// the template, and then in the shared assets directory, where a reference
/// that starts with `assets/` is read without that first component.
pub open spec fn asset_candidates_of(
    template_dir: Seq<char>,
    assets_dir: Seq<char>,
    reference: Seq<char>,
) -> (Seq<char>, Seq<char>) {
    let shared = if reference.len() >= 7 && reference.take(7) == "assets/"@ {
        crate::paths::path_join(assets_dir, reference.skip(7))
    } else if reference == "assets"@ {
        crate::paths::path_join(assets_dir, Seq::empty())
    } else {
        crate::paths::path_join(assets_dir, reference)
    };
    (crate::paths::path_join(template_dir, reference), shared)
}

/// Where an asset reference is looked for: beside the template, then among
/// the shared assets.
pub fn asset_candidates(template_dir: &str, assets_dir: &str, reference: &str) -> (candidates: (
    String,
    String,
))
    ensures
        candidates.0@ == asset_candidates_of(template_dir@, assets_dir@, reference@).0,
        candidates.1@ == asset_candidates_of(template_dir@, assets_dir@, reference@).1,
{
    let local = crate::paths::join(template_dir, reference);
    let chars = crate::text::chars_of(reference);
    let starts = crate::text::starts_with_text(reference, "assets/");
    proof {
        reveal_strlit("assets/");
        reveal_strlit("");
    }
    let shared = if starts {
        let rest = crate::text::string_of_range(&chars, 7, chars.len());
        assert(rest@ == reference@.skip(7));
        crate::paths::join(assets_dir, rest.as_str())
    } else if crate::text::same_text(reference, "assets") {
        crate::paths::join(assets_dir, "")
    } else {
        crate::paths::join(assets_dir, reference)
    };
    (local, shared)
}

/// The variables a template is composed with, by name: the station's
/// callsign under its legacy name `mycall` and as `station.callsign`, the
/// contact's callsign, the report sent, and the serial number.
pub open spec fn spec_template_variables(
    station_callsign: Seq<char>,
    contact_callsign: Seq<char>,
    report: Seq<char>,
    number: Seq<char>,
) -> Seq<(Seq<char>, Seq<char>)> {
    seq![
        ("mycall"@, station_callsign),
        ("station.callsign"@, station_callsign),
        ("contact.callsign"@, contact_callsign),
        ("report.sent"@, report),
        ("report.number"@, number),
    ]
}

/// The text variables a composition hands its template.
pub fn template_variables(
    station_callsign: &str,
    contact_callsign: &str,
    report: &str,
    number: &str,
) -> (variables: Vec<(String, String)>)
    ensures
        variables@.map_values(|v: (String, String)| (v.0@, v.1@)) == spec_template_variables(
            station_callsign@,
            contact_callsign@,
            report@,
            number@,
        ),
{
    let variables = vec![
        ("mycall".to_owned(), station_callsign.to_owned()),
        ("station.callsign".to_owned(), station_callsign.to_owned()),
        ("contact.callsign".to_owned(), contact_callsign.to_owned()),
        ("report.sent".to_owned(), report.to_owned()),
        ("report.number".to_owned(), number.to_owned()),
    ];
    assert(variables@.map_values(|v: (String, String)| (v.0@, v.1@)) =~= spec_template_variables(
        station_callsign@,
        contact_callsign@,
        report@,
        number@,
    ));
    variables
}

} // verus!
