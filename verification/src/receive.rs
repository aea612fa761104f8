//! What a reception reports while it runs, and what it leaves behind.

use vstd::prelude::*;

verus! {

/// A decoded image as the interface shows it: opaque RGBA, row by row.
#[derive(Clone, Debug, PartialEq, Eq)]
pub struct Frame {
    pub width: u32,
    pub height: u32,
    pub rgba: Vec<u8>,
}

impl Frame {
    /// Whether the pixel bytes cover exactly `width` × `height` pixels.
    pub open spec fn is_whole(&self) -> bool {
        self.rgba@.len() == self.width as int * self.height as int * 4
    }
}

/// A reception worth keeping, with what the kept file says about it.
#[derive(Clone, Debug, PartialEq, Eq)]
pub struct HistoryCandidate {
    /// The mode's name as the operator reads it, such as `Robot 36`.
    pub mode_name: String,
    /// The mode's short tag, as a kept file is named by it, such as `Robot36`.
    pub mode_tag: String,
    pub frame: Frame,
    pub received_at: String,
    pub fsk_ids: Vec<String>,
}

/// Progress of the current reception.
#[derive(Clone, Copy, Debug, PartialEq, Eq, Structural)]
pub enum Progress {
    /// No SSTV signal has been identified.
    Idle,
    /// A mode was detected and raster timing is being acquired.
    Acquiring,
    /// Rows are being decoded.
    Decoding { rows: usize, total: usize },
    /// Every row was decoded.
    Complete,
    /// Synchronization was lost and decoding stopped.
    Stopped,
}

impl Progress {
    pub open spec fn spec_is_active(self) -> bool {
        self is Acquiring || self is Decoding
    }

    /// Whether a reception is currently in progress.
    pub fn is_active(self) -> (active: bool)
        ensures
            active == self.spec_is_active(),
    {
        match self {
            Progress::Acquiring | Progress::Decoding { .. } => true,
            _ => false,
        }
    }

    /// The rows decoded out of the rows there are, when a raster is being
    /// decoded and has any rows; a reception that finished counts as whole.
    pub open spec fn spec_decoded_share(self) -> (nat, nat) {
        match self {
            Progress::Idle | Progress::Acquiring => (0, 1),
            Progress::Decoding { rows, total } => if total > 0 {
                (if rows <= total {
                    rows as nat
                } else {
                    total as nat
                }, total as nat)
            } else {
                (0, 1)
            },
            Progress::Complete | Progress::Stopped => (1, 1),
        }
    }

    /// The decoded share of the raster as a numerator over a nonzero
    /// denominator, never more than one.
    pub fn decoded_share(self) -> (share: (usize, usize))
        ensures
            (share.0 as nat, share.1 as nat) == self.spec_decoded_share(),
            share.1 > 0,
            share.0 <= share.1,
    {
        match self {
            Progress::Idle | Progress::Acquiring => (0, 1),
            Progress::Decoding { rows, total } => if total > 0 {
                (if rows <= total {
                    rows
                } else {
                    total
                }, total)
            } else {
                (0, 1)
            },
            Progress::Complete | Progress::Stopped => (1, 1),
        }
    }
}

/// `n` counted up to, and no further than, the largest `usize`.
pub open spec fn saturated(n: nat) -> nat {
    if n <= usize::MAX {
        n
    } else {
        usize::MAX as nat
    }
}

/// Whether a reception that got `completed_rows` of `total_rows` decoded is
/// worth keeping: at least 65 percent of a raster that has rows at all, the
/// two sides counted as far as a `usize` goes.
pub open spec fn spec_history_eligible(completed_rows: nat, total_rows: nat) -> bool {
    total_rows > 0 && saturated(completed_rows * 100) >= saturated(total_rows * 65)
}

/// Decides whether a reception is worth keeping.
pub fn history_eligible(completed_rows: usize, total_rows: usize) -> (eligible: bool)
    ensures
        eligible == spec_history_eligible(completed_rows as nat, total_rows as nat),
{
    if total_rows == 0 {
        return false;
    }
    let done = saturating_usize(completed_rows as u128 * 100);
    let needed = saturating_usize(total_rows as u128 * 65);
    done >= needed
}

/// `n` counted no further than the largest `usize`.
fn saturating_usize(n: u128) -> (s: usize)
    ensures
        s == saturated(n as nat),
{
    if n > usize::MAX as u128 {
        usize::MAX
    } else {
        n as usize
    }
}

/// Decoding more rows never makes a reception less worth keeping.
pub proof fn lemma_history_eligibility_is_monotonic(a: nat, b: nat, total: nat)
    requires
        a <= b,
        spec_history_eligible(a, total),
    ensures
        spec_history_eligible(b, total),
{
    assert(a * 100 <= b * 100) by (nonlinear_arith)
        requires
            a <= b,
    ;
    assert(saturated(a * 100) <= saturated(b * 100));
}

/// Trailing audio staged between staged-refinement attempts, in milliseconds.
pub const REFINEMENT_RETRY_MS: usize = 250;

/// Trailing audio staged before staged refinement is abandoned, in seconds.
pub const REFINEMENT_TAIL_SECONDS: usize = 15;

pub open spec fn spec_retry_step(sample_rate_hz: nat) -> nat {
    let step = sample_rate_hz * 250 / 1000;
    if step >= 1 {
        step
    } else {
        1
    }
}

/// Samples of trailing audio between staged-refinement attempts: a quarter
/// second of them, and never none.
pub fn retry_step(sample_rate_hz: usize) -> (step: usize)
    requires
        sample_rate_hz * 250 <= usize::MAX,
    ensures
        step == spec_retry_step(sample_rate_hz as nat),
        step >= 1,
{
    let step = sample_rate_hz * REFINEMENT_RETRY_MS / 1000;
    if step >= 1 {
        step
    } else {
        1
    }
}

/// What the receiver reports about itself on each pass.
#[derive(Clone, Debug)]
pub struct Snapshot {
    pub progress: Progress,
    /// The latest frame, when one is due.
    pub frame: Option<Frame>,
    /// A reception worth keeping, once.
    pub history: Option<HistoryCandidate>,
    /// Every station identifier decoded so far.
    pub callsigns: Vec<String>,
    pub dropped_samples: u64,
    pub error: Option<String>,
}

impl Default for Snapshot {
    /// Nothing received, nothing to report.
    fn default() -> (snapshot: Snapshot)
        ensures
            snapshot.progress == Progress::Idle,
            snapshot.frame is None,
            snapshot.history is None,
            snapshot.callsigns@.len() == 0,
            snapshot.dropped_samples == 0,
            snapshot.error is None,
    {
        Snapshot {
            progress: Progress::Idle,
            frame: None,
            history: None,
            callsigns: Vec::new(),
            dropped_samples: 0,
            error: None,
        }
    }
}

/// `next`, or what was waiting when `next` has nothing.
pub open spec fn kept<T>(waiting: Option<T>, next: Option<T>) -> Option<T> {
    if next is Some {
        next
    } else {
        waiting
    }
}

/// What the slot holds once `next` is published over `waiting`: the newest
/// snapshot, carrying each payload the older one had and the newer one
/// does not.
pub open spec fn published_over(waiting: Option<Snapshot>, next: Snapshot) -> Snapshot {
    match waiting {
        None => next,
        Some(w) => Snapshot {
            frame: kept(w.frame, next.frame),
            history: kept(w.history, next.history),
            error: kept(w.error, next.error),
            ..next
        },
    }
}

/// A single-slot handoff holding the newest observation: the interface only
/// ever uses the newest snapshot, so publishing overwrites the slot rather
/// than queueing, and an interface that stops collecting cannot make the
/// receiver pile snapshots up.
#[derive(Debug)]
pub struct Mailbox {
    slot: Option<Snapshot>,
}

impl Mailbox {
    pub closed spec fn pending(&self) -> Option<Snapshot> {
        self.slot
    }

    /// An empty slot.
    pub fn new() -> (mailbox: Mailbox)
        ensures
            mailbox.pending() is None,
    {
        Mailbox { slot: None }
    }

    /// Replaces the pending snapshot, keeping payloads not yet collected.
    pub fn publish(&mut self, snapshot: Snapshot)
        ensures
            final(self).pending() == Some(published_over(old(self).pending(), snapshot)),
    {
        let next = match self.slot.take() {
            None => snapshot,
            Some(previous) => {
                let mut snapshot = snapshot;
                if snapshot.frame.is_none() {
                    snapshot.frame = previous.frame;
                }
                if snapshot.history.is_none() {
                    snapshot.history = previous.history;
                }
                if snapshot.error.is_none() {
                    snapshot.error = previous.error;
                }
                snapshot
            },
        };
        self.slot = Some(next);
    }

    /// Collects the pending snapshot, leaving the slot empty.
    pub fn take(&mut self) -> (snapshot: Option<Snapshot>)
        ensures
            snapshot == old(self).pending(),
            final(self).pending() is None,
    {
        self.slot.take()
    }
}

/// The texts of `list`, each by its characters.
pub open spec fn texts_of(list: Seq<String>) -> Seq<Seq<char>> {
    list.map_values(|t: String| t@)
}

/// `list` with `text` added at the end, unless it is already there.
pub open spec fn remembered(list: Seq<Seq<char>>, text: Seq<char>) -> Seq<Seq<char>> {
    if list.contains(text) {
        list
    } else {
        list.push(text)
    }
}

/// `list` once each of `ids` has been remembered, in order.
pub open spec fn remembered_all(list: Seq<Seq<char>>, ids: Seq<Seq<char>>) -> Seq<Seq<char>>
    decreases ids.len(),
{
    if ids.len() == 0 {
        list
    } else {
        remembered(remembered_all(list, ids.drop_last()), ids.last())
    }
}

/// Remembering a batch and then another is remembering both.
proof fn lemma_remembered_all_append(list: Seq<Seq<char>>, a: Seq<Seq<char>>, b: Seq<Seq<char>>)
    ensures
        remembered_all(list, a + b) == remembered_all(remembered_all(list, a), b),
    decreases b.len(),
{
    if b.len() == 0 {
        assert(a + b =~= a);
    } else {
        assert((a + b).drop_last() =~= a + b.drop_last());
        lemma_remembered_all_append(list, a, b.drop_last());
    }
}

/// Remembering keeps what was there in front, and adds no text twice.
proof fn lemma_remembered_all_grows(list: Seq<Seq<char>>, ids: Seq<Seq<char>>)
    requires
        list.no_duplicates(),
    ensures
        list.is_prefix_of(remembered_all(list, ids)),
        remembered_all(list, ids).no_duplicates(),
    decreases ids.len(),
{
    if ids.len() > 0 {
        lemma_remembered_all_grows(list, ids.drop_last());
        let before = remembered_all(list, ids.drop_last());
        if !before.contains(ids.last()) {
            assert(before.is_prefix_of(before.push(ids.last())));
            assert forall|i: int, j: int| 0 <= i < j < before.len() + 1 implies before.push(ids.last())[i]
                != before.push(ids.last())[j] by {
                if j == before.len() {
                    assert(before[i] == before.push(ids.last())[i]);
                }
            }
        }
        assert(list.is_prefix_of(remembered_all(list, ids))) by {
            assert forall|k: int| 0 <= k < list.len() implies list[k] == remembered_all(list, ids)[k] by {
                assert(list[k] == before[k]);
            }
        }
    }
}

/// The station identifiers a receiver publishes only accumulate: whatever
/// identifiers arrive, each snapshot's list holds every one of them once, in
/// the order it was first decoded, and every later snapshot's list starts
/// with it.
pub proof fn lemma_decoded_callsigns_only_accumulate(arrived: Seq<Seq<char>>, later: Seq<Seq<char>>)
    ensures
        remembered_all(Seq::empty(), arrived).no_duplicates(),
        remembered_all(Seq::empty(), arrived).is_prefix_of(remembered_all(Seq::empty(), arrived + later)),
{
    let none = Seq::<Seq<char>>::empty();
    lemma_remembered_all_grows(none, arrived);
    lemma_remembered_all_append(none, arrived, later);
    lemma_remembered_all_grows(remembered_all(none, arrived), later);
}

/// Adds `text` to `list` unless it is already there, so the list holds each
/// identifier once, in the order they were first decoded.
pub fn remember(list: &mut Vec<String>, text: String)
    ensures
        texts_of(final(list)@) == remembered(texts_of(old(list)@), text@),
        (exists|i: int| 0 <= i < old(list)@.len() && old(list)@[i]@ == text@) ==> final(list)@ == old(list)@,
        !(exists|i: int| 0 <= i < old(list)@.len() && old(list)@[i]@ == text@) ==> final(list)@ == old(list)@.push(
            text,
        ),
{
    let mut i: usize = 0;
    while i < list.len()
        invariant
            i <= list.len(),
            forall|k: int| 0 <= k < i ==> list@[k]@ != text@,
        decreases list.len() - i,
    {
        if crate::text::same_text(list[i].as_str(), text.as_str()) {
            assert(texts_of(list@)[i as int] == text@);
            return;
        }
        i += 1;
    }
    let ghost before = list@;
    assert(!texts_of(before).contains(text@)) by {
        if texts_of(before).contains(text@) {
            let k = choose|k: int| 0 <= k < texts_of(before).len() && texts_of(before)[k] == text@;
            assert(before[k]@ == text@);
        }
    }
    list.push(text);
    assert(texts_of(list@) =~= texts_of(before).push(list@[before.len() as int]@));
}

/// Longest a reception may stall before it is stopped, in milliseconds.
pub const STALL_TIMEOUT_MS: u64 = 20_000;

/// How long a finished reception waits for its station identifier before it
/// is kept without one, in milliseconds.
pub const FSK_HISTORY_WAIT_MS: u64 = 4_000;

/// Shortest interval between published frames, in milliseconds.
pub const FRAME_INTERVAL_MS: u64 = 33;

/// What the receiver keeps track of between passes, with times in
/// milliseconds on a clock that only moves forward.
#[derive(Clone, Copy, Debug, PartialEq, Eq, Structural)]
pub struct ReceiveClock {
    /// The progress the last pass saw.
    pub last_progress: Progress,
    /// When the progress last changed.
    pub progress_changed_at: u64,
    /// When a finished reception stops waiting for its identifier.
    pub history_deadline: Option<u64>,
    /// When a frame was last published.
    pub last_frame: Option<u64>,
}

impl ReceiveClock {
    /// Nothing seen yet, as of `now`.
    pub fn new(now: u64) -> (clock: ReceiveClock)
        ensures
            clock == (ReceiveClock {
                last_progress: Progress::Idle,
                progress_changed_at: now,
                history_deadline: None,
                last_frame: None,
            }),
    {
        ReceiveClock { last_progress: Progress::Idle, progress_changed_at: now, history_deadline: None, last_frame: None }
    }

    /// Whether the reception has to be stopped on this pass: one the decoder
    /// stopped itself, or a live one whose progress has not moved for
    /// `STALL_TIMEOUT_MS`. A progress that moved is noted with the time it
    /// moved at.
    pub fn must_interrupt(&mut self, progress: Progress, now: u64) -> (interrupt: bool)
        requires
            old(self).progress_changed_at <= now,
        ensures
            interrupt == (progress == Progress::Stopped || (progress == old(self).last_progress
                && progress.spec_is_active() && now - old(self).progress_changed_at >= STALL_TIMEOUT_MS)),
            !interrupt && progress != old(self).last_progress ==> final(self).last_progress == progress
                && final(self).progress_changed_at == now,
            !interrupt && progress == old(self).last_progress ==> *final(self) == *old(self),
            interrupt ==> *final(self) == *old(self),
    {
        if progress == Progress::Stopped {
            return true;
        }
        if progress == self.last_progress {
            return progress.is_active() && now - self.progress_changed_at >= STALL_TIMEOUT_MS;
        }
        self.last_progress = progress;
        self.progress_changed_at = now;
        false
    }

    /// Notes what the reception reads as once it has been stopped: its
    /// progress from now on, and no identifier to wait for.
    pub fn interrupted(&mut self, progress: Progress, now: u64)
        ensures
            final(self).last_progress == progress,
            final(self).progress_changed_at == now,
            final(self).history_deadline is None,
            final(self).last_frame == old(self).last_frame,
    {
        self.last_progress = progress;
        self.progress_changed_at = now;
        self.history_deadline = None;
    }

    /// Whether a finished reception is ready to be kept: once its
    /// identifier has been decoded, or once it has waited `FSK_HISTORY_WAIT_MS`
    /// for one. The wait starts on the first pass that sees it finished.
    pub fn history_ready(&mut self, finished: bool, identified: bool, now: u64) -> (ready: bool)
        requires
            now + FSK_HISTORY_WAIT_MS <= u64::MAX,
        ensures
            !finished ==> !ready && *final(self) == *old(self),
            finished ==> final(self).history_deadline == Some(match old(self).history_deadline {
                Some(d) => d,
                None => (now + FSK_HISTORY_WAIT_MS) as u64,
            }),
            finished ==> ready == (identified || now >= final(self).history_deadline->0),
            final(self).last_progress == old(self).last_progress,
            final(self).progress_changed_at == old(self).progress_changed_at,
            final(self).last_frame == old(self).last_frame,
    {
        if !finished {
            return false;
        }
        let deadline = match self.history_deadline {
            Some(d) => d,
            None => now + FSK_HISTORY_WAIT_MS,
        };
        self.history_deadline = Some(deadline);
        identified || now >= deadline
    }

    /// Starts waiting for the next reception once one has been kept.
    pub fn history_taken(&mut self)
        ensures
            *final(self) == (ReceiveClock { history_deadline: None, ..*old(self) }),
    {
        self.history_deadline = None;
    }

    /// Whether a frame is due on this pass: always for a finished
    /// reception, and otherwise once `FRAME_INTERVAL_MS` has passed since the
    /// last one.
    pub fn frame_due(&self, finished: bool, now: u64) -> (due: bool)
        ensures
            due == (finished || match self.last_frame {
                Some(at) => now >= at + FRAME_INTERVAL_MS,
                None => true,
            }),
    {
        if finished {
            return true;
        }
        match self.last_frame {
            Some(at) => now >= at && now - at >= FRAME_INTERVAL_MS,
            None => true,
        }
    }

    /// Notes that a frame went out at `now`.
    pub fn frame_sent(&mut self, now: u64)
        ensures
            *final(self) == (ReceiveClock { last_frame: Some(now), ..*old(self) }),
    {
        self.last_frame = Some(now);
    }
}

/// Publishing twice before anything is collected loses no payload: whatever
/// the first publication carried and the second did not is still there.
pub proof fn lemma_uncollected_payloads_survive<T>(first: Option<T>, second: Option<T>)
    ensures
        first is Some ==> kept(first, second) is Some,
        second is Some ==> kept(first, second) == second,
{
}

} // verus!
