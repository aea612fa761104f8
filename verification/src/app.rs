//! The interface state that sits behind the widgets.

use vstd::prelude::*;
use crate::text::{
    ascii_uppercase, has_lowercase, parse_u32, parsed_u32, same_text, to_ascii_uppercase, to_uppercase,
    trim, trimmed, unicode_is_lowercase, unicode_uppercase, decimal_digits, zero_padded,
    format_zero_padded,
};
use crate::platform::Activity;
use crate::receive::Progress;
use crate::transmit::{RasterTiming, TxPhase, TxProgress};
use crate::text::{text_before, text_less};

verus! {

/// The two halves of the interface.
#[derive(Clone, Copy, Debug, PartialEq, Eq, Structural)]
pub enum Tab {
    Receive,
    Transmit,
}

impl Tab {
    /// Every tab, in the order the tab bar shows them.
    pub fn all() -> (tabs: [Tab; 2])
        ensures
            tabs@ == seq![Tab::Receive, Tab::Transmit],
    {
        [Tab::Receive, Tab::Transmit]
    }

    /// The tab an interface opens on.
    pub fn default_tab() -> (tab: Tab)
        ensures
            tab == Tab::Receive,
    {
        Tab::Receive
    }

    pub open spec fn spec_label_key(self) -> Seq<char> {
        match self {
            Tab::Receive => "tab-receive"@,
            Tab::Transmit => "tab-transmit"@,
        }
    }

    /// The message key the tab is labelled by.
    pub fn label_key(self) -> (key: &'static str)
        ensures
            key@ == self.spec_label_key(),
    {
        match self {
            Tab::Receive => "tab-receive",
            Tab::Transmit => "tab-transmit",
        }
    }
}

/// The signal processing the operator can switch on and off.
#[derive(Clone, Copy, Debug, PartialEq, Eq, Structural)]
pub enum Dsp {
    Afc,
    Lms,
    Slant,
}

impl Dsp {
    /// Every switch, in the order the panel shows them.
    pub fn all() -> (switches: [Dsp; 3])
        ensures
            switches@ == seq![Dsp::Afc, Dsp::Lms, Dsp::Slant],
    {
        [Dsp::Afc, Dsp::Lms, Dsp::Slant]
    }

    pub open spec fn spec_label_key(self) -> Seq<char> {
        match self {
            Dsp::Afc => "dsp-afc"@,
            Dsp::Lms => "dsp-lms"@,
            Dsp::Slant => "dsp-slant"@,
        }
    }

    /// The message key the switch is labelled by.
    pub fn label_key(self) -> (key: &'static str)
        ensures
            key@ == self.spec_label_key(),
    {
        match self {
            Dsp::Afc => "dsp-afc",
            Dsp::Lms => "dsp-lms",
            Dsp::Slant => "dsp-slant",
        }
    }
}

/// Which of the signal processing switches are on.
#[derive(Clone, Copy, Debug, PartialEq, Eq, Structural)]
pub struct DspFlags {
    pub afc: bool,
    pub lms_filter: bool,
    pub live_slant: bool,
}

impl Default for DspFlags {
    /// Frequency tracking and slant correction on, the adaptive filter off.
    fn default() -> (flags: DspFlags)
        ensures
            flags == (DspFlags { afc: true, lms_filter: false, live_slant: true }),
    {
        DspFlags { afc: true, lms_filter: false, live_slant: true }
    }
}

impl DspFlags {
    pub open spec fn spec_get(self, dsp: Dsp) -> bool {
        match dsp {
            Dsp::Afc => self.afc,
            Dsp::Lms => self.lms_filter,
            Dsp::Slant => self.live_slant,
        }
    }

    /// Whether `dsp` is switched on.
    pub fn get(self, dsp: Dsp) -> (on: bool)
        ensures
            on == self.spec_get(dsp),
    {
        match dsp {
            Dsp::Afc => self.afc,
            Dsp::Lms => self.lms_filter,
            Dsp::Slant => self.live_slant,
        }
    }

    /// Flips `dsp`, leaving the other switches as they were.
    pub fn toggle(&mut self, dsp: Dsp)
        ensures
            final(self).spec_get(dsp) == !old(self).spec_get(dsp),
            forall|other: Dsp| other != dsp ==> final(self).spec_get(other) == old(self).spec_get(other),
    {
        match dsp {
            Dsp::Afc => self.afc = !self.afc,
            Dsp::Lms => self.lms_filter = !self.lms_filter,
            Dsp::Slant => self.live_slant = !self.live_slant,
        }
    }
}

/// Flipping the same switch twice puts every switch back where it was.
pub proof fn lemma_toggle_twice_restores(flags: DspFlags, once: DspFlags, twice: DspFlags, dsp: Dsp)
    requires
        once.spec_get(dsp) == !flags.spec_get(dsp),
        forall|other: Dsp| other != dsp ==> once.spec_get(other) == flags.spec_get(other),
        twice.spec_get(dsp) == !once.spec_get(dsp),
        forall|other: Dsp| other != dsp ==> twice.spec_get(other) == once.spec_get(other),
    ensures
        twice == flags,
{
    assert(twice.spec_get(Dsp::Afc) == flags.spec_get(Dsp::Afc));
    assert(twice.spec_get(Dsp::Lms) == flags.spec_get(Dsp::Lms));
    assert(twice.spec_get(Dsp::Slant) == flags.spec_get(Dsp::Slant));
}

/// The report offered before the operator has changed it.
pub const DEFAULT_RSV: &'static str = "595";

/// The serial number a fresh log starts from: three digits, which is how a
/// serial is given whatever its value.
pub const FIRST_QSO_NUMBER: &'static str = "001";

/// The report a received contest number is read as.
pub const RECEIVED_REPORT: &'static str = "595";

/// The contact being worked.
#[derive(Clone, Debug)]
pub struct Qso {
    pub call: String,
    /// The report the other station gave.
    pub rsv_received: String,
    pub rsv: String,
    /// The serial number being sent, as text: an exchange that is not a plain
    /// serial is typed here too.
    pub number: String,
}

impl Default for Qso {
    /// No contact yet, the usual report, and the first serial.
    fn default() -> (qso: Qso)
        ensures
            qso.call@ == Seq::<char>::empty(),
            qso.rsv_received@ == Seq::<char>::empty(),
            qso.rsv@ == "595"@,
            qso.number@ == "001"@,
    {
        Qso {
            call: String::new(),
            rsv_received: String::new(),
            rsv: DEFAULT_RSV.to_owned(),
            number: FIRST_QSO_NUMBER.to_owned(),
        }
    }
}

/// Takes the white space off the ends of a finished field, reporting whether
/// there was any.
pub fn trim_in_place(text: &mut String) -> (trimmed_any: bool)
    ensures
        final(text)@ == trimmed(old(text)@),
        trimmed_any == (trimmed(old(text)@) != old(text)@),
{
    let t = trim(text.as_str());
    if same_text(t.as_str(), text.as_str()) {
        false
    } else {
        *text = t;
        true
    }
}

/// What `increment_number` makes of a serial: the number after it, counted
/// no higher than `u32` goes and written with at least three digits; text
/// that is not a number is left as it is.
pub open spec fn next_serial(number: Seq<char>) -> Seq<char> {
    match parsed_u32(trimmed(number)) {
        Some(n) => zero_padded(
            decimal_digits(if n < u32::MAX { (n + 1) as nat } else { u32::MAX as nat }),
            3,
        ),
        None => number,
    }
}

impl Qso {
    /// Uppercases the callsign when it holds any lowercase letter.
    pub fn normalize_call(&mut self)
        ensures
            final(self).call@ == (if exists|i: int|
                0 <= i < old(self).call@.len() && unicode_is_lowercase(#[trigger] old(self).call@[i]) {
                unicode_uppercase(old(self).call@)
            } else {
                old(self).call@
            }),
            final(self).rsv@ == old(self).rsv@,
            final(self).rsv_received@ == old(self).rsv_received@,
            final(self).number@ == old(self).number@,
    {
        if has_lowercase(self.call.as_str()) {
            self.call = to_uppercase(self.call.as_str());
        }
    }

    /// Trims every field once the operator has left it, reporting whether
    /// any of them changed.
    pub fn finish_edit(&mut self) -> (changed: bool)
        ensures
            final(self).call@ == trimmed(old(self).call@),
            final(self).rsv@ == trimmed(old(self).rsv@),
            final(self).rsv_received@ == trimmed(old(self).rsv_received@),
            final(self).number@ == trimmed(old(self).number@),
            changed == (final(self).call@ != old(self).call@ || final(self).rsv@ != old(self).rsv@
                || final(self).rsv_received@ != old(self).rsv_received@
                || final(self).number@ != old(self).number@),
    {
        let a = trim_in_place(&mut self.call);
        let b = trim_in_place(&mut self.rsv);
        let c = trim_in_place(&mut self.rsv_received);
        let d = trim_in_place(&mut self.number);
        a || b || c || d
    }

    /// Counts the serial on for the next contact, reporting whether it was a
    /// number to count.
    pub fn increment_number(&mut self) -> (counted: bool)
        ensures
            counted == parsed_u32(trimmed(old(self).number@)) is Some,
            final(self).number@ == next_serial(old(self).number@),
            final(self).call@ == old(self).call@,
            final(self).rsv@ == old(self).rsv@,
            final(self).rsv_received@ == old(self).rsv_received@,
    {
        let t = trim(self.number.as_str());
        match parse_u32(t.as_str()) {
            None => false,
            Some(n) => {
                let next: u32 = if n < u32::MAX { n + 1 } else { u32::MAX };
                self.number = format_zero_padded(next as u64, 3);
                true
            },
        }
    }

    /// Takes the serial back to the one a contest starts on.
    pub fn reset_number(&mut self)
        ensures
            final(self).number@ == "001"@,
            final(self).call@ == old(self).call@,
            final(self).rsv@ == old(self).rsv@,
            final(self).rsv_received@ == old(self).rsv_received@,
    {
        self.number = FIRST_QSO_NUMBER.to_owned();
    }
}

/// The characters of `s` from `'0'` up, in order.
pub open spec fn from_digit_zero(s: Seq<char>) -> Seq<char>
    decreases s.len(),
{
    if s.len() == 0 {
        s
    } else if s.last() >= '0' {
        from_digit_zero(s.drop_last()).push(s.last())
    } else {
        from_digit_zero(s.drop_last())
    }
}

/// The text a contest number is sent as: uppercased, with everything below
/// `'0'` taken out, or nothing outside contest mode.
pub fn contest_number_text(number: &str, contest_mode: bool) -> (text: Option<String>)
    ensures
        !contest_mode ==> text is None,
        contest_mode ==> text is Some && text->0@ == from_digit_zero(ascii_uppercase(number@)),
{
    if !contest_mode {
        return None;
    }
    let upper = to_ascii_uppercase(number);
    let chars = crate::text::chars_of(upper.as_str());
    let mut kept: Vec<char> = Vec::new();
    let mut i: usize = 0;
    while i < chars.len()
        invariant
            i <= chars.len(),
            chars@ == ascii_uppercase(number@),
            kept@ == from_digit_zero(chars@.take(i as int)),
        decreases chars.len() - i,
    {
        assert(chars@.take(i + 1).drop_last() == chars@.take(i as int));
        if chars[i] >= '0' {
            kept.push(chars[i]);
        }
        i += 1;
    }
    assert(chars@.take(chars.len() as int) == chars@);
    Some(crate::text::string_of(kept.as_slice()))
}

/// What the station says about itself.
#[derive(Clone, Debug)]
pub struct Station {
    pub callsign: String,
    pub qth: String,
    pub grid: String,
    /// Set while the station dialog is open.
    pub open: bool,
}

impl Station {
    /// Takes up what the operator typed: a trimmed, uppercased callsign and
    /// a trimmed location and grid.
    pub fn normalize(&mut self)
        ensures
            final(self).callsign@ == ascii_uppercase(trimmed(old(self).callsign@)),
            final(self).qth@ == trimmed(old(self).qth@),
            final(self).grid@ == trimmed(old(self).grid@),
            final(self).open == old(self).open,
    {
        let t = trim(self.callsign.as_str());
        self.callsign = to_ascii_uppercase(t.as_str());
        trim_in_place(&mut self.qth);
        trim_in_place(&mut self.grid);
    }
}

/// How far the QSO panel has followed what the receiver decoded.
///
/// The receiver republishes every identifier and contest number it has
/// decoded on each snapshot, so the counts already taken up are what tell a
/// new arrival from the same list seen again. A reopened device starts a new
/// session with empty lists, and the counts start over with it.
#[derive(Clone, Copy, Debug, PartialEq, Eq, Structural)]
pub struct DecodedFollower {
    pub callsigns: usize,
    pub numbers: usize,
    pub session: u64,
}

/// What adopting the newest of `decoded` does to `field`, given that
/// `adopted` of them were taken up before: only a change in the count is an
/// arrival, and a blank arrival names nothing.
pub open spec fn adopted_text(field: Seq<char>, decoded: Seq<Seq<char>>, adopted: nat, prefix: Seq<char>) -> Seq<char> {
    if decoded.len() == adopted || decoded.len() == 0 || trimmed(decoded.last()).len() == 0 {
        field
    } else {
        prefix + trimmed(decoded.last())
    }
}

/// The texts of `v`, each by its characters.
pub open spec fn texts(v: Seq<String>) -> Seq<Seq<char>> {
    v.map_values(|t: String| t@)
}

impl DecodedFollower {
    /// Nothing followed yet, in the first session.
    pub fn new() -> (follower: DecodedFollower)
        ensures
            follower == (DecodedFollower { callsigns: 0, numbers: 0, session: 0 }),
    {
        DecodedFollower { callsigns: 0, numbers: 0, session: 0 }
    }

    /// Starts the counts over when the receiver's session has changed.
    pub fn follow_session(&mut self, session: u64)
        ensures
            final(self).session == session,
            session != old(self).session ==> final(self).callsigns == 0 && final(self).numbers == 0,
            session == old(self).session ==> *final(self) == *old(self),
    {
        if session != self.session {
            self.session = session;
            self.callsigns = 0;
            self.numbers = 0;
        }
    }

    /// Puts a newly decoded station identifier in the contact field,
    /// reporting whether the field changed.
    pub fn adopt_callsign(&mut self, decoded: &Vec<String>, call: &mut String) -> (changed: bool)
        ensures
            final(self).callsigns == decoded.len(),
            final(self).numbers == old(self).numbers,
            final(self).session == old(self).session,
            final(call)@ == adopted_text(old(call)@, texts(decoded@), old(self).callsigns as nat, Seq::empty()),
            changed == (final(call)@ != old(call)@),
    {
        if decoded.len() == self.callsigns {
            return false;
        }
        self.callsigns = decoded.len();
        if decoded.len() == 0 {
            return false;
        }
        let last = &decoded[decoded.len() - 1];
        let t = trim(last.as_str());
        proof {
            assert(texts(decoded@).last() == decoded@.last()@);
        }
        if t.as_str().unicode_len() == 0 {
            return false;
        }
        assert(Seq::<char>::empty() + t@ == t@);
        if same_text(t.as_str(), call.as_str()) {
            return false;
        }
        *call = t;
        true
    }

    /// Puts a newly decoded contest number in the received report field, read
    /// as the report the number is given with, reporting whether the field
    /// changed.
    pub fn adopt_number(&mut self, decoded: &Vec<String>, rsv_received: &mut String) -> (changed: bool)
        ensures
            final(self).numbers == decoded.len(),
            final(self).callsigns == old(self).callsigns,
            final(self).session == old(self).session,
            final(rsv_received)@ == adopted_text(old(rsv_received)@, texts(decoded@), old(self).numbers as nat, "595"@),
            changed == (final(rsv_received)@ != old(rsv_received)@),
    {
        if decoded.len() == self.numbers {
            return false;
        }
        self.numbers = decoded.len();
        if decoded.len() == 0 {
            return false;
        }
        let last = &decoded[decoded.len() - 1];
        let t = trim(last.as_str());
        proof {
            assert(texts(decoded@).last() == decoded@.last()@);
        }
        if t.as_str().unicode_len() == 0 {
            return false;
        }
        let mut report = RECEIVED_REPORT.to_owned();
        report.append(t.as_str());
        if same_text(report.as_str(), rsv_received.as_str()) {
            return false;
        }
        *rsv_received = report;
        true
    }
}

/// Seeing the same decoded list again changes nothing: the second look finds
/// the count it left and leaves the field as the first look left it.
pub proof fn lemma_same_list_adopted_once(field: Seq<char>, decoded: Seq<Seq<char>>, prefix: Seq<char>)
    ensures
        adopted_text(field, decoded, decoded.len(), prefix) == field,
{
}

/// Why a picture cannot go out, in the order the operator is told.
#[derive(Clone, Debug, PartialEq, Eq)]
pub enum TransmitProblem {
    /// The tune tone holds the stream and the rig.
    ToneActive,
    /// The station callsign cannot name the station, for the reason given.
    InvalidStationCall(String),
    /// Nothing has been composed to send.
    NoTransmitFrame,
    /// No output device is open.
    NoOutputDevice,
    /// Rig control is on and the rig cannot be handed a transmission.
    RigUnavailable(String),
}

/// Why the tune tone cannot go out.
#[derive(Clone, Debug, PartialEq, Eq)]
pub enum TuneProblem {
    /// A picture is already going out.
    TransmitActive,
    NoOutputDevice,
    RigUnavailable(String),
}

/// What stops a transmission at the rig, if anything: only a rig the
/// operator switched on and that is not ready; what it said about itself,
/// when it said anything, is more use than the state it is in.
pub fn rig_problem(enabled: bool, ready: bool, error: Option<String>, state_text: String) -> (problem: Option<String>)
    ensures
        problem is Some <==> (enabled && !ready),
        problem is Some ==> problem->0 == (match error {
            Some(e) => e,
            None => state_text,
        }),
{
    if !enabled || ready {
        return None;
    }
    match error {
        Some(e) => Some(e),
        None => Some(state_text),
    }
}

/// The first thing standing in the way of sending a picture: a running
/// tone, then a station that cannot be named, then a missing frame, then a
/// missing output device, then the rig.
pub open spec fn spec_transmit_problem(
    tuning: bool,
    station_call: Result<(), String>,
    has_frame: bool,
    has_output_device: bool,
    rig: Option<String>,
) -> Option<TransmitProblem> {
    if tuning {
        Some(TransmitProblem::ToneActive)
    } else if station_call is Err {
        Some(TransmitProblem::InvalidStationCall(station_call->Err_0))
    } else if !has_frame {
        Some(TransmitProblem::NoTransmitFrame)
    } else if !has_output_device {
        Some(TransmitProblem::NoOutputDevice)
    } else {
        match rig {
            Some(detail) => Some(TransmitProblem::RigUnavailable(detail)),
            None => None,
        }
    }
}

/// Reports why a picture cannot go out, if it cannot.
pub fn transmit_problem(
    tuning: bool,
    station_call: Result<(), String>,
    has_frame: bool,
    has_output_device: bool,
    rig: Option<String>,
) -> (problem: Option<TransmitProblem>)
    ensures
        problem == spec_transmit_problem(tuning, station_call, has_frame, has_output_device, rig),
{
    if tuning {
        return Some(TransmitProblem::ToneActive);
    }
    match station_call {
        Err(reason) => {
            return Some(TransmitProblem::InvalidStationCall(reason));
        },
        Ok(()) => {},
    }
    if !has_frame {
        return Some(TransmitProblem::NoTransmitFrame);
    }
    if !has_output_device {
        return Some(TransmitProblem::NoOutputDevice);
    }
    match rig {
        Some(detail) => Some(TransmitProblem::RigUnavailable(detail)),
        None => None,
    }
}

/// Reports why the tune tone cannot go out, if it cannot: a tone carries no
/// image and names no station, so only a running picture, the output device
/// and the rig stand in its way.
pub fn tune_problem(picture_active: bool, has_output_device: bool, rig: Option<String>) -> (problem: Option<TuneProblem>)
    ensures
        picture_active ==> problem == Some(TuneProblem::TransmitActive),
        !picture_active && !has_output_device ==> problem == Some(TuneProblem::NoOutputDevice),
        !picture_active && has_output_device ==> problem == (match rig {
            Some(detail) => Some(TuneProblem::RigUnavailable(detail)),
            None => None::<TuneProblem>,
        }),
{
    if picture_active {
        return Some(TuneProblem::TransmitActive);
    }
    if !has_output_device {
        return Some(TuneProblem::NoOutputDevice);
    }
    match rig {
        Some(detail) => Some(TuneProblem::RigUnavailable(detail)),
        None => None,
    }
}

/// Whether the audio may start: a transmission that keyed the rig waits for
/// the rig to say it is transmitting.
pub fn rig_ready_to_send(keyed: bool, rig_transmitting: bool) -> (ready: bool)
    ensures
        ready == (!keyed || rig_transmitting),
{
    !keyed || rig_transmitting
}

/// Where a transmission's failure came from, which decides what the
/// operator is told.
#[derive(Clone, Copy, Debug, PartialEq, Eq, Structural)]
pub enum FailureSource {
    /// The worker producing the audio failed.
    Worker,
    /// The rig refused a command while keyed for this transmission.
    Rig,
    /// The output ran dry while the audio was being heard.
    Underrun,
}

/// What the interface does about a transmission on this frame.
#[derive(Clone, Copy, Debug, PartialEq, Eq, Structural)]
pub enum TransmitStep {
    /// Nothing to do.
    Continue,
    /// Start the output stream now.
    StartPlayback,
    /// End the transmission in this phase.
    Finish(TxPhase),
    /// End the transmission as failed.
    Fail(FailureSource),
}

/// What the interface knows about a running transmission on a frame.
#[derive(Clone, Copy, Debug, PartialEq, Eq, Structural)]
pub struct TransmitWatch {
    /// A tune tone's time is up.
    pub tune_expired: bool,
    /// A worker is producing audio.
    pub worker_running: bool,
    /// The phase the worker last reported.
    pub phase: TxPhase,
    /// The transmission asked for the rig to be keyed.
    pub rig_keyed: bool,
    /// The rig reported an error.
    pub rig_failed: bool,
    /// The rig says it is transmitting.
    pub rig_transmitting: bool,
    /// The output stream has been started.
    pub playback_started: bool,
}

pub open spec fn spec_transmit_step(w: TransmitWatch) -> TransmitStep {
    if w.tune_expired {
        TransmitStep::Finish(TxPhase::Complete)
    } else if !w.worker_running {
        TransmitStep::Continue
    } else if w.phase == TxPhase::Failed {
        TransmitStep::Fail(FailureSource::Worker)
    } else if w.rig_keyed && w.rig_failed {
        TransmitStep::Fail(FailureSource::Rig)
    } else if !w.playback_started && (!w.rig_keyed || w.rig_transmitting) && (w.phase
        == TxPhase::Producing || w.phase == TxPhase::Draining) {
        TransmitStep::StartPlayback
    } else {
        TransmitStep::Continue
    }
}

/// Decides what a running transmission needs before the output is looked
/// at: a tone past its time ends, a failed worker or a rig that refused its
/// keying fails it, and audio that is ready for a ready rig starts.
pub fn transmit_step(w: TransmitWatch) -> (step: TransmitStep)
    ensures
        step == spec_transmit_step(w),
{
    if w.tune_expired {
        return TransmitStep::Finish(TxPhase::Complete);
    }
    if !w.worker_running {
        return TransmitStep::Continue;
    }
    if w.phase == TxPhase::Failed {
        return TransmitStep::Fail(FailureSource::Worker);
    }
    if w.rig_keyed && w.rig_failed {
        return TransmitStep::Fail(FailureSource::Rig);
    }
    let producing = match w.phase {
        TxPhase::Producing | TxPhase::Draining => true,
        _ => false,
    };
    if !w.playback_started && rig_ready_to_send(w.rig_keyed, w.rig_transmitting) && producing {
        TransmitStep::StartPlayback
    } else {
        TransmitStep::Continue
    }
}

/// Decides what the output says about a running transmission: a stream
/// that ran dry fails it, and one that has played everything a draining
/// worker produced completes it.
pub fn playback_step(playback_started: bool, underrun: bool, phase: TxPhase, playback_complete: bool) -> (step: TransmitStep)
    ensures
        playback_started && underrun ==> step == TransmitStep::Fail(FailureSource::Underrun),
        !(playback_started && underrun) && phase == TxPhase::Draining && playback_complete
            ==> step == TransmitStep::Finish(TxPhase::Complete),
        !(playback_started && underrun) && !(phase == TxPhase::Draining && playback_complete)
            ==> step == TransmitStep::Continue,
{
    if playback_started && underrun {
        TransmitStep::Fail(FailureSource::Underrun)
    } else if phase == TxPhase::Draining && playback_complete {
        TransmitStep::Finish(TxPhase::Complete)
    } else {
        TransmitStep::Continue
    }
}

/// The record once something is claimed to go out: priming, not yet
/// playing, a tone or a picture, and the rig keyed when it was or when rig
/// control is running.
pub open spec fn spec_begin(c: TransmitControl, tone: bool, rig_connected: bool) -> TransmitControl {
    TransmitControl { phase: TxPhase::Priming, playback_started: false, tuning: tone, rig_keyed: c.rig_keyed || rig_connected }
}

/// The record once what is going out ends in `phase`, and whether the rig
/// is owed an unkeying.
pub open spec fn spec_stop_with(c: TransmitControl, phase: TxPhase) -> (TransmitControl, bool) {
    (TransmitControl { phase, playback_started: false, tuning: false, rig_keyed: false }, c.rig_keyed)
}

/// A rig keyed for a transmission is unkeyed when it ends: whatever ends
/// it, the end reports the unkeying owed whenever rig control was running
/// at the start, and leaves nothing owed afterwards.
pub proof fn lemma_a_keyed_rig_is_unkeyed_at_the_end(c: TransmitControl, tone: bool, rig_connected: bool, phase: TxPhase)
    ensures
        rig_connected ==> spec_stop_with(spec_begin(c, tone, rig_connected), phase).1,
        !spec_stop_with(spec_begin(c, tone, rig_connected), phase).0.rig_keyed,
{
}

/// The interface's own record of the transmission it is running.
#[derive(Clone, Copy, Debug, PartialEq, Eq, Structural)]
pub struct TransmitControl {
    pub phase: TxPhase,
    /// The output stream has been started.
    pub playback_started: bool,
    /// A tune tone, rather than a picture, is what the rig is keyed for.
    pub tuning: bool,
    /// The transmission asked for the rig to be keyed and owes it an unkeying.
    pub rig_keyed: bool,
}

impl TransmitControl {
    /// Nothing is going out.
    pub fn idle() -> (control: TransmitControl)
        ensures
            control == (TransmitControl { phase: TxPhase::Idle, playback_started: false, tuning: false, rig_keyed: false }),
    {
        TransmitControl { phase: TxPhase::Idle, playback_started: false, tuning: false, rig_keyed: false }
    }

    /// Claims the stream and, when rig control is running, the rig, for
    /// something about to go out.
    pub fn begin(&mut self, tone: bool, rig_connected: bool)
        ensures
            *final(self) == spec_begin(*old(self), tone, rig_connected),
    {
        self.phase = TxPhase::Priming;
        self.playback_started = false;
        self.tuning = tone;
        if rig_connected {
            self.rig_keyed = true;
        }
    }

    /// Ends whatever is going out in `phase`, reporting whether the rig has
    /// to be told to stop transmitting.
    pub fn stop_with(&mut self, phase: TxPhase) -> (unkey: bool)
        ensures
            (*final(self), unkey) == spec_stop_with(*old(self), phase),
    {
        let unkey = self.rig_keyed;
        self.phase = phase;
        self.playback_started = false;
        self.tuning = false;
        self.rig_keyed = false;
        unkey
    }

    /// Cancels a running transmission, reporting whether there was one and
    /// whether the rig has to be unkeyed.
    pub fn stop_transmit(&mut self) -> (stopped: (bool, bool))
        ensures
            stopped.0 == old(self).phase.spec_is_active(),
            stopped.0 ==> stopped.1 == old(self).rig_keyed && *final(self) == (TransmitControl {
                phase: TxPhase::Cancelled,
                playback_started: false,
                tuning: false,
                rig_keyed: false,
            }),
            !stopped.0 ==> !stopped.1 && *final(self) == *old(self),
    {
        if self.phase.is_active() {
            let unkey = self.stop_with(TxPhase::Cancelled);
            (true, unkey)
        } else {
            (false, false)
        }
    }

    /// Cancels a running tune tone, and nothing else.
    pub fn stop_tune(&mut self) -> (stopped: (bool, bool))
        ensures
            stopped.0 == old(self).tuning,
            stopped.0 ==> stopped.1 == old(self).rig_keyed && *final(self) == (TransmitControl {
                phase: TxPhase::Cancelled,
                playback_started: false,
                tuning: false,
                rig_keyed: false,
            }),
            !stopped.0 ==> !stopped.1 && *final(self) == *old(self),
    {
        if self.tuning {
            let unkey = self.stop_with(TxPhase::Cancelled);
            (true, unkey)
        } else {
            (false, false)
        }
    }

    /// Whether reception has to stay muted: for as long as anything at all
    /// is going out, since the station's own signal comes back off the
    /// antenna.
    pub fn mutes_reception(&self) -> (muted: bool)
        ensures
            muted == self.phase.spec_is_active(),
    {
        self.phase.is_active()
    }
}

/// Which row a transmission is on, from the sample count the output has
/// played: a finished transmission is complete, one that is not running is
/// idle, and a running one is wherever its raster window puts that count.
pub fn tx_progress(phase: TxPhase, played_samples: u64, raster: RasterTiming) -> (progress: TxProgress)
    ensures
        phase == TxPhase::Complete ==> progress == TxProgress::Complete,
        phase != TxPhase::Complete && !phase.spec_is_active() ==> progress == TxProgress::Idle,
        phase.spec_is_active() ==> progress == raster.spec_progress_at(played_samples),
{
    if phase == TxPhase::Complete {
        return TxProgress::Complete;
    }
    if !phase.is_active() {
        return TxProgress::Idle;
    }
    raster.progress_at(played_samples)
}

/// What the platform is told the application is doing: a transmission
/// outranks a reception, and an open device with nothing arriving is idle.
pub fn activity_for(transmitting: bool, reception: Progress) -> (activity: Activity)
    ensures
        transmitting ==> activity == Activity::Transmitting,
        !transmitting && reception.spec_is_active() ==> activity == Activity::Receiving,
        !transmitting && !reception.spec_is_active() ==> activity == Activity::Idle,
{
    if transmitting {
        Activity::Transmitting
    } else if reception.is_active() {
        Activity::Receiving
    } else {
        Activity::Idle
    }
}

/// Records `next` as what the platform was told, reporting whether it has to
/// be told again: only a change is reported.
pub fn note_activity(reported: &mut Activity, next: Activity) -> (changed: bool)
    ensures
        changed == (next != *old(reported)),
        *final(reported) == next,
{
    if next != *reported {
        *reported = next;
        true
    } else {
        false
    }
}

/// How often the interface draws while something moves, in milliseconds.
pub const LIVE_INTERVAL_MS: u64 = 33;

/// How often a composition or a library scan in progress is looked for.
pub const COMPOSE_POLL_MS: u64 = 100;

/// How often what reports on nothing of its own is looked at.
pub const WATCH_INTERVAL_MS: u64 = 500;

/// What the interface has running that nothing announces on its own.
#[derive(Clone, Copy, Debug, PartialEq, Eq, Structural)]
pub struct RepaintWatch {
    /// A transmission or a tune tone is going out.
    pub transmitting: bool,
    /// A composition was asked for and has not arrived.
    pub composing: bool,
    /// A library scan is running.
    pub scanning: bool,
    /// The composed frame prints the clock.
    pub shows_clock: bool,
    /// The time now, in seconds since the epoch.
    pub now_second: i64,
    /// A capture device is open or rig control is switched on.
    pub watching: bool,
}

/// The milliseconds until the minute after `now_second` begins.
pub open spec fn until_next_minute_ms(now_second: i64) -> int {
    (60 - now_second % 60) * 1000
}

pub open spec fn min_opt(a: Option<int>, b: int) -> Option<int> {
    match a {
        Some(x) => Some(if x <= b { x } else { b }),
        None => Some(b),
    }
}

/// The soonest of the reasons to draw again, or none at all.
pub open spec fn spec_repaint_after(w: RepaintWatch) -> Option<int> {
    let a = if w.transmitting { Some(33int) } else { None::<int> };
    let b = if w.composing || w.scanning { min_opt(a, 100) } else { a };
    let c = if w.shows_clock { min_opt(b, until_next_minute_ms(w.now_second)) } else { b };
    if w.watching { min_opt(c, 500) } else { c }
}

/// Keeps the soonest of `soonest` and `interval`.
fn at_most(soonest: Option<u64>, interval: u64) -> (r: Option<u64>)
    ensures
        r is Some,
        r->0 as int == min_opt(
            match soonest {
                Some(x) => Some(x as int),
                None => None,
            },
            interval as int,
        )->0,
{
    match soonest {
        Some(current) => Some(if current <= interval { current } else { interval }),
        None => Some(interval),
    }
}

/// How long the interface may sit still before it has to draw again, in
/// milliseconds; `None` leaves it asleep until the operator touches it.
pub fn repaint_after(w: RepaintWatch) -> (after: Option<u64>)
    ensures
        after is Some == spec_repaint_after(w) is Some,
        after is Some ==> after->0 as int == spec_repaint_after(w)->0,
{
    let mut soonest: Option<u64> = None;
    if w.transmitting {
        soonest = Some(LIVE_INTERVAL_MS);
    }
    if w.composing || w.scanning {
        soonest = at_most(soonest, COMPOSE_POLL_MS);
    }
    if w.shows_clock {
        let second = w.now_second % 60;
        let into_minute: u64 = if second < 0 { (second + 60) as u64 } else { second as u64 };
        assert(into_minute as int == w.now_second % 60);
        soonest = at_most(soonest, (60 - into_minute) * 1000);
    }
    if w.watching {
        soonest = at_most(soonest, WATCH_INTERVAL_MS);
    }
    soonest
}

/// Which minute `now_second` falls in, counted from the epoch.
pub fn current_minute(now_second: i64) -> (minute: i64)
    ensures
        minute as int == now_second as int / 60,
{
    let q = now_second / 60;
    let r = now_second % 60;
    if r < 0 { q - 1 } else { q }
}

/// What asking for a new composition came to.
#[derive(Clone, Copy, Debug, PartialEq, Eq, Structural)]
pub enum ComposeOutcome {
    /// A transmission is sending the frame on the tab; the request waits
    /// until it is over.
    Deferred,
    /// No template or no background is chosen, so there is nothing to
    /// compose and the frame is cleared.
    NothingSelected,
    /// The worker was asked for the frame of this generation.
    Requested(u64),
}

/// The bookkeeping behind the composed transmit frame.
///
/// A frame is only true for the moment it was made in: it can print the
/// clock and what the rig is tuned to, so what it was made from is kept
/// beside it and compared against each frame to decide whether to compose
/// again.
#[derive(Clone, Copy, Debug, PartialEq, Eq, Structural)]
pub struct Composition {
    /// The request the answer has to match to be taken.
    pub generation: u64,
    /// Bumped whenever the template files may have changed.
    pub template_generation: u64,
    /// Bumped whenever the background files may have changed.
    pub stock_generation: u64,
    /// Something changed while a transmission ran, to be composed once it ends.
    pub deferred: bool,
    /// A request is out and has not been answered.
    pub pending: bool,
    /// The frame prints the clock, and the minute it was asked for in.
    pub shows_clock: bool,
    pub minute: i64,
    /// The frame prints what the rig is tuned to.
    pub shows_frequency: bool,
}

impl Composition {
    /// Nothing composed yet, as of `minute`.
    pub fn new(minute: i64) -> (composition: Composition)
        ensures
            composition == (Composition {
                generation: 0,
                template_generation: 0,
                stock_generation: 0,
                deferred: false,
                pending: false,
                shows_clock: false,
                minute,
                shows_frequency: false,
            }),
    {
        Composition {
            generation: 0,
            template_generation: 0,
            stock_generation: 0,
            deferred: false,
            pending: false,
            shows_clock: false,
            minute,
            shows_frequency: false,
        }
    }

    /// Asks for the frame the transmit tab should show, as of `minute`.
    ///
    /// What the request was made from is recorded before anything can turn
    /// back, so a request that is put off is not asked for again on every
    /// frame that follows.
    pub fn request(&mut self, minute: i64, transmitting: bool, selected: bool) -> (outcome: ComposeOutcome)
        ensures
            (*final(self), outcome) == spec_request(*old(self), minute, transmitting, selected),
    {
        self.minute = minute;
        self.shows_clock = false;
        self.shows_frequency = false;
        if transmitting {
            self.deferred = true;
            return ComposeOutcome::Deferred;
        }
        if !selected {
            return ComposeOutcome::NothingSelected;
        }
        self.generation = self.generation.wrapping_add(1);
        self.pending = true;
        ComposeOutcome::Requested(self.generation)
    }

    /// Takes an answer from the worker, reporting whether it answered the
    /// request that is current; an answer to an older request is ignored.
    pub fn adopt(&mut self, generation: u64, uses_timestamps: bool, uses_radio: bool) -> (current: bool)
        ensures
            current == (generation == old(self).generation),
            current ==> *final(self) == (Composition {
                pending: false,
                shows_clock: uses_timestamps,
                shows_frequency: uses_radio,
                ..*old(self)
            }),
            !current ==> *final(self) == *old(self),
    {
        if generation != self.generation {
            return false;
        }
        self.pending = false;
        self.shows_clock = uses_timestamps;
        self.shows_frequency = uses_radio;
        true
    }

    /// Marks the template files as possibly changed.
    pub fn template_changed(&mut self)
        ensures
            *final(self) == (Composition {
                template_generation: if old(self).template_generation == u64::MAX {
                    0
                } else {
                    (old(self).template_generation + 1) as u64
                },
                ..*old(self)
            }),
    {
        self.template_generation = self.template_generation.wrapping_add(1);
    }

    /// Marks the background files as possibly changed.
    pub fn stock_changed(&mut self)
        ensures
            *final(self) == (Composition {
                stock_generation: if old(self).stock_generation == u64::MAX {
                    0
                } else {
                    (old(self).stock_generation + 1) as u64
                },
                ..*old(self)
            }),
    {
        self.stock_generation = self.stock_generation.wrapping_add(1);
    }

    /// Whether a frame that prints the clock has fallen behind it.
    pub fn clock_moved_on(&self, minute: i64) -> (stale: bool)
        ensures
            stale == (self.shows_clock && minute != self.minute),
    {
        self.shows_clock && minute != self.minute
    }

    /// Takes up a request that waited for a transmission, reporting whether
    /// there was one to make now.
    pub fn take_deferred(&mut self) -> (was_deferred: bool)
        ensures
            (*final(self), was_deferred) == spec_take_deferred(*old(self)),
    {
        let was = self.deferred;
        self.deferred = false;
        was
    }
}

/// `n` plus one, wrapping to zero past the largest `u64`.
pub open spec fn wrapping_next(n: u64) -> u64 {
    if n == u64::MAX {
        0
    } else {
        (n + 1) as u64
    }
}

/// A request for a composition: the time and what the frame shows are
/// recorded first; during a transmission the request is put off, with
/// nothing chosen there is nothing to ask for, and otherwise a new
/// generation is asked for and awaited.
pub open spec fn spec_request(c: Composition, minute: i64, transmitting: bool, selected: bool) -> (
    Composition,
    ComposeOutcome,
) {
    let recorded = Composition { minute, shows_clock: false, shows_frequency: false, ..c };
    if transmitting {
        (Composition { deferred: true, ..recorded }, ComposeOutcome::Deferred)
    } else if !selected {
        (recorded, ComposeOutcome::NothingSelected)
    } else {
        let generation = wrapping_next(c.generation);
        (
            Composition { generation, pending: true, ..recorded },
            ComposeOutcome::Requested(generation),
        )
    }
}

/// A request records the minute it was made in, whatever comes of it, so
/// that the frame it asks for is current for that minute: once the answer
/// to a request that was made is taken, the frame has not fallen behind the
/// clock until the minute changes. Until an answer is taken nothing is known
/// to print the clock or the frequency. During a transmission the request
/// is put off and nothing is asked for; with nothing chosen nothing is asked
/// for either; otherwise a new generation, different from the one before,
/// is asked for and awaited. What the frame is made from (the template and
/// background generations) is left as it was.
pub proof fn lemma_a_request_records_its_minute(
    c: Composition,
    minute: i64,
    transmitting: bool,
    selected: bool,
    uses_timestamps: bool,
    uses_radio: bool,
)
    ensures
        ({
            let (asked, outcome) = spec_request(c, minute, transmitting, selected);
            &&& asked.minute == minute
            &&& !asked.shows_clock && !asked.shows_frequency
            &&& asked.template_generation == c.template_generation
            &&& asked.stock_generation == c.stock_generation
            &&& (outcome == ComposeOutcome::Deferred) == transmitting
            &&& (outcome == ComposeOutcome::NothingSelected) == (!transmitting && !selected)
            &&& (outcome is Requested) == (!transmitting && selected)
            &&& transmitting ==> asked.deferred && asked.generation == c.generation && asked.pending == c.pending
            &&& !transmitting ==> asked.deferred == c.deferred
            &&& (!transmitting && !selected) ==> asked.generation == c.generation && asked.pending == c.pending
            &&& (outcome matches ComposeOutcome::Requested(g) ==> {
                let answered = Composition {
                    pending: false,
                    shows_clock: uses_timestamps,
                    shows_frequency: uses_radio,
                    ..asked
                };
                &&& g != c.generation
                &&& g == asked.generation
                &&& asked.pending
                &&& !(answered.shows_clock && minute != answered.minute)
            })
        }),
{
}

/// Taking up a request that waited: whether there was one, and the state
/// without it.
pub open spec fn spec_take_deferred(c: Composition) -> (Composition, bool) {
    (Composition { deferred: false, ..c }, c.deferred)
}

/// A change asked for while a transmission runs is not lost: whatever
/// answers and file changes arrive before the transmission ends, ending it
/// finds the request waiting, and making it then asks for a new frame.
pub proof fn lemma_a_deferred_request_is_made_when_the_transmission_ends(
    c: Composition,
    minute: i64,
    selected: bool,
    answered: u64,
    uses_timestamps: bool,
    uses_radio: bool,
    later: i64,
)
    ensures
        ({
            let during = spec_request(c, minute, true, selected).0;
            let after_answer = if answered == during.generation {
                Composition { pending: false, shows_clock: uses_timestamps, shows_frequency: uses_radio, ..during }
            } else {
                during
            };
            let (ended, was_deferred) = spec_take_deferred(after_answer);
            &&& spec_request(c, minute, true, selected).1 == ComposeOutcome::Deferred
            &&& was_deferred
            &&& (selected ==> spec_request(ended, later, false, true).1 == ComposeOutcome::Requested(
                wrapping_next(c.generation),
            ))
        }),
{
}

/// What the receive tab is doing, for the line under the image.
#[derive(Clone, Copy, Debug, PartialEq, Eq, Structural)]
pub enum RxState {
    /// Nothing is listened for while the station transmits.
    Muted,
    /// A reception stopped, leaving a partial image on the canvas.
    Stopped,
    /// Nothing is being received.
    Waiting,
    Complete,
    /// A picture is arriving; so much of it has been decoded.
    Receiving(Progress),
}

/// The receive tab's state: muting first, then a stopped reception, then
/// nothing, a finished picture, or one arriving.
pub fn rx_state(muted: bool, progress: Progress) -> (state: RxState)
    ensures
        muted ==> state == RxState::Muted,
        !muted && progress == Progress::Stopped ==> state == RxState::Stopped,
        !muted && progress == Progress::Complete ==> state == RxState::Complete,
        !muted && progress == Progress::Idle ==> state == RxState::Waiting,
        !muted && progress.spec_is_active() ==> state == RxState::Receiving(progress),
{
    if muted {
        return RxState::Muted;
    }
    match progress {
        Progress::Stopped => RxState::Stopped,
        Progress::Complete => RxState::Complete,
        Progress::Idle => RxState::Waiting,
        _ => RxState::Receiving(progress),
    }
}

/// What the transmit tab is doing, for the line under the image.
#[derive(Clone, Copy, Debug, PartialEq, Eq, Structural)]
pub enum TxState {
    Tone,
    Preparing,
    Leader,
    Transmitting { row: usize, total: usize },
    Identifying,
    Complete,
    Ready,
    NotReady,
}

/// The transmit tab's state: a tone first, then the phase of a picture, and
/// while nothing runs whether one could start.
pub fn tx_state(tuning: bool, phase: TxPhase, progress: TxProgress, can_transmit: bool) -> (state: TxState)
    ensures
        tuning ==> state == TxState::Tone,
        !tuning && phase == TxPhase::Priming ==> state == TxState::Preparing,
        !tuning && (phase == TxPhase::Producing || phase == TxPhase::Draining) ==> state == (match progress {
            TxProgress::Scanning { rows, total } => TxState::Transmitting { row: rows, total },
            TxProgress::Identifying => TxState::Identifying,
            _ => TxState::Leader,
        }),
        !tuning && phase == TxPhase::Complete ==> state == TxState::Complete,
        !tuning && (phase == TxPhase::Idle || phase == TxPhase::Cancelled || phase == TxPhase::Failed) ==> state
            == (if can_transmit {
            TxState::Ready
        } else {
            TxState::NotReady
        }),
{
    if tuning {
        return TxState::Tone;
    }
    match phase {
        TxPhase::Priming => TxState::Preparing,
        TxPhase::Producing | TxPhase::Draining => match progress {
            TxProgress::Scanning { rows, total } => TxState::Transmitting { row: rows, total },
            TxProgress::Identifying => TxState::Identifying,
            _ => TxState::Leader,
        },
        TxPhase::Complete => TxState::Complete,
        _ => if can_transmit {
            TxState::Ready
        } else {
            TxState::NotReady
        },
    }
}

/// Whether a picture may be started: nothing stands in its way and nothing
/// is going out.
pub fn can_transmit(problem_free: bool, phase: TxPhase) -> (can: bool)
    ensures
        can == (problem_free && !phase.spec_is_active()),
{
    problem_free && !phase.is_active()
}

/// The operator's own template variables, one entry per name.
pub open spec fn variables_view(v: Seq<(String, String)>) -> Seq<(Seq<char>, Seq<char>)> {
    v.map_values(|e: (String, String)| (e.0@, e.1@))
}

/// Whether the names of `v` are in order with none repeated, as a map keeps
/// them.
pub open spec fn strictly_ordered(v: Seq<(Seq<char>, Seq<char>)>) -> bool {
    forall|i: int, j: int| 0 <= i < j < v.len() ==> text_less(#[trigger] v[i].0, #[trigger] v[j].0)
}

/// The value the last usable row named `name` gives it, if any row does.
pub open spec fn last_value(rows: Seq<(Seq<char>, Seq<char>)>, usable: Seq<bool>, name: Seq<char>) -> Option<Seq<char>>
    decreases rows.len(),
{
    if rows.len() == 0 {
        None
    } else if usable[rows.len() - 1] && rows.last().0 == name {
        Some(rows.last().1)
    } else {
        last_value(rows.drop_last(), usable.take(rows.len() - 1), name)
    }
}

/// What `entries` give `name`, if they hold it.
pub open spec fn value_of(entries: Seq<(Seq<char>, Seq<char>)>, name: Seq<char>) -> Option<Seq<char>> {
    if exists|k: int| 0 <= k < entries.len() && entries[k].0 == name {
        Some(entries[choose|k: int| 0 <= k < entries.len() && entries[k].0 == name].1)
    } else {
        None
    }
}

/// In entries kept in order, each name gives the value stored beside it.
pub proof fn lemma_ordered_value(entries: Seq<(Seq<char>, Seq<char>)>, k: int)
    requires
        strictly_ordered(entries),
        0 <= k < entries.len(),
    ensures
        value_of(entries, entries[k].0) == Some(entries[k].1),
{
    let c = choose|c: int| 0 <= c < entries.len() && entries[c].0 == entries[k].0;
    if c != k {
        if c < k {
            assert(text_less(entries[c].0, entries[k].0));
        } else {
            assert(text_less(entries[k].0, entries[c].0));
        }
        crate::text::lemma_text_less_irreflexive(entries[k].0);
    }
}

/// Puts `value` under `name` in `entries`, keeping the names in order.
fn put_variable(entries: &mut Vec<(String, String)>, name: String, value: String)
    requires
        strictly_ordered(variables_view(old(entries)@)),
    ensures
        strictly_ordered(variables_view(final(entries)@)),
        value_of(variables_view(final(entries)@), name@) == Some(value@),
        forall|other: Seq<char>| other != name@ ==> value_of(variables_view(final(entries)@), other) == value_of(
            variables_view(old(entries)@),
            other,
        ),
{
    let ghost before = variables_view(entries@);
    let mut k: usize = 0;
    while k < entries.len() && text_before(entries[k].0.as_str(), name.as_str())
        invariant
            k <= entries.len(),
            before == variables_view(entries@),
            strictly_ordered(before),
            forall|i: int| 0 <= i < k ==> text_less(#[trigger] before[i].0, name@),
        decreases entries.len() - k,
    {
        assert(before[k as int] == (entries@[k as int].0@, entries@[k as int].1@));
        k += 1;
    }
    if k < entries.len() && same_text(entries[k].0.as_str(), name.as_str()) {
        assert(before[k as int].0 == name@);
        entries.set(k, (name, value));
        let ghost after = variables_view(entries@);
        assert(after == before.update(k as int, (name@, value@)));
        proof {
            assert forall|i: int, j: int| 0 <= i < j < after.len() implies text_less(#[trigger] after[i].0, #[trigger] after[j].0) by {
                assert(after[i].0 == before[i].0 && after[j].0 == before[j].0);
            }
            lemma_ordered_value(after, k as int);
            assert forall|other: Seq<char>| other != name@ implies value_of(after, other) == value_of(before, other) by {
                if exists|m: int| 0 <= m < before.len() && before[m].0 == other {
                    let m = choose|m: int| 0 <= m < before.len() && before[m].0 == other;
                    lemma_ordered_value(before, m);
                    lemma_ordered_value(after, m);
                    assert(after[m] == before[m]);
                } else {
                    assert forall|m: int| 0 <= m < after.len() implies after[m].0 != other by {
                        if m != k {
                            assert(after[m] == before[m]);
                        }
                    }
                }
            }
        }
    } else {
        proof {
            if k < entries.len() {
                assert(before[k as int] == (entries@[k as int].0@, entries@[k as int].1@));
                crate::text::lemma_text_less_total(before[k as int].0, name@);
            }
        }
        let ghost nv = name@;
        let ghost vv = value@;
        entries.insert(k, (name, value));
        let ghost after = variables_view(entries@);
        assert(after == before.insert(k as int, (nv, vv)));
        proof {
            assert forall|i: int, j: int| 0 <= i < j < after.len() implies text_less(#[trigger] after[i].0, #[trigger] after[j].0) by {
                if j < k {
                    assert(after[i] == before[i] && after[j] == before[j]);
                } else if j == k {
                    assert(after[i] == before[i]);
                } else if i == k {
                    assert(after[j] == before[j - 1]);
                    if j - 1 > k {
                        assert(text_less(before[k as int].0, before[j - 1].0));
                        crate::text::lemma_text_less_transitive(nv, before[k as int].0, before[j - 1].0);
                    }
                } else if i < k {
                    assert(after[i] == before[i] && after[j] == before[j - 1]);
                } else {
                    assert(after[i] == before[i - 1] && after[j] == before[j - 1]);
                }
            }
            lemma_ordered_value(after, k as int);
            assert forall|other: Seq<char>| other != nv implies value_of(after, other) == value_of(before, other) by {
                if exists|m: int| 0 <= m < before.len() && before[m].0 == other {
                    let m = choose|m: int| 0 <= m < before.len() && before[m].0 == other;
                    lemma_ordered_value(before, m);
                    if m < k {
                        assert(after[m] == before[m]);
                        lemma_ordered_value(after, m);
                    } else {
                        assert(after[m + 1] == before[m]);
                        lemma_ordered_value(after, m + 1);
                    }
                } else {
                    assert forall|m: int| 0 <= m < after.len() implies after[m].0 != other by {
                        if m < k {
                            assert(after[m] == before[m]);
                        } else if m > k {
                            assert(after[m] == before[m - 1]);
                        }
                    }
                }
            }
        }
    }
}

/// Takes the edited rows as the variables templates may read: every row
/// whose name is usable, a later row winning over an earlier one of the same
/// name, in the order of their names. A row whose name is not usable stays in
/// the dialog to be corrected but is kept out of the composition.
pub fn commit_variables(draft: &Vec<(String, String)>, usable: &Vec<bool>) -> (variables: Vec<(String, String)>)
    requires
        usable.len() == draft.len(),
    ensures
        strictly_ordered(variables_view(variables@)),
        forall|name: Seq<char>| value_of(variables_view(variables@), name) == last_value(
            variables_view(draft@),
            usable@,
            name,
        ),
{
    let mut variables: Vec<(String, String)> = Vec::new();
    let mut i: usize = 0;
    while i < draft.len()
        invariant
            i <= draft.len() == usable.len(),
            strictly_ordered(variables_view(variables@)),
            forall|name: Seq<char>| value_of(variables_view(variables@), name) == last_value(
                variables_view(draft@).take(i as int),
                usable@.take(i as int),
                name,
            ),
        decreases draft.len() - i,
    {
        let ghost rows = variables_view(draft@).take(i + 1);
        assert(rows.drop_last() == variables_view(draft@).take(i as int));
        assert(usable@.take(i + 1).take(i as int) == usable@.take(i as int));
        assert(rows.last() == (draft@[i as int].0@, draft@[i as int].1@));
        if usable[i] {
            put_variable(&mut variables, draft[i].0.clone(), draft[i].1.clone());
        }
        i += 1;
    }
    assert(variables_view(draft@).take(draft.len() as int) == variables_view(draft@));
    assert(usable@.take(draft.len() as int) == usable@);
    variables
}

} // verus!
