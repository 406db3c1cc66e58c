//! Stateful `ESC ] 9;4;<state>;<progress> (BEL | ESC \)` filter for terminal output.
//!
//! Valid sequences are removed from the visible output and reported as
//! `(state, progress)` events; anything malformed is forwarded untouched.
//! The bytes held back while a candidate sequence is being reassembled are
//! bounded by `OSC_PROGRESS_MAX_PENDING_BYTES`.
use vstd::prelude::*;

verus! {

pub const OSC_PROGRESS_MAX_PENDING_BYTES: usize = 64;

pub const ESCAPE_BYTE: u8 = 0x1B;

pub const OSC_BYTE: u8 = 0x5D;

pub const SEMICOLON_BYTE: u8 = 0x3B;

pub const BEL_BYTE: u8 = 0x07;

pub const ST_TERMINATOR_BYTE: u8 = 0x5C;

/// Where the filter stands inside a candidate sequence.
#[derive(Debug, Clone, Copy, PartialEq, Eq, Structural)]
pub enum OscParserState {
    Idle,
    ExpectOsc,
    ExpectPrefix,
    ParseState,
    ParseProgress,
    ExpectStringTerminator,
}

// ---------------------------------------------------------------------------
// Mathematical model
// ---------------------------------------------------------------------------
/// The bytes `9;4;` that follow `ESC ]` in a progress sequence.
pub open spec fn progress_prefix() -> Seq<u8> {
    seq![0x39u8, 0x3Bu8, 0x34u8, 0x3Bu8]
}

pub open spec fn is_digit_byte(b: u8) -> bool {
    0x30 <= b <= 0x39
}

pub open spec fn all_digit_bytes(s: Seq<u8>) -> bool {
    forall|i: int| 0 <= i < s.len() ==> is_digit_byte(#[trigger] s[i])
}

/// The decimal number written by a sequence of ASCII digits.
pub open spec fn decimal_value(s: Seq<u8>) -> nat
    decreases s.len(),
{
    if s.len() == 0 {
        0
    } else {
        decimal_value(s.drop_last()) * 10 + (s.last() - 0x30) as nat
    }
}

/// A non-empty run of ASCII digits whose value fits in a `u32`.
pub open spec fn parse_decimal(s: Seq<u8>) -> Option<u32> {
    if s.len() == 0 || !all_digit_bytes(s) || decimal_value(s) > u32::MAX {
        None
    } else {
        Some(decimal_value(s) as u32)
    }
}

/// The event a complete sequence stands for: `state` in 0..=4 and `progress`
/// in 0..=100, with the progress of states 0 (none) and 3 (indeterminate)
/// normalised to 0.
pub open spec fn progress_of(state_digits: Seq<u8>, progress_digits: Seq<u8>) -> Option<
    (u32, u32),
> {
    match (parse_decimal(state_digits), parse_decimal(progress_digits)) {
        (Some(state), Some(progress)) => {
            if state > 4 || progress > 100 {
                None
            } else {
                Some((state, if state == 0 || state == 3 { 0 } else { progress }))
            }
        },
        _ => None,
    }
}

/// The abstract state of the filter.
pub struct ParserModel {
    pub phase: OscParserState,
    pub pending: Seq<u8>,
    pub prefix_index: nat,
    pub state_digits: Seq<u8>,
    pub progress_digits: Seq<u8>,
}

/// What one step (or one run of steps) of the filter does.
pub struct Step {
    pub next: ParserModel,
    pub output: Seq<u8>,
    pub events: Seq<(u32, u32)>,
}

pub open spec fn idle_model() -> ParserModel {
    ParserModel {
        phase: OscParserState::Idle,
        pending: seq![],
        prefix_index: 0,
        state_digits: seq![],
        progress_digits: seq![],
    }
}

/// One byte seen with nothing held back.
pub open spec fn idle_step(b: u8) -> Step {
    if b == ESCAPE_BYTE {
        Step {
            next: ParserModel {
                phase: OscParserState::ExpectOsc,
                pending: seq![b],
                prefix_index: 0,
                state_digits: seq![],
                progress_digits: seq![],
            },
            output: seq![],
            events: seq![],
        }
    } else {
        Step { next: idle_model(), output: seq![b], events: seq![] }
    }
}

/// Give up on the candidate: its bytes become output and `b` is looked at afresh.
pub open spec fn bail(m: ParserModel, b: u8) -> Step {
    let s = idle_step(b);
    Step { next: s.next, output: m.pending + s.output, events: seq![] }
}

/// A terminator was taken into `m`: report the event, or forward the bytes.
pub open spec fn complete(m: ParserModel) -> Step {
    match progress_of(m.state_digits, m.progress_digits) {
        Some(ev) => Step { next: idle_model(), output: seq![], events: seq![ev] },
        None => Step { next: idle_model(), output: m.pending, events: seq![] },
    }
}

pub open spec fn with_byte(m: ParserModel, phase: OscParserState, b: u8) -> ParserModel {
    ParserModel {
        phase,
        pending: m.pending.push(b),
        prefix_index: m.prefix_index,
        state_digits: m.state_digits,
        progress_digits: m.progress_digits,
    }
}

/// One byte through the filter.
pub open spec fn step(m: ParserModel, b: u8) -> Step {
    if m.phase != OscParserState::Idle && m.pending.len() >= OSC_PROGRESS_MAX_PENDING_BYTES {
        bail(m, b)
    } else {
        match m.phase {
            OscParserState::Idle => idle_step(b),
            OscParserState::ExpectOsc => {
                if b == OSC_BYTE {
                    Step {
                        next: ParserModel {
                            phase: OscParserState::ExpectPrefix,
                            pending: m.pending.push(b),
                            prefix_index: 0,
                            state_digits: m.state_digits,
                            progress_digits: m.progress_digits,
                        },
                        output: seq![],
                        events: seq![],
                    }
                } else {
                    bail(m, b)
                }
            },
            OscParserState::ExpectPrefix => {
                if m.prefix_index < 4 && b == progress_prefix()[m.prefix_index as int] {
                    if m.prefix_index + 1 == 4 {
                        Step {
                            next: ParserModel {
                                phase: OscParserState::ParseState,
                                pending: m.pending.push(b),
                                prefix_index: 4,
                                state_digits: seq![],
                                progress_digits: seq![],
                            },
                            output: seq![],
                            events: seq![],
                        }
                    } else {
                        Step {
                            next: ParserModel {
                                phase: OscParserState::ExpectPrefix,
                                pending: m.pending.push(b),
                                prefix_index: m.prefix_index + 1,
                                state_digits: m.state_digits,
                                progress_digits: m.progress_digits,
                            },
                            output: seq![],
                            events: seq![],
                        }
                    }
                } else {
                    bail(m, b)
                }
            },
            OscParserState::ParseState => {
                if is_digit_byte(b) {
                    Step {
                        next: ParserModel {
                            phase: OscParserState::ParseState,
                            pending: m.pending.push(b),
                            prefix_index: m.prefix_index,
                            state_digits: m.state_digits.push(b),
                            progress_digits: m.progress_digits,
                        },
                        output: seq![],
                        events: seq![],
                    }
                } else if b == SEMICOLON_BYTE && m.state_digits.len() > 0 {
                    Step {
                        next: with_byte(m, OscParserState::ParseProgress, b),
                        output: seq![],
                        events: seq![],
                    }
                } else {
                    bail(m, b)
                }
            },
            OscParserState::ParseProgress => {
                if is_digit_byte(b) {
                    Step {
                        next: ParserModel {
                            phase: OscParserState::ParseProgress,
                            pending: m.pending.push(b),
                            prefix_index: m.prefix_index,
                            state_digits: m.state_digits,
                            progress_digits: m.progress_digits.push(b),
                        },
                        output: seq![],
                        events: seq![],
                    }
                } else if b == BEL_BYTE && m.progress_digits.len() > 0 {
                    complete(with_byte(m, OscParserState::ParseProgress, b))
                } else if b == ESCAPE_BYTE && m.progress_digits.len() > 0 {
                    Step {
                        next: with_byte(m, OscParserState::ExpectStringTerminator, b),
                        output: seq![],
                        events: seq![],
                    }
                } else {
                    bail(m, b)
                }
            },
            OscParserState::ExpectStringTerminator => {
                if b == ST_TERMINATOR_BYTE {
                    complete(with_byte(m, OscParserState::ExpectStringTerminator, b))
                } else {
                    bail(m, b)
                }
            },
        }
    }
}

/// The bytes of `input` through the filter, one after the other.
pub open spec fn run(m: ParserModel, input: Seq<u8>) -> Step
    decreases input.len(),
{
    if input.len() == 0 {
        Step { next: m, output: seq![], events: seq![] }
    } else {
        let prev = run(m, input.drop_last());
        let s = step(prev.next, input.last());
        Step { next: s.next, output: prev.output + s.output, events: prev.events + s.events }
    }
}

/// The bytes a model holds back, as they must look in each phase.
pub open spec fn model_wf(m: ParserModel) -> bool {
    let head = seq![ESCAPE_BYTE, OSC_BYTE];
    &&& m.pending.len() <= OSC_PROGRESS_MAX_PENDING_BYTES
    &&& all_digit_bytes(m.state_digits)
    &&& all_digit_bytes(m.progress_digits)
    &&& match m.phase {
        OscParserState::Idle => m == idle_model(),
        OscParserState::ExpectOsc => {
            &&& m.pending == seq![ESCAPE_BYTE]
            &&& m.state_digits.len() == 0
            &&& m.progress_digits.len() == 0
        },
        OscParserState::ExpectPrefix => {
            &&& m.prefix_index < 4
            &&& m.pending == head + progress_prefix().take(m.prefix_index as int)
            &&& m.state_digits.len() == 0
            &&& m.progress_digits.len() == 0
        },
        OscParserState::ParseState => {
            &&& m.pending == head + progress_prefix() + m.state_digits
            &&& m.progress_digits.len() == 0
        },
        OscParserState::ParseProgress => {
            &&& m.pending == head + progress_prefix() + m.state_digits + seq![SEMICOLON_BYTE]
                + m.progress_digits
            &&& m.state_digits.len() > 0
        },
        OscParserState::ExpectStringTerminator => {
            &&& m.pending == head + progress_prefix() + m.state_digits + seq![SEMICOLON_BYTE]
                + m.progress_digits + seq![ESCAPE_BYTE]
            &&& m.state_digits.len() > 0
            &&& m.progress_digits.len() > 0
        },
    }
}

/// `bytes` is a complete progress sequence that stands for `ev`.
pub open spec fn is_progress_sequence(bytes: Seq<u8>, ev: (u32, u32)) -> bool {
    exists|sd: Seq<u8>, pd: Seq<u8>, bel: bool|
        #![trigger sequence_bytes(sd, pd, bel)]
        {
            &&& sd.len() > 0
            &&& pd.len() > 0
            &&& all_digit_bytes(sd)
            &&& all_digit_bytes(pd)
            &&& progress_of(sd, pd) == Some(ev)
            &&& bytes == sequence_bytes(sd, pd, bel)
        }
}

/// `ESC ] 9;4;<sd>;<pd>` closed by `BEL` (when `bel`) or by `ESC \`.
pub open spec fn sequence_bytes(sd: Seq<u8>, pd: Seq<u8>, bel: bool) -> Seq<u8> {
    seq![ESCAPE_BYTE, OSC_BYTE] + progress_prefix() + sd + seq![SEMICOLON_BYTE] + pd + if bel {
        seq![BEL_BYTE]
    } else {
        seq![ESCAPE_BYTE, ST_TERMINATOR_BYTE]
    }
}


// ---------------------------------------------------------------------------
// Executable filter
// ---------------------------------------------------------------------------
/// The filter itself: the candidate bytes held back and the digits read so far.
#[derive(Debug)]
pub struct OscProgressParser {
    state: OscParserState,
    pending: Vec<u8>,
    prefix_index: usize,
    state_digits: Vec<u8>,
    progress_digits: Vec<u8>,
}

/// What one chunk of output turns into: the bytes to show and the progress events.
#[derive(Debug, PartialEq, Eq)]
pub struct ParsedChunk {
    pub visible: Vec<u8>,
    pub progress_events: Vec<(u32, u32)>,
}

impl View for OscProgressParser {
    type V = ParserModel;

    closed spec fn view(&self) -> ParserModel {
        ParserModel {
            phase: self.state,
            pending: self.pending@,
            prefix_index: self.prefix_index as nat,
            state_digits: self.state_digits@,
            progress_digits: self.progress_digits@,
        }
    }
}

/// Whether `value` is an ASCII decimal digit.
pub fn is_ascii_digit(value: u8) -> (res: bool)
    ensures
        res == is_digit_byte(value),
{
    0x30 <= value && value <= 0x39
}

fn prefix_byte(index: usize) -> (res: u8)
    requires
        index < 4,
    ensures
        res == progress_prefix()[index as int],
{
    if index == 0 {
        0x39
    } else if index == 1 {
        0x3B
    } else if index == 2 {
        0x34
    } else {
        0x3B
    }
}

impl OscProgressParser {
    pub open spec fn wf(&self) -> bool {
        model_wf(self@)
    }

    /// A filter that holds nothing back.
    pub fn new() -> (res: Self)
        ensures
            res@ == idle_model(),
            res.wf(),
    {
        OscProgressParser {
            state: OscParserState::Idle,
            pending: Vec::new(),
            prefix_index: 0,
            state_digits: Vec::new(),
            progress_digits: Vec::new(),
        }
    }

    /// The number of bytes held back as an incomplete candidate sequence.
    pub fn pending_len(&self) -> (res: usize)
        ensures
            res == self@.pending.len(),
    {
        self.pending.len()
    }

    /// Feeds a chunk of output through the filter.
    pub fn parse_chunk(&mut self, input: &[u8]) -> (parsed: ParsedChunk)
        requires
            old(self).wf(),
        ensures
            final(self).wf(),
            final(self)@ == run(old(self)@, input@).next,
            parsed.visible@ == run(old(self)@, input@).output,
            parsed.progress_events@ == run(old(self)@, input@).events,
    {
        let mut parsed = ParsedChunk { visible: Vec::new(), progress_events: Vec::new() };
        let ghost start = self@;
        let mut i: usize = 0;
        while i < input.len()
            invariant
                self.wf(),
                0 <= i <= input@.len(),
                self@ == run(start, input@.take(i as int)).next,
                parsed.visible@ == run(start, input@.take(i as int)).output,
                parsed.progress_events@ == run(start, input@.take(i as int)).events,
            decreases input@.len() - i,
        {
            proof {
                assert(input@.take(i + 1).drop_last() =~= input@.take(i as int));
                assert(input@.take(i + 1).last() == input@[i as int]);
            }
            self.process_byte(input[i], &mut parsed.visible, &mut parsed.progress_events);
            i = i + 1;
        }
        proof {
            assert(input@.take(input@.len() as int) =~= input@);
        }
        parsed
    }

    /// Hands back the bytes held as an incomplete sequence; the caller forwards
    /// them as plain output.
    pub fn flush(&mut self) -> (res: Vec<u8>)
        requires
            old(self).wf(),
        ensures
            res@ == old(self)@.pending,
            final(self)@ == idle_model(),
            final(self).wf(),
    {
        let mut pending: Vec<u8> = Vec::new();
        pending.append(&mut self.pending);
        self.reset();
        pending
    }

    fn reset(&mut self)
        ensures
            final(self)@ == idle_model(),
    {
        self.state = OscParserState::Idle;
        self.prefix_index = 0;
        self.pending.clear();
        self.state_digits.clear();
        self.progress_digits.clear();
    }

    fn flush_to_output(&mut self, output: &mut Vec<u8>)
        ensures
            final(self)@ == idle_model(),
            final(output)@ == old(output)@ + old(self)@.pending,
    {
        output.append(&mut self.pending);
        self.reset();
    }

    fn process_idle_byte(&mut self, byte: u8, output: &mut Vec<u8>)
        requires
            old(self)@ == idle_model(),
        ensures
            final(self)@ == idle_step(byte).next,
            final(output)@ == old(output)@ + idle_step(byte).output,
    {
        if byte == ESCAPE_BYTE {
            self.pending.push(byte);
            self.state = OscParserState::ExpectOsc;
            proof {
                assert(self@.pending =~= seq![byte]);
            }
        } else {
            output.push(byte);
            proof {
                assert(seq![byte] =~= idle_step(byte).output);
            }
        }
    }

    fn bail_out(&mut self, byte: u8, output: &mut Vec<u8>)
        ensures
            final(self)@ == bail(old(self)@, byte).next,
            final(output)@ == old(output)@ + bail(old(self)@, byte).output,
    {
        self.flush_to_output(output);
        self.process_idle_byte(byte, output);
        proof {
            assert(old(output)@ + old(self)@.pending + idle_step(byte).output =~= old(output)@
                + bail(old(self)@, byte).output);
        }
    }

    fn complete_sequence(&mut self, output: &mut Vec<u8>, events: &mut Vec<(u32, u32)>)
        requires
            all_digit_bytes(old(self)@.state_digits),
            all_digit_bytes(old(self)@.progress_digits),
        ensures
            final(self)@ == complete(old(self)@).next,
            final(output)@ == old(output)@ + complete(old(self)@).output,
            final(events)@ == old(events)@ + complete(old(self)@).events,
    {
        match try_create_progress(&self.state_digits, &self.progress_digits) {
            Some(event) => {
                events.push(event);
                self.reset();
                proof {
                    assert(old(output)@ + complete(old(self)@).output =~= old(output)@);
                }
            },
            None => {
                self.flush_to_output(output);
                proof {
                    assert(old(events)@ + complete(old(self)@).events =~= old(events)@);
                }
            },
        }
    }

    /// Feeds one byte through the filter, appending what becomes visible
    /// to `output` and any completed progress report to `events`.
    pub fn process_byte(&mut self, value: u8, output: &mut Vec<u8>, events: &mut Vec<(u32, u32)>)
        requires
            old(self).wf(),
        ensures
            final(self).wf(),
            final(self)@ == step(old(self)@, value).next,
            final(output)@ == old(output)@ + step(old(self)@, value).output,
            final(events)@ == old(events)@ + step(old(self)@, value).events,
    {
        proof {
            lemma_step_wf(self@, value);
        }
        let byte = value;
        if self.state != OscParserState::Idle && self.pending.len()
            >= OSC_PROGRESS_MAX_PENDING_BYTES {
            self.bail_out(byte, output);
            proof {
                assert(old(events)@ + seq![] =~= old(events)@);
            }
            return ;
        }
        match self.state {
            OscParserState::Idle => {
                self.process_idle_byte(byte, output);
            },
            OscParserState::ExpectOsc => {
                if byte == OSC_BYTE {
                    self.pending.push(byte);
                    self.state = OscParserState::ExpectPrefix;
                    self.prefix_index = 0;
                } else {
                    self.bail_out(byte, output);
                }
            },
            OscParserState::ExpectPrefix => {
                if byte == prefix_byte(self.prefix_index) {
                    self.pending.push(byte);
                    self.prefix_index = self.prefix_index + 1;
                    if self.prefix_index == 4 {
                        self.state_digits.clear();
                        self.progress_digits.clear();
                        self.state = OscParserState::ParseState;
                    }
                } else {
                    self.bail_out(byte, output);
                }
            },
            OscParserState::ParseState => {
                if is_ascii_digit(byte) {
                    self.pending.push(byte);
                    self.state_digits.push(byte);
                } else if byte == SEMICOLON_BYTE && self.state_digits.len() > 0 {
                    self.pending.push(byte);
                    self.state = OscParserState::ParseProgress;
                } else {
                    self.bail_out(byte, output);
                }
            },
            OscParserState::ParseProgress => {
                if is_ascii_digit(byte) {
                    self.pending.push(byte);
                    self.progress_digits.push(byte);
                } else if byte == BEL_BYTE && self.progress_digits.len() > 0 {
                    self.pending.push(byte);
                    self.complete_sequence(output, events);
                } else if byte == ESCAPE_BYTE && self.progress_digits.len() > 0 {
                    self.pending.push(byte);
                    self.state = OscParserState::ExpectStringTerminator;
                } else {
                    self.bail_out(byte, output);
                }
            },
            OscParserState::ExpectStringTerminator => {
                if byte == ST_TERMINATOR_BYTE {
                    self.pending.push(byte);
                    self.complete_sequence(output, events);
                } else {
                    self.bail_out(byte, output);
                }
            },
        }
        proof {
            assert(final(output)@ =~= old(output)@ + step(old(self)@, value).output) by {
                assert(old(output)@ + seq![] =~= old(output)@);
            }
            assert(final(events)@ =~= old(events)@ + step(old(self)@, value).events) by {
                assert(old(events)@ + seq![] =~= old(events)@);
            }
        }
    }
}

/// Validates `state` in 0..=4 and `progress` in 0..=100, normalising the
/// progress of the none and indeterminate states to 0.
pub fn try_create_progress(state_digits: &Vec<u8>, progress_digits: &Vec<u8>) -> (res: Option<
    (u32, u32),
>)
    ensures
        res == progress_of(state_digits@, progress_digits@),
{
    let state = match parse_ascii_int(state_digits) {
        Some(v) => v,
        None => {
            return None;
        },
    };
    let raw_progress = match parse_ascii_int(progress_digits) {
        Some(v) => v,
        None => {
            return None;
        },
    };
    if state > 4 || raw_progress > 100 {
        return None;
    }
    let progress = if state == 0 || state == 3 {
        0
    } else {
        raw_progress
    };
    Some((state, progress))
}

/// The value of a non-empty run of ASCII digits, or `None` when the run is
/// empty, holds another byte, or overflows a `u32`.
pub fn parse_ascii_int(digits: &Vec<u8>) -> (res: Option<u32>)
    ensures
        res == parse_decimal(digits@),
{
    if digits.len() == 0 {
        return None;
    }
    let mut value: u32 = 0;
    let mut i: usize = 0;
    while i < digits.len()
        invariant
            0 <= i <= digits@.len(),
            all_digit_bytes(digits@.take(i as int)),
            value == decimal_value(digits@.take(i as int)),
        decreases digits@.len() - i,
    {
        let digit = digits[i];
        proof {
            assert(digits@.take(i + 1).drop_last() =~= digits@.take(i as int));
        }
        if !is_ascii_digit(digit) {
            proof {
                assert(!all_digit_bytes(digits@)) by {
                    assert(!is_digit_byte(digits@[i as int]));
                }
            }
            return None;
        }
        let times_ten = match value.checked_mul(10) {
            Some(v) => v,
            None => {
                proof {
                    if all_digit_bytes(digits@) {
                        lemma_decimal_prefix_le(digits@, i + 1);
                    }
                }
                return None;
            },
        };
        value = match times_ten.checked_add((digit - 0x30) as u32) {
            Some(v) => v,
            None => {
                proof {
                    if all_digit_bytes(digits@) {
                        lemma_decimal_prefix_le(digits@, i + 1);
                    }
                }
                return None;
            },
        };
        proof {
            assert(all_digit_bytes(digits@.take(i + 1))) by {
                assert forall|j: int| 0 <= j < i + 1 implies is_digit_byte(
                    #[trigger] digits@.take(i + 1)[j],
                ) by {
                    if j < i {
                        assert(digits@.take(i + 1)[j] == digits@.take(i as int)[j]);
                    }
                }
            }
        }
        i = i + 1;
    }
    proof {
        assert(digits@.take(digits@.len() as int) =~= digits@);
    }
    Some(value)
}


// ---------------------------------------------------------------------------
// Lemmas
// ---------------------------------------------------------------------------
proof fn lemma_decimal_prefix_le(s: Seq<u8>, k: int)
    requires
        0 <= k <= s.len(),
        all_digit_bytes(s),
    ensures
        decimal_value(s.take(k)) <= decimal_value(s),
    decreases s.len() - k,
{
    if k == s.len() {
        assert(s.take(k) =~= s);
    } else {
        lemma_decimal_prefix_le(s, k + 1);
        assert(s.take(k + 1).drop_last() =~= s.take(k));
        assert(is_digit_byte(s[k]));
    }
}

proof fn lemma_step_wf(m: ParserModel, b: u8)
    requires
        model_wf(m),
    ensures
        model_wf(step(m, b).next),
{
    let head = seq![ESCAPE_BYTE, OSC_BYTE];
    let s = step(m, b);
    assert(model_wf(idle_model()));
    assert(model_wf(idle_step(b).next)) by {
        if b == ESCAPE_BYTE {
            assert(all_digit_bytes(seq![]));
        }
    }
    if m.phase != OscParserState::Idle && m.pending.len() >= OSC_PROGRESS_MAX_PENDING_BYTES {
    } else {
        match m.phase {
            OscParserState::Idle => {},
            OscParserState::ExpectOsc => {
                if b == OSC_BYTE {
                    assert(s.next.pending =~= head + progress_prefix().take(0));
                }
            },
            OscParserState::ExpectPrefix => {
                let k = m.prefix_index as int;
                if k < 4 && b == progress_prefix()[k] {
                    assert(progress_prefix().take(k + 1) =~= progress_prefix().take(k).push(b));
                    assert(m.pending.push(b) =~= head + progress_prefix().take(k + 1));
                    if k + 1 == 4 {
                        assert(progress_prefix().take(4) =~= progress_prefix());
                        assert(s.next.pending =~= head + progress_prefix() + seq![]);
                    }
                }
            },
            OscParserState::ParseState => {
                if is_digit_byte(b) {
                    assert(s.next.pending =~= head + progress_prefix() + m.state_digits.push(b));
                    assert(all_digit_bytes(m.state_digits.push(b))) by {
                        assert forall|j: int| 0 <= j < m.state_digits.len() + 1 implies is_digit_byte(
                            #[trigger] m.state_digits.push(b)[j],
                        ) by {
                            if j < m.state_digits.len() {
                                assert(m.state_digits.push(b)[j] == m.state_digits[j]);
                            }
                        }
                    }
                } else if b == SEMICOLON_BYTE && m.state_digits.len() > 0 {
                    assert(s.next.pending =~= head + progress_prefix() + m.state_digits + seq![
                        SEMICOLON_BYTE,
                    ] + seq![]);
                }
            },
            OscParserState::ParseProgress => {
                if is_digit_byte(b) {
                    assert(s.next.pending =~= head + progress_prefix() + m.state_digits + seq![
                        SEMICOLON_BYTE,
                    ] + m.progress_digits.push(b));
                    assert(all_digit_bytes(m.progress_digits.push(b))) by {
                        assert forall|j: int|
                            0 <= j < m.progress_digits.len() + 1 implies is_digit_byte(
                            #[trigger] m.progress_digits.push(b)[j],
                        ) by {
                            if j < m.progress_digits.len() {
                                assert(m.progress_digits.push(b)[j] == m.progress_digits[j]);
                            }
                        }
                    }
                } else if b == BEL_BYTE && m.progress_digits.len() > 0 {
                } else if b == ESCAPE_BYTE && m.progress_digits.len() > 0 {
                    assert(s.next.pending =~= head + progress_prefix() + m.state_digits + seq![
                        SEMICOLON_BYTE,
                    ] + m.progress_digits + seq![ESCAPE_BYTE]);
                }
            },
            OscParserState::ExpectStringTerminator => {},
        }
    }
}


// ---------------------------------------------------------------------------
// Laws
// ---------------------------------------------------------------------------
/// Feeding `a` and then `b` is the same as feeding `a + b` at once: the same
/// visible bytes, the same events, the same state afterwards. Output split
/// across reads is therefore filtered exactly as if it had come in one piece.
pub proof fn lemma_run_concat(m: ParserModel, a: Seq<u8>, b: Seq<u8>)
    ensures
        run(m, a + b).next == run(run(m, a).next, b).next,
        run(m, a + b).output == run(m, a).output + run(run(m, a).next, b).output,
        run(m, a + b).events == run(m, a).events + run(run(m, a).next, b).events,
    decreases b.len(),
{
    if b.len() == 0 {
        assert(a + b =~= a);
        assert(run(m, a).output + seq![] =~= run(m, a).output);
        assert(run(m, a).events + seq![] =~= run(m, a).events);
    } else {
        lemma_run_concat(m, a, b.drop_last());
        assert((a + b).drop_last() =~= a + b.drop_last());
        assert((a + b).last() == b.last());
        let x = run(m, a);
        let y = run(x.next, b.drop_last());
        let z = step(y.next, b.last());
        assert(x.output + y.output + z.output =~= x.output + (y.output + z.output));
        assert(x.events + y.events + z.events =~= x.events + (y.events + z.events));
    }
}

/// The filter never holds back more than `OSC_PROGRESS_MAX_PENDING_BYTES`
/// bytes, and its held-back bytes always have the shape of a sequence prefix.
pub proof fn lemma_run_wf(m: ParserModel, input: Seq<u8>)
    requires
        model_wf(m),
    ensures
        model_wf(run(m, input).next),
        run(m, input).next.pending.len() <= OSC_PROGRESS_MAX_PENDING_BYTES,
    decreases input.len(),
{
    if input.len() > 0 {
        lemma_run_wf(m, input.drop_last());
        lemma_step_wf(run(m, input.drop_last()).next, input.last());
    }
}

/// Every byte that comes in either goes out, stays held back, or belongs to
/// a complete progress sequence that is reported as exactly one event.
pub proof fn lemma_step_accounts_for_byte(m: ParserModel, b: u8)
    requires
        model_wf(m),
    ensures
        ({
            let s = step(m, b);
            ||| s.events.len() == 0 && m.pending.push(b) == s.output + s.next.pending
            ||| s.events.len() == 1 && s.output.len() == 0 && s.next == idle_model()
                && is_progress_sequence(m.pending.push(b), s.events[0])
        }),
{
    let head = seq![ESCAPE_BYTE, OSC_BYTE];
    let s = step(m, b);
    assert(seq![b] =~= seq![].push(b));
    if m.phase != OscParserState::Idle && m.pending.len() >= OSC_PROGRESS_MAX_PENDING_BYTES {
        assert(m.pending.push(b) =~= s.output + s.next.pending);
    } else {
        match m.phase {
            OscParserState::Idle => {
                assert(m.pending.push(b) =~= s.output + s.next.pending);
            },
            OscParserState::ParseProgress => {
                if !is_digit_byte(b) && b == BEL_BYTE && m.progress_digits.len() > 0 {
                    let mm = with_byte(m, OscParserState::ParseProgress, b);
                    match progress_of(mm.state_digits, mm.progress_digits) {
                        Some(ev) => {
                            assert(m.pending.push(b) =~= sequence_bytes(
                                m.state_digits,
                                m.progress_digits,
                                true,
                            ));
                            assert(is_progress_sequence(m.pending.push(b), ev));
                        },
                        None => {
                            assert(m.pending.push(b) =~= s.output + s.next.pending);
                        },
                    }
                } else {
                    assert(m.pending.push(b) =~= s.output + s.next.pending);
                }
            },
            OscParserState::ExpectStringTerminator => {
                if b == ST_TERMINATOR_BYTE {
                    let mm = with_byte(m, OscParserState::ExpectStringTerminator, b);
                    match progress_of(mm.state_digits, mm.progress_digits) {
                        Some(ev) => {
                            assert(m.pending.push(b) =~= sequence_bytes(
                                m.state_digits,
                                m.progress_digits,
                                false,
                            ));
                            assert(is_progress_sequence(m.pending.push(b), ev));
                        },
                        None => {
                            assert(m.pending.push(b) =~= s.output + s.next.pending);
                        },
                    }
                } else {
                    assert(m.pending.push(b) =~= s.output + s.next.pending);
                }
            },
            _ => {
                assert(m.pending.push(b) =~= s.output + s.next.pending);
            },
        }
    }
}

/// When a run reports no event, nothing is dropped: the bytes held before
/// plus the input are exactly the visible output plus the bytes held after.
pub proof fn lemma_run_conserves_bytes(m: ParserModel, input: Seq<u8>)
    requires
        model_wf(m),
        run(m, input).events.len() == 0,
    ensures
        m.pending + input == run(m, input).output + run(m, input).next.pending,
    decreases input.len(),
{
    if input.len() == 0 {
        assert(m.pending + input =~= m.pending);
        assert(run(m, input).output + m.pending =~= m.pending);
    } else {
        let prev = run(m, input.drop_last());
        let s = step(prev.next, input.last());
        assert(prev.events.len() == 0);
        lemma_run_conserves_bytes(m, input.drop_last());
        lemma_run_wf(m, input.drop_last());
        lemma_step_accounts_for_byte(prev.next, input.last());
        assert(input =~= input.drop_last().push(input.last()));
        assert(m.pending + input =~= (m.pending + input.drop_last()).push(input.last()));
        assert((prev.output + prev.next.pending).push(input.last()) =~= prev.output
            + prev.next.pending.push(input.last()));
        assert(prev.output + (s.output + s.next.pending) =~= prev.output + s.output
            + s.next.pending);
    }
}

/// Every reported event has a state in 0..=4 and a progress in 0..=100, and
/// the none (0) and indeterminate (3) states always report progress 0.
pub proof fn lemma_run_events_in_range(m: ParserModel, input: Seq<u8>)
    ensures
        forall|i: int|
            0 <= i < run(m, input).events.len() ==> {
                let ev = #[trigger] run(m, input).events[i];
                &&& ev.0 <= 4
                &&& ev.1 <= 100
                &&& (ev.0 == 0 || ev.0 == 3) ==> ev.1 == 0
            },
    decreases input.len(),
{
    if input.len() > 0 {
        lemma_run_events_in_range(m, input.drop_last());
        let prev = run(m, input.drop_last());
        let s = step(prev.next, input.last());
        let r = run(m, input);
        assert forall|i: int| 0 <= i < r.events.len() implies {
            let ev = #[trigger] r.events[i];
            &&& ev.0 <= 4
            &&& ev.1 <= 100
            &&& (ev.0 == 0 || ev.0 == 3) ==> ev.1 == 0
        } by {
            if i < prev.events.len() {
                assert(r.events[i] == prev.events[i]);
            } else {
                assert(r.events[i] == s.events[i - prev.events.len()]);
            }
        }
    }
}


proof fn lemma_run_one(m: ParserModel, b: u8)
    ensures
        run(m, seq![b]).next == step(m, b).next,
        run(m, seq![b]).output == step(m, b).output,
        run(m, seq![b]).events == step(m, b).events,
{
    reveal_with_fuel(run, 2);
    assert(seq![b].drop_last() =~= Seq::<u8>::empty());
    assert(seq![b].last() == b);
    assert(Seq::<u8>::empty() + step(m, b).output =~= step(m, b).output);
    assert(Seq::<(u32, u32)>::empty() + step(m, b).events =~= step(m, b).events);
}

proof fn lemma_run_state_digits(m: ParserModel, ds: Seq<u8>)
    requires
        m.phase == OscParserState::ParseState,
        all_digit_bytes(ds),
        m.pending.len() + ds.len() <= OSC_PROGRESS_MAX_PENDING_BYTES,
    ensures
        run(m, ds).next == (ParserModel {
            phase: OscParserState::ParseState,
            pending: m.pending + ds,
            prefix_index: m.prefix_index,
            state_digits: m.state_digits + ds,
            progress_digits: m.progress_digits,
        }),
        run(m, ds).output.len() == 0,
        run(m, ds).events.len() == 0,
    decreases ds.len(),
{
    if ds.len() == 0 {
        assert(m.pending + ds =~= m.pending);
        assert(m.state_digits + ds =~= m.state_digits);
    } else {
        let init = ds.drop_last();
        assert(all_digit_bytes(init)) by {
            assert forall|j: int| 0 <= j < init.len() implies is_digit_byte(#[trigger] init[j]) by {
                assert(init[j] == ds[j]);
            }
        }
        lemma_run_state_digits(m, init);
        assert(is_digit_byte(ds[ds.len() - 1]));
        assert((m.pending + init).push(ds.last()) =~= m.pending + ds);
        assert((m.state_digits + init).push(ds.last()) =~= m.state_digits + ds);
    }
}

proof fn lemma_run_progress_digits(m: ParserModel, ds: Seq<u8>)
    requires
        m.phase == OscParserState::ParseProgress,
        all_digit_bytes(ds),
        m.pending.len() + ds.len() <= OSC_PROGRESS_MAX_PENDING_BYTES,
    ensures
        run(m, ds).next == (ParserModel {
            phase: OscParserState::ParseProgress,
            pending: m.pending + ds,
            prefix_index: m.prefix_index,
            state_digits: m.state_digits,
            progress_digits: m.progress_digits + ds,
        }),
        run(m, ds).output.len() == 0,
        run(m, ds).events.len() == 0,
    decreases ds.len(),
{
    if ds.len() == 0 {
        assert(m.pending + ds =~= m.pending);
        assert(m.progress_digits + ds =~= m.progress_digits);
    } else {
        let init = ds.drop_last();
        assert(all_digit_bytes(init)) by {
            assert forall|j: int| 0 <= j < init.len() implies is_digit_byte(#[trigger] init[j]) by {
                assert(init[j] == ds[j]);
            }
        }
        lemma_run_progress_digits(m, init);
        assert(is_digit_byte(ds[ds.len() - 1]));
        assert((m.pending + init).push(ds.last()) =~= m.pending + ds);
        assert((m.progress_digits + init).push(ds.last()) =~= m.progress_digits + ds);
    }
}

/// The model right after `ESC ] 9;4;`.
pub open spec fn opening_model() -> ParserModel {
    ParserModel {
        phase: OscParserState::ParseState,
        pending: seq![ESCAPE_BYTE, OSC_BYTE] + progress_prefix(),
        prefix_index: 4,
        state_digits: seq![],
        progress_digits: seq![],
    }
}

proof fn lemma_run_opening()
    ensures
        run(idle_model(), seq![ESCAPE_BYTE, OSC_BYTE] + progress_prefix()).next == opening_model(),
        run(idle_model(), seq![ESCAPE_BYTE, OSC_BYTE] + progress_prefix()).output.len() == 0,
        run(idle_model(), seq![ESCAPE_BYTE, OSC_BYTE] + progress_prefix()).events.len() == 0,
{
    let m0 = idle_model();
    let m1 = step(m0, ESCAPE_BYTE).next;
    let m2 = step(m1, OSC_BYTE).next;
    let m3 = step(m2, 0x39u8).next;
    let m4 = step(m3, 0x3Bu8).next;
    let m5 = step(m4, 0x34u8).next;
    let m6 = step(m5, 0x3Bu8).next;
    assert(m1.pending =~= seq![ESCAPE_BYTE]);
    assert(m2.pending =~= seq![ESCAPE_BYTE, OSC_BYTE]);
    assert(m3.pending =~= seq![ESCAPE_BYTE, OSC_BYTE, 0x39u8]);
    assert(m4.pending =~= seq![ESCAPE_BYTE, OSC_BYTE, 0x39u8, 0x3Bu8]);
    assert(m5.pending =~= seq![ESCAPE_BYTE, OSC_BYTE, 0x39u8, 0x3Bu8, 0x34u8]);
    assert(m6.pending =~= seq![ESCAPE_BYTE, OSC_BYTE, 0x39u8, 0x3Bu8, 0x34u8, 0x3Bu8]);
    assert(opening_model().pending =~= seq![ESCAPE_BYTE, OSC_BYTE, 0x39u8, 0x3Bu8, 0x34u8, 0x3Bu8]);
    assert(m6.pending == opening_model().pending);
    assert(m6 == opening_model());
    let h1 = seq![ESCAPE_BYTE];
    let h2 = h1 + seq![OSC_BYTE];
    let h3 = h2 + seq![0x39u8];
    let h4 = h3 + seq![0x3Bu8];
    let h5 = h4 + seq![0x34u8];
    let h6 = h5 + seq![0x3Bu8];
    lemma_run_one(m0, ESCAPE_BYTE);
    lemma_run_concat(m0, h1, seq![OSC_BYTE]);
    lemma_run_one(m1, OSC_BYTE);
    lemma_run_concat(m0, h2, seq![0x39u8]);
    lemma_run_one(m2, 0x39u8);
    lemma_run_concat(m0, h3, seq![0x3Bu8]);
    lemma_run_one(m3, 0x3Bu8);
    lemma_run_concat(m0, h4, seq![0x34u8]);
    lemma_run_one(m4, 0x34u8);
    lemma_run_concat(m0, h5, seq![0x3Bu8]);
    lemma_run_one(m5, 0x3Bu8);
    assert(h6 =~= seq![ESCAPE_BYTE, OSC_BYTE] + progress_prefix());
}

/// A complete, valid progress sequence that fits in the held-back buffer,
/// seen with nothing held back, is removed from the output entirely and
/// reported as exactly its one event, leaving the filter idle.
#[verifier::rlimit(40)]
pub proof fn lemma_sequence_recognized(sd: Seq<u8>, pd: Seq<u8>, bel: bool, ev: (u32, u32))
    requires
        sd.len() > 0,
        pd.len() > 0,
        all_digit_bytes(sd),
        all_digit_bytes(pd),
        progress_of(sd, pd) == Some(ev),
        sequence_bytes(sd, pd, bel).len() <= OSC_PROGRESS_MAX_PENDING_BYTES,
    ensures
        run(idle_model(), sequence_bytes(sd, pd, bel)).next == idle_model(),
        run(idle_model(), sequence_bytes(sd, pd, bel)).output.len() == 0,
        run(idle_model(), sequence_bytes(sd, pd, bel)).events == seq![ev],
{
    let m0 = idle_model();
    let opening = seq![ESCAPE_BYTE, OSC_BYTE] + progress_prefix();
    lemma_run_opening();
    let m6 = opening_model();
    // state digits
    lemma_run_state_digits(m6, sd);
    let m7 = run(m6, sd).next;
    lemma_run_concat(m0, opening, sd);
    let a7 = opening + sd;
    // separator
    let m8 = step(m7, SEMICOLON_BYTE).next;
    lemma_run_one(m7, SEMICOLON_BYTE);
    lemma_run_concat(m0, a7, seq![SEMICOLON_BYTE]);
    let a8 = a7 + seq![SEMICOLON_BYTE];
    assert(m8.phase == OscParserState::ParseProgress);
    assert(m8.state_digits =~= sd);
    assert(m8.progress_digits.len() == 0);
    assert(m8.pending =~= a8);
    // progress digits
    lemma_run_progress_digits(m8, pd);
    let m9 = run(m8, pd).next;
    lemma_run_concat(m0, a8, pd);
    let a9 = a8 + pd;
    assert(m9.progress_digits =~= pd);
    assert(run(m0, a9).output.len() == 0);
    assert(run(m0, a9).events.len() == 0);
    if bel {
        lemma_run_one(m9, BEL_BYTE);
        lemma_run_concat(m0, a9, seq![BEL_BYTE]);
        assert(a9 + seq![BEL_BYTE] =~= sequence_bytes(sd, pd, bel));
        assert(run(m0, a9).events + seq![ev] =~= seq![ev]);
    } else {
        let m10 = step(m9, ESCAPE_BYTE).next;
        lemma_run_one(m9, ESCAPE_BYTE);
        lemma_run_concat(m0, a9, seq![ESCAPE_BYTE]);
        let a10 = a9 + seq![ESCAPE_BYTE];
        assert(m10.state_digits =~= sd);
        assert(m10.progress_digits =~= pd);
        lemma_run_one(m10, ST_TERMINATOR_BYTE);
        lemma_run_concat(m0, a10, seq![ST_TERMINATOR_BYTE]);
        assert(a10 + seq![ST_TERMINATOR_BYTE] =~= sequence_bytes(sd, pd, bel));
        assert(run(m0, a10).events.len() == 0);
        assert(run(m0, a10).events + seq![ev] =~= seq![ev]);
    }
}

/// Every well-formed progress sequence `ESC ] 9;4;<state>;<progress>`,
/// closed by `BEL` or `ESC \`, whose state is at most 4 and whose progress
/// is at most 100, is taken out of the output of an idle filter and reported
/// as exactly one event: the state, with the progress (0 for the states none
/// and indeterminate). The digits may carry leading zeros as long as the
/// whole sequence fits in the held-back buffer.
pub proof fn lemma_valid_progress_sequence_reported(sd: Seq<u8>, pd: Seq<u8>, bel: bool)
    requires
        sd.len() > 0,
        pd.len() > 0,
        all_digit_bytes(sd),
        all_digit_bytes(pd),
        decimal_value(sd) <= 4,
        decimal_value(pd) <= 100,
        sequence_bytes(sd, pd, bel).len() <= OSC_PROGRESS_MAX_PENDING_BYTES,
    ensures
        run(idle_model(), sequence_bytes(sd, pd, bel)).output.len() == 0,
        run(idle_model(), sequence_bytes(sd, pd, bel)).events == seq![
            (
                decimal_value(sd) as u32,
                if decimal_value(sd) == 0 || decimal_value(sd) == 3 {
                    0u32
                } else {
                    decimal_value(pd) as u32
                },
            ),
        ],
        run(idle_model(), sequence_bytes(sd, pd, bel)).next == idle_model(),
{
    let state = decimal_value(sd) as u32;
    let progress = decimal_value(pd) as u32;
    let ev = (state, if state == 0 || state == 3 { 0u32 } else { progress });
    assert(parse_decimal(sd) == Some(state));
    assert(parse_decimal(pd) == Some(progress));
    assert(progress_of(sd, pd) == Some(ev));
    lemma_sequence_recognized(sd, pd, bel, ev);
}

} // verus!
