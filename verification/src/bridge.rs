//! The serial demultiplexer at the heart of the audio bridge: one byte
//! stream from the radio carries interleaved CAT text frames and audio
//! frames (`U`, `S`, payload, `;`), and this state machine splits them,
//! updates the cached frequency, mode and input level, and marks the safe
//! points at which pending CAT commands may be written out.
//!
//! The machine is specified by the ghost transition function [`demux_step`]
//! and its fold [`demux_run`]; the executable [`Bridge`] is proved to follow
//! them byte for byte.

use vstd::prelude::*;
use crate::audio::capture_samples;
use crate::audio::encode_tx_frame;
use crate::audio::frame_energy;
use crate::audio::frame_input_level;
use crate::audio::gate_open;
use crate::audio::input_level_x1280;
use crate::audio::silence_gate_open;
use crate::audio::sum_squares;
use crate::audio::tx_byte;
use crate::audio::bytes_to_i16_le;
use crate::cat::concat_all;
use crate::cat::fa_freq;
use crate::cat::md_mode;
use crate::cat::parse_fa;
use crate::cat::parse_md;
use crate::cat::CatQueue;
use crate::state::Mode;
use crate::state::SharedState;
use crate::trusdx::bytes_ev;
use crate::trusdx::LinkEvent;
use crate::trusdx::RadioLink;

verus! {

/// Payload bytes a single inbound audio frame may carry before it is
/// flushed in chunks.
pub open spec fn wave_buf_max() -> int {
    512
}

/// Ghost state of the demultiplexer together with the shared values it
/// drives: sub-state and buffers, plus the latched streaming flag, cached
/// frequency, mode and RX input level.
pub struct DemuxState {
    /// In the audio sub-state (payload bytes are being collected).
    pub audio: bool,
    /// Accumulated CAT text of the current frame.
    pub text: Seq<u8>,
    /// Accumulated audio payload of the current frame.
    pub wave: Seq<u8>,
    /// An audio frame marker has been seen since the last reset.
    pub started: bool,
    /// Cached VFO-A frequency in Hz.
    pub freq: u64,
    /// Cached operating mode.
    pub mode: Mode,
    /// RX input level, a numerator over 1280.
    pub level: int,
}

/// The buffers are within bounds and empty where the sub-state demands it.
pub open spec fn demux_wf(s: DemuxState) -> bool {
    &&& s.wave.len() < wave_buf_max()
    &&& !s.audio ==> s.wave.len() == 0
    &&& s.audio ==> s.text.len() == 0
    &&& 0 <= s.level <= 1280
}

/// The text buffer has just become the audio frame prefix `U`, `S`.
pub open spec fn is_us_prefix(t: Seq<u8>) -> bool {
    t.len() == 2 && t[0] == 85 && t[1] == 83
}

/// One byte of the inbound serial stream, as the bridge consumes it.
pub open spec fn demux_step(s: DemuxState, b: u8) -> DemuxState {
    if s.audio {
        if b == 59 {
            DemuxState {
                audio: false,
                text: s.text,
                wave: Seq::<u8>::empty(),
                started: s.started,
                freq: s.freq,
                mode: s.mode,
                level: if s.wave.len() > 0 {
                    input_level_x1280(s.wave)
                } else {
                    s.level
                },
            }
        } else {
            let w = s.wave.push(b);
            if w.len() >= wave_buf_max() {
                DemuxState {
                    audio: true,
                    text: s.text,
                    wave: Seq::<u8>::empty(),
                    started: s.started,
                    freq: s.freq,
                    mode: s.mode,
                    level: input_level_x1280(w),
                }
            } else {
                DemuxState {
                    audio: true,
                    text: s.text,
                    wave: w,
                    started: s.started,
                    freq: s.freq,
                    mode: s.mode,
                    level: s.level,
                }
            }
        }
    } else {
        let t = s.text.push(b);
        if is_us_prefix(t) {
            DemuxState {
                audio: true,
                text: Seq::<u8>::empty(),
                wave: s.wave,
                started: true,
                freq: s.freq,
                mode: s.mode,
                level: s.level,
            }
        } else if b == 59 {
            DemuxState {
                audio: false,
                text: Seq::<u8>::empty(),
                wave: s.wave,
                started: s.started,
                freq: match fa_freq(t) {
                    Some(v) => v,
                    None => s.freq,
                },
                mode: match md_mode(t) {
                    Some(m) => m,
                    None => s.mode,
                },
                level: s.level,
            }
        } else {
            DemuxState {
                audio: false,
                text: t,
                wave: s.wave,
                started: s.started,
                freq: s.freq,
                mode: s.mode,
                level: s.level,
            }
        }
    }
}

/// The audio frame flushed to playback by one byte, if any.
pub open spec fn demux_emit(s: DemuxState, b: u8) -> Option<Seq<u8>> {
    if s.audio {
        if b == 59 {
            if s.wave.len() > 0 {
                Some(s.wave)
            } else {
                None
            }
        } else if s.wave.len() + 1 >= wave_buf_max() {
            Some(s.wave.push(b))
        } else {
            None
        }
    } else {
        None
    }
}

/// Whether one byte ends at a safe point for draining queued CAT commands:
/// the terminator of an audio frame, or the terminator of a text frame.
pub open spec fn demux_drain(s: DemuxState, b: u8) -> bool {
    if s.audio {
        b == 59
    } else {
        !is_us_prefix(s.text.push(b)) && b == 59
    }
}

/// The state after consuming a whole byte sequence.
pub open spec fn demux_run(s: DemuxState, bytes: Seq<u8>) -> DemuxState
    decreases bytes.len(),
{
    if bytes.len() == 0 {
        s
    } else {
        demux_step(demux_run(s, bytes.drop_last()), bytes.last())
    }
}

/// All audio frames flushed while consuming a byte sequence, in order.
pub open spec fn demux_frames(s: DemuxState, bytes: Seq<u8>) -> Seq<Seq<u8>>
    decreases bytes.len(),
{
    if bytes.len() == 0 {
        Seq::<Seq<u8>>::empty()
    } else {
        let pre = demux_run(s, bytes.drop_last());
        let fs = demux_frames(s, bytes.drop_last());
        match demux_emit(pre, bytes.last()) {
            Some(f) => fs.push(f),
            None => fs,
        }
    }
}

/// Whether any safe drain point occurs while consuming a byte sequence.
pub open spec fn demux_any_drain(s: DemuxState, bytes: Seq<u8>) -> bool
    decreases bytes.len(),
{
    if bytes.len() == 0 {
        false
    } else {
        demux_any_drain(s, bytes.drop_last()) || demux_drain(
            demux_run(s, bytes.drop_last()),
            bytes.last(),
        )
    }
}

/// One step keeps the machine well-formed, and any frame it flushes holds
/// between 1 and 512 payload bytes: the payload buffer never exceeds 512
/// bytes before being flushed.
pub proof fn lemma_demux_step_wf(s: DemuxState, b: u8)
    requires
        demux_wf(s),
    ensures
        demux_wf(demux_step(s, b)),
        demux_emit(s, b) is Some ==> 1 <= demux_emit(s, b)->Some_0.len() <= wave_buf_max(),
{
    if s.audio && b != 59 && s.wave.len() + 1 >= wave_buf_max() {
        crate::audio::lemma_peak_mag_bounds(s.wave.push(b));
    }
    if s.audio && b == 59 && s.wave.len() > 0 {
        crate::audio::lemma_peak_mag_bounds(s.wave);
    }
}

/// A whole run keeps the machine well-formed.
pub proof fn lemma_demux_run_wf(s: DemuxState, bytes: Seq<u8>)
    requires
        demux_wf(s),
    ensures
        demux_wf(demux_run(s, bytes)),
    decreases bytes.len(),
{
    if bytes.len() > 0 {
        lemma_demux_run_wf(s, bytes.drop_last());
        lemma_demux_step_wf(demux_run(s, bytes.drop_last()), bytes.last());
    }
}

/// Once the streaming flag is set it stays set for the rest of any run: only
/// the explicit transition reset clears it.
pub proof fn lemma_streaming_latch(s: DemuxState, bytes: Seq<u8>)
    requires
        s.started,
    ensures
        demux_run(s, bytes).started,
    decreases bytes.len(),
{
    if bytes.len() > 0 {
        lemma_streaming_latch(s, bytes.drop_last());
    }
}

/// The streaming flag is true immediately after the machine has consumed an
/// audio frame prefix: entering the audio sub-state from text sets it.
pub proof fn lemma_stream_start_sets_flag(s: DemuxState, b: u8)
    requires
        !s.audio,
        demux_step(s, b).audio,
    ensures
        demux_step(s, b).started,
{
}

/// The streaming flag can only become true by consuming an audio frame
/// prefix: a step that turns it on is exactly the step that recognizes
/// `U`, `S` and enters the audio sub-state.
pub proof fn lemma_stream_flag_only_from_prefix(s: DemuxState, b: u8)
    requires
        !s.started,
        demux_step(s, b).started,
    ensures
        !s.audio,
        is_us_prefix(s.text.push(b)),
        demux_step(s, b).audio,
{
}

/// An audio frame prefix arriving at a text frame boundary enters the audio
/// sub-state with the text buffer reset, sets the streaming flag, and emits
/// no state update and no frame: the cached frequency, mode and level are
/// untouched.
pub proof fn lemma_us_prefix_resets(s: DemuxState)
    requires
        !s.audio,
        s.text.len() == 0,
    ensures
        ({
            let s2 = demux_run(s, seq![85u8, 83u8]);
            &&& s2.audio
            &&& s2.text.len() == 0
            &&& s2.wave == s.wave
            &&& s2.started
            &&& s2.freq == s.freq
            &&& s2.mode == s.mode
            &&& s2.level == s.level
        }),
        demux_frames(s, seq![85u8, 83u8]) == Seq::<Seq<u8>>::empty(),
{
    reveal_with_fuel(demux_run, 3);
    reveal_with_fuel(demux_frames, 3);
    let bytes = seq![85u8, 83u8];
    assert(bytes.drop_last() =~= seq![85u8]);
    assert(seq![85u8].drop_last() =~= Seq::<u8>::empty());
    let s1 = demux_step(s, 85);
    assert(demux_run(s, seq![85u8]) == s1);
    assert(s1.text =~= s.text.push(85));
    assert(!is_us_prefix(s.text.push(85)));
    assert(is_us_prefix(s1.text.push(83)));
    assert(demux_frames(s, bytes) =~= Seq::<Seq<u8>>::empty());
}

/// Runs compose: consuming `a` then `b` is consuming `a + b`, and the
/// flushed frames concatenate in order.
pub proof fn lemma_demux_run_append(s: DemuxState, a: Seq<u8>, b: Seq<u8>)
    ensures
        demux_run(s, a + b) == demux_run(demux_run(s, a), b),
        demux_frames(s, a + b) == demux_frames(s, a) + demux_frames(demux_run(s, a), b),
    decreases b.len(),
{
    if b.len() == 0 {
        assert(a + b =~= a);
        assert(demux_frames(s, a) + demux_frames(demux_run(s, a), b) =~= demux_frames(s, a));
    } else {
        lemma_demux_run_append(s, a, b.drop_last());
        assert((a + b).drop_last() =~= a + b.drop_last());
        assert((a + b).last() == b.last());
        match demux_emit(demux_run(s, a + b.drop_last()), b.last()) {
            Some(f) => {
                assert(demux_frames(s, a) + demux_frames(demux_run(s, a), b) =~= (demux_frames(
                    s,
                    a,
                ) + demux_frames(demux_run(s, a), b.drop_last())).push(f));
            },
            None => {
                assert(demux_frames(s, a) + demux_frames(demux_run(s, a), b) =~= demux_frames(
                    s,
                    a,
                ) + demux_frames(demux_run(s, a), b.drop_last()));
            },
        }
    }
}

/// Payload bytes free of the terminator only accumulate: as long as the
/// buffer stays under its bound, nothing is flushed and nothing else
/// changes.
pub proof fn lemma_feed_payload(s: DemuxState, payload: Seq<u8>)
    requires
        s.audio,
        s.wave.len() + payload.len() < wave_buf_max(),
        forall|i: int| 0 <= i < payload.len() ==> #[trigger] payload[i] != 59,
    ensures
        ({
            let s2 = demux_run(s, payload);
            &&& s2.audio
            &&& s2.wave == s.wave + payload
            &&& s2.text == s.text
            &&& s2.started == s.started
            &&& s2.freq == s.freq
            &&& s2.mode == s.mode
            &&& s2.level == s.level
        }),
        demux_frames(s, payload) == Seq::<Seq<u8>>::empty(),
    decreases payload.len(),
{
    if payload.len() == 0 {
        assert(s.wave + payload =~= s.wave);
    } else {
        lemma_feed_payload(s, payload.drop_last());
        let sp = demux_run(s, payload.drop_last());
        assert(sp.wave.push(payload.last()) =~= s.wave + payload);
        assert(demux_run(s, payload).wave == s.wave + payload);
    }
}

/// Text bytes free of the terminator only accumulate, as long as they do
/// not form the audio frame prefix at the second position: nothing is
/// flushed and no state update is emitted.
pub proof fn lemma_text_accumulates(s: DemuxState, text: Seq<u8>)
    requires
        !s.audio,
        s.text.len() == 0,
        forall|i: int| 0 <= i < text.len() ==> #[trigger] text[i] != 59,
        !(text.len() >= 2 && text[0] == 85 && text[1] == 83),
    ensures
        ({
            let s2 = demux_run(s, text);
            &&& !s2.audio
            &&& s2.text == text
            &&& s2.wave == s.wave
            &&& s2.started == s.started
            &&& s2.freq == s.freq
            &&& s2.mode == s.mode
            &&& s2.level == s.level
        }),
        demux_frames(s, text) == Seq::<Seq<u8>>::empty(),
    decreases text.len(),
{
    if text.len() == 0 {
    } else {
        lemma_text_accumulates(s, text.drop_last());
        let sp = demux_run(s, text.drop_last());
        assert(sp.text.push(text.last()) =~= text);
        assert(!is_us_prefix(text));
    }
}

/// A complete CAT text frame — a body free of the terminator and not
/// starting with the audio frame prefix, then `;` — arriving at a frame
/// boundary flushes no audio and leaves the machine at a boundary again,
/// with the cached frequency and mode updated exactly as the `FA` and `MD`
/// parses of the frame dictate, and everything else untouched.
pub proof fn lemma_cat_text_frame(s: DemuxState, body: Seq<u8>)
    requires
        !s.audio,
        s.text.len() == 0,
        forall|i: int| 0 <= i < body.len() ==> #[trigger] body[i] != 59,
        !(body.len() >= 2 && body[0] == 85 && body[1] == 83),
    ensures
        ({
            let s2 = demux_run(s, body + seq![59u8]);
            &&& !s2.audio
            &&& s2.text.len() == 0
            &&& s2.wave == s.wave
            &&& s2.started == s.started
            &&& s2.level == s.level
            &&& s2.freq == (match fa_freq(body.push(59)) {
                Some(v) => v,
                None => s.freq,
            })
            &&& s2.mode == (match md_mode(body.push(59)) {
                Some(m) => m,
                None => s.mode,
            })
        }),
        demux_frames(s, body + seq![59u8]) == Seq::<Seq<u8>>::empty(),
{
    lemma_text_accumulates(s, body);
    let s1 = demux_run(s, body);
    lemma_demux_run_append(s, body, seq![59u8]);
    reveal_with_fuel(demux_run, 2);
    reveal_with_fuel(demux_frames, 2);
    assert(seq![59u8].drop_last() =~= Seq::<u8>::empty());
    assert(demux_run(s1, seq![59u8]) == demux_step(s1, 59));
    assert(s1.text.push(59) =~= body.push(59));
    assert(!is_us_prefix(body.push(59)));
    assert(demux_frames(s1, seq![59u8]) =~= Seq::<Seq<u8>>::empty());
    assert(demux_frames(s, body) + demux_frames(s1, seq![59u8]) =~= Seq::<Seq<u8>>::empty());
}

/// An `FA` reply carrying a digit string delivers exactly its value to the
/// frequency cache, however many digits are present.
pub proof fn lemma_fa_reply_updates_freq(s: DemuxState, digits: Seq<u8>)
    requires
        !s.audio,
        s.text.len() == 0,
        digits.len() >= 1,
        crate::cat::all_digits(digits),
        crate::cat::digits_value(digits) <= u64::MAX,
    ensures
        demux_run(s, seq![70u8, 65u8] + digits + seq![59u8]).freq == crate::cat::digits_value(
            digits,
        ),
{
    let body = seq![70u8, 65u8] + digits;
    assert(forall|i: int| 0 <= i < digits.len() ==> #[trigger] body[2 + i] == digits[i]);
    assert(forall|i: int| 0 <= i < body.len() ==> #[trigger] body[i] != 59) by {
        assert(forall|i: int|
            2 <= i < body.len() ==> crate::cat::is_digit(#[trigger] body[i]) && body[i] != 59);
    }
    lemma_cat_text_frame(s, body);
    let frame = body.push(59);
    assert(crate::cat::is_fa(frame));
    let tail = frame.skip(2);
    assert(forall|i: int| 0 <= i < tail.len() ==> #[trigger] tail[i] == frame[2 + i]);
    assert(forall|i: int| 0 <= i < digits.len() ==> crate::cat::is_digit(#[trigger] tail[i]));
    assert(!crate::cat::is_digit(tail[digits.len() as int]));
    crate::cat::lemma_digit_run_len_is(tail, digits.len() as int);
    assert(crate::cat::fa_digits(frame) =~= digits);
    crate::cat::lemma_digits_value_nonneg(digits);
    assert(body + seq![59u8] =~= frame);
}

/// An `MD` reply delivers exactly the mode its digit names to the mode
/// cache, and touches nothing else; reading the cache back then yields
/// that mode's name (in particular, digit `2` reads back as USB).
pub proof fn lemma_md_reply_updates_mode(s: DemuxState, d: u8)
    requires
        !s.audio,
        s.text.len() == 0,
        d != 59,
    ensures
        ({
            let s2 = demux_run(s, seq![77u8, 68u8, d, 59u8]);
            &&& s2.mode == crate::state::mode_of_digit(d)
            &&& s2.freq == s.freq
            &&& s2.level == s.level
            &&& s2.started == s.started
        }),
{
    let body = seq![77u8, 68u8, d];
    lemma_cat_text_frame(s, body);
    let frame = body.push(59);
    assert(crate::cat::is_md(frame));
    assert(frame[2] == d);
    assert(!crate::cat::is_fa(frame));
    assert(seq![77u8, 68u8, d, 59u8] =~= body + seq![59u8]);
}

/// A whole inbound audio frame — the `U`, `S` prefix, a payload free of
/// the terminator, then `;` — arriving at a text frame boundary is
/// delivered exactly: the one flushed frame is the payload (whose samples
/// a playback layer realizes as `(b - 128) / 128` each), the input level
/// becomes the payload's scaled peak, the streaming flag is set, and the
/// machine is back in the text sub-state with nothing retained.
pub proof fn lemma_audio_frame_delivery(s: DemuxState, payload: Seq<u8>)
    requires
        demux_wf(s),
        !s.audio,
        s.text.len() == 0,
        1 <= payload.len() < wave_buf_max(),
        forall|i: int| 0 <= i < payload.len() ==> #[trigger] payload[i] != 59,
    ensures
        ({
            let bytes = seq![85u8, 83u8] + payload + seq![59u8];
            let s2 = demux_run(s, bytes);
            &&& demux_frames(s, bytes) == seq![payload]
            &&& !s2.audio
            &&& s2.wave.len() == 0
            &&& s2.text.len() == 0
            &&& s2.started
            &&& s2.freq == s.freq
            &&& s2.mode == s.mode
            &&& s2.level == input_level_x1280(payload)
        }),
{
    let us = seq![85u8, 83u8];
    let terminator = seq![59u8];
    lemma_us_prefix_resets(s);
    let s1 = demux_run(s, us);
    lemma_feed_payload(s1, payload);
    let s2 = demux_run(s1, payload);
    assert(s2.wave =~= payload);
    lemma_demux_run_append(s, us, payload);
    lemma_demux_run_append(s, us + payload, terminator);
    assert(us + payload + terminator == (us + payload) + terminator);
    assert(demux_run(s, us + payload) == s2);
    reveal_with_fuel(demux_run, 2);
    reveal_with_fuel(demux_frames, 2);
    assert(terminator.drop_last() =~= Seq::<u8>::empty());
    assert(demux_run(s2, terminator) == demux_step(s2, 59));
    assert(demux_frames(s2, terminator) =~= seq![payload]);
    assert(demux_frames(s, us + payload) + seq![payload] =~= seq![payload]);
}

/// The demultiplexing state proper of the audio bridge, retained across
/// loop iterations.
pub struct Bridge {
    /// Currently inside an inbound audio frame.
    pub inbound_audio: bool,
    /// Accumulated CAT text bytes of the current frame.
    pub text_buf: Vec<u8>,
    /// Accumulated audio payload bytes of the current frame.
    pub wave_buf: Vec<u8>,
    /// TX flag observed on the previous iteration.
    pub prev_tx: bool,
}

/// The ghost demultiplexer state that a bridge and the shared state realize.
pub open spec fn demux_view(bridge: Bridge, shared: SharedState) -> DemuxState {
    DemuxState {
        audio: bridge.inbound_audio,
        text: bridge.text_buf@,
        wave: bridge.wave_buf@,
        started: shared.streaming_started,
        freq: shared.freq_hz,
        mode: shared.mode,
        level: shared.input_level_x1280 as int,
    }
}

/// Mode transition observed at the top of a bridge iteration.
#[derive(Clone, Copy, PartialEq, Eq, Structural, Debug)]
pub enum TxTransition {
    /// No change since the previous iteration.
    Steady,
    /// The TX flag has just been raised.
    EnterTx,
    /// The TX flag has just been dropped.
    EnterRx,
}

impl Bridge {
    /// A fresh bridge: text sub-state, empty buffers, previously receiving.
    pub fn new() -> (b: Bridge)
        ensures
            !b.inbound_audio,
            b.text_buf@.len() == 0,
            b.wave_buf@.len() == 0,
            !b.prev_tx,
    {
        Bridge { inbound_audio: false, text_buf: Vec::new(), wave_buf: Vec::new(), prev_tx: false }
    }

    /// Compare the TX flag against the previous iteration's and remember it.
    pub fn observe_tx(&mut self, tx: bool) -> (t: TxTransition)
        ensures
            final(self).prev_tx == tx,
            final(self).inbound_audio == old(self).inbound_audio,
            final(self).text_buf@ == old(self).text_buf@,
            final(self).wave_buf@ == old(self).wave_buf@,
            t == (if tx && !old(self).prev_tx {
                TxTransition::EnterTx
            } else if !tx && old(self).prev_tx {
                TxTransition::EnterRx
            } else {
                TxTransition::Steady
            }),
    {
        let was = self.prev_tx;
        self.prev_tx = tx;
        if tx && !was {
            TxTransition::EnterTx
        } else if !tx && was {
            TxTransition::EnterRx
        } else {
            TxTransition::Steady
        }
    }

    /// Reset on a TX-to-RX transition: leave the audio sub-state, clear both
    /// frame buffers, and clear the streaming flag so that the stream-enable
    /// request can be confirmed afresh.
    pub fn reset_for_rx(&mut self, shared: &mut SharedState)
        ensures
            !final(self).inbound_audio,
            final(self).text_buf@.len() == 0,
            final(self).wave_buf@.len() == 0,
            final(self).prev_tx == old(self).prev_tx,
            !final(shared).streaming_started,
            final(shared).freq_hz == old(shared).freq_hz,
            final(shared).mode == old(shared).mode,
            final(shared).tx == old(shared).tx,
            final(shared).stop == old(shared).stop,
            final(shared).input_level_x1280 == old(shared).input_level_x1280,
            final(shared).output_sum_sq == old(shared).output_sum_sq,
            final(shared).output_samples == old(shared).output_samples,
    {
        self.inbound_audio = false;
        self.text_buf.clear();
        self.wave_buf.clear();
        shared.streaming_started = false;
    }

    /// Consume one inbound serial byte. Returns the audio frame to flush to
    /// playback, if this byte completed one, and whether this byte ended at
    /// a safe CAT drain point.
    pub fn feed_byte(&mut self, shared: &mut SharedState, b: u8) -> (r: (Option<Vec<u8>>, bool))
        requires
            demux_wf(demux_view(*old(self), *old(shared))),
        ensures
            ({
                let pre = demux_view(*old(self), *old(shared));
                let post = demux_view(*final(self), *final(shared));
                &&& post == demux_step(pre, b)
                &&& demux_wf(post)
                &&& (match (r.0, demux_emit(pre, b)) {
                    (Some(f), Some(g)) => f@ == g,
                    (None, None) => true,
                    _ => false,
                })
                &&& r.1 == demux_drain(pre, b)
                &&& final(self).prev_tx == old(self).prev_tx
                &&& final(shared).tx == old(shared).tx
                &&& final(shared).stop == old(shared).stop
                &&& final(shared).output_sum_sq == old(shared).output_sum_sq
                &&& final(shared).output_samples == old(shared).output_samples
            }),
    {
        proof {
            lemma_demux_step_wf(demux_view(*self, *shared), b);
        }
        if self.inbound_audio {
            if b == 59 {
                // End of an audio frame: flush, return to text, drain.
                let mut frame: Vec<u8> = Vec::new();
                core::mem::swap(&mut frame, &mut self.wave_buf);
                self.inbound_audio = false;
                if frame.len() > 0 {
                    shared.input_level_x1280 = frame_input_level(&frame);
                    (Some(frame), true)
                } else {
                    (None, true)
                }
            } else {
                self.wave_buf.push(b);
                if self.wave_buf.len() >= 512 {
                    // Oversize frame: flush this chunk, stay in audio.
                    let mut frame: Vec<u8> = Vec::new();
                    core::mem::swap(&mut frame, &mut self.wave_buf);
                    shared.input_level_x1280 = frame_input_level(&frame);
                    (Some(frame), false)
                } else {
                    (None, false)
                }
            }
        } else {
            self.text_buf.push(b);
            if self.text_buf.len() == 2 && self.text_buf[0] == 85 && self.text_buf[1] == 83 {
                // Audio frame prefix: enter the audio sub-state.
                self.text_buf.clear();
                self.inbound_audio = true;
                shared.streaming_started = true;
                (None, false)
            } else if b == 59 {
                // A complete CAT text frame: parse and reset.
                match parse_fa(&self.text_buf) {
                    Some(hz) => {
                        shared.freq_hz = hz;
                    },
                    None => {},
                }
                match parse_md(&self.text_buf) {
                    Some(m) => {
                        shared.mode = m;
                    },
                    None => {},
                }
                self.text_buf.clear();
                (None, true)
            } else {
                (None, false)
            }
        }
    }
}

/// The port trace grew only by data bytes: it still starts with the old
/// trace, and every new event is a `Byte` (never a line-signal change).
pub open spec fn wire_grew_bytes(pre: Seq<LinkEvent>, post: Seq<LinkEvent>) -> bool {
    &&& post.len() >= pre.len()
    &&& post.take(pre.len() as int) == pre
    &&& forall|i: int| pre.len() <= i < post.len() ==> #[trigger] post[i] is Byte
}

pub proof fn lemma_wire_grew_bytes_refl(w: Seq<LinkEvent>)
    ensures
        wire_grew_bytes(w, w),
{
    assert(w.take(w.len() as int) =~= w);
}

pub proof fn lemma_wire_grew_bytes_trans(a: Seq<LinkEvent>, b: Seq<LinkEvent>, c: Seq<LinkEvent>)
    requires
        wire_grew_bytes(a, b),
        wire_grew_bytes(b, c),
    ensures
        wire_grew_bytes(a, c),
{
    assert forall|i: int| 0 <= i < b.len() implies c[i] == b[i] by {
        assert(c.take(b.len() as int)[i] == c[i]);
        assert(c.take(b.len() as int)[i] == b[i]);
    }
    assert forall|i: int| 0 <= i < a.len() implies b[i] == a[i] by {
        assert(b.take(a.len() as int)[i] == b[i]);
        assert(b.take(a.len() as int)[i] == a[i]);
    }
    assert(c.take(a.len() as int) =~= a);
    assert forall|i: int| a.len() <= i < c.len() implies #[trigger] c[i] is Byte by {
        if i < b.len() {
            assert(b[i] is Byte);
        }
    }
}

/// Appending data bytes to the trace grows it by bytes only.
pub proof fn lemma_bytes_append_grew(pre: Seq<LinkEvent>, s: Seq<u8>)
    ensures
        wire_grew_bytes(pre, pre + bytes_ev(s)),
{
    let post = pre + bytes_ev(s);
    assert(post.take(pre.len() as int) =~= pre);
    assert forall|i: int| pre.len() <= i < post.len() implies #[trigger] post[i] is Byte by {
        assert(post[i] == bytes_ev(s)[i - pre.len()]);
        assert(bytes_ev(s)[i - pre.len()] == LinkEvent::Byte(s[i - pre.len()]));
    }
}

/// Write every queued CAT command to the link in one batch, then flush.
/// The queue is emptied; on success the trace grows by exactly the
/// concatenation of the queued commands, and in every case it grows only
/// by data bytes.
pub fn drain_cat(queue: &mut CatQueue, link: &mut RadioLink) -> (ok: bool)
    ensures
        final(queue)@.len() == 0,
        ok ==> final(link)@.wire == old(link)@.wire + bytes_ev(concat_all(old(queue)@)),
        wire_grew_bytes(old(link)@.wire, final(link)@.wire),
        final(link)@.rts == old(link)@.rts,
        final(link)@.dtr == old(link)@.dtr,
{
    let cmds = queue.take_all();
    let ghost q0 = old(queue)@;
    let mut ok = true;
    let mut i: usize = 0;
    proof {
        assert(q0.take(0) =~= Seq::<Seq<u8>>::empty());
        assert(old(link)@.wire + bytes_ev(concat_all(q0.take(0))) =~= old(link)@.wire);
        lemma_wire_grew_bytes_refl(old(link)@.wire);
    }
    while i < cmds.len()
        invariant
            i <= cmds@.len(),
            cmds@.map_values(|v: Vec<u8>| v@) == q0,
            ok ==> link@.wire == old(link)@.wire + bytes_ev(concat_all(q0.take(i as int))),
            wire_grew_bytes(old(link)@.wire, link@.wire),
            link@.rts == old(link)@.rts,
            link@.dtr == old(link)@.dtr,
        decreases cmds@.len() - i,
    {
        let ghost wire_pre = link@.wire;
        proof {
            assert(q0[i as int] == cmds@[i as int]@);
        }
        let sent = link.ser_write_all(cmds[i].as_slice());
        proof {
            if sent {
                if ok {
                    let q1 = q0.take(i + 1);
                    assert(q1.drop_last() =~= q0.take(i as int));
                    assert(q1.last() == q0[i as int]);
                    assert(concat_all(q1) == concat_all(q0.take(i as int)) + cmds@[i as int]@);
                    assert(bytes_ev(concat_all(q0.take(i as int)) + cmds@[i as int]@) =~= bytes_ev(
                        concat_all(q0.take(i as int)),
                    ) + bytes_ev(cmds@[i as int]@));
                    assert(old(link)@.wire + bytes_ev(concat_all(q1)) =~= (old(link)@.wire
                        + bytes_ev(concat_all(q0.take(i as int)))) + bytes_ev(cmds@[i as int]@));
                }
                lemma_bytes_append_grew(wire_pre, cmds@[i as int]@);
            } else {
                let k = choose|k: int|
                    0 <= k <= cmds@[i as int]@.len() && link@.wire == wire_pre + bytes_ev(
                        cmds@[i as int]@.take(k),
                    );
                lemma_bytes_append_grew(wire_pre, cmds@[i as int]@.take(k));
            }
            lemma_wire_grew_bytes_trans(old(link)@.wire, wire_pre, link@.wire);
        }
        if !sent {
            ok = false;
        }
        i = i + 1;
    }
    let _ = link.flush_serial_line();
    proof {
        assert(q0.take(cmds@.len() as int) =~= q0);
    }
    ok
}

/// A zero-filled byte buffer.
fn byte_buffer(n: usize) -> (buf: Vec<u8>)
    ensures
        buf@.len() == n,
{
    let mut buf: Vec<u8> = Vec::new();
    while buf.len() < n
        invariant
            buf@.len() <= n,
        decreases n - buf@.len(),
    {
        buf.push(0);
    }
    buf
}

/// A zero-filled sample buffer.
fn i16_buffer(n: usize) -> (buf: Vec<i16>)
    ensures
        buf@.len() == n,
{
    let mut buf: Vec<i16> = Vec::new();
    while buf.len() < n
        invariant
            buf@.len() <= n,
        decreases n - buf@.len(),
    {
        buf.push(0);
    }
    buf
}

impl Bridge {
    /// Demultiplex the `n` freshly received leading bytes of `data`: feed
    /// each byte through the state machine, drain pending CAT commands at
    /// each safe point, and collect the flushed audio frames in order.
    pub fn rx_process_bytes(
        &mut self,
        shared: &mut SharedState,
        queue: &mut CatQueue,
        link: &mut RadioLink,
        data: &Vec<u8>,
        n: usize,
    ) -> (frames: Vec<Vec<u8>>)
        requires
            demux_wf(demux_view(*old(self), *old(shared))),
            n <= data@.len(),
        ensures
            ({
                let pre = demux_view(*old(self), *old(shared));
                let received = data@.take(n as int);
                let post = demux_view(*final(self), *final(shared));
                &&& post == demux_run(pre, received)
                &&& demux_wf(post)
                &&& frames@.map_values(|v: Vec<u8>| v@) == demux_frames(pre, received)
                &&& (demux_any_drain(pre, received) ==> final(queue)@.len() == 0)
                &&& (!demux_any_drain(pre, received) ==> final(queue)@ == old(queue)@)
                &&& wire_grew_bytes(old(link)@.wire, final(link)@.wire)
                &&& final(link)@.rts == old(link)@.rts
                &&& final(link)@.dtr == old(link)@.dtr
                &&& final(self).prev_tx == old(self).prev_tx
                &&& final(shared).tx == old(shared).tx
                &&& final(shared).stop == old(shared).stop
                &&& final(shared).output_sum_sq == old(shared).output_sum_sq
                &&& final(shared).output_samples == old(shared).output_samples
            }),
    {
        let mut frames: Vec<Vec<u8>> = Vec::new();
        let mut i: usize = 0;
        let ghost pre = demux_view(*self, *shared);
        let ghost received = data@.take(n as int);
        proof {
            assert(received.take(0) =~= Seq::<u8>::empty());
            assert(frames@.map_values(|v: Vec<u8>| v@) =~= Seq::<Seq<u8>>::empty());
            lemma_wire_grew_bytes_refl(link@.wire);
        }
        while i < n
            invariant
                i <= n <= data@.len(),
                pre == demux_view(*old(self), *old(shared)),
                demux_wf(pre),
                received == data@.take(n as int),
                demux_view(*self, *shared) == demux_run(pre, received.take(i as int)),
                demux_wf(demux_view(*self, *shared)),
                frames@.map_values(|v: Vec<u8>| v@) == demux_frames(pre, received.take(i as int)),
                demux_any_drain(pre, received.take(i as int)) ==> queue@.len() == 0,
                !demux_any_drain(pre, received.take(i as int)) ==> queue@ == old(queue)@,
                wire_grew_bytes(old(link)@.wire, link@.wire),
                link@.rts == old(link)@.rts,
                link@.dtr == old(link)@.dtr,
                self.prev_tx == old(self).prev_tx,
                shared.tx == old(shared).tx,
                shared.stop == old(shared).stop,
                shared.output_sum_sq == old(shared).output_sum_sq,
                shared.output_samples == old(shared).output_samples,
            decreases n - i,
        {
            let b = data[i];
            proof {
                assert(received[i as int] == data@[i as int]);
                assert(received.take(i + 1).drop_last() =~= received.take(i as int));
                assert(received.take(i + 1).last() == received[i as int]);
            }
            let ghost frames_pre = frames@.map_values(|v: Vec<u8>| v@);
            let r = self.feed_byte(shared, b);
            match r.0 {
                Some(f) => {
                    let ghost fv = f@;
                    frames.push(f);
                    proof {
                        assert(frames@.map_values(|v: Vec<u8>| v@) =~= frames_pre.push(fv));
                    }
                },
                None => {},
            }
            if r.1 {
                let ghost wire_mid = link@.wire;
                let _ = drain_cat(queue, link);
                proof {
                    lemma_wire_grew_bytes_trans(old(link)@.wire, wire_mid, link@.wire);
                }
            }
            i = i + 1;
        }
        proof {
            assert(received.take(n as int) =~= received);
        }
        frames
    }

    /// One RX iteration of the bridge: zero the TX output level, read up
    /// to 512 bytes from the serial port (a timeout counts as nothing
    /// received), demultiplex them, and return the audio frames to hand to
    /// playback.
    pub fn rx_iteration(
        &mut self,
        shared: &mut SharedState,
        queue: &mut CatQueue,
        link: &mut RadioLink,
    ) -> (frames: Vec<Vec<u8>>)
        requires
            demux_wf(demux_view(*old(self), *old(shared))),
        ensures
            final(shared).output_sum_sq == 0,
            final(shared).output_samples == 0,
            exists|received: Seq<u8>|
                {
                    &&& received.len() <= 512
                    &&& demux_view(*final(self), *final(shared)) == #[trigger] demux_run(
                        demux_view(*old(self), *old(shared)),
                        received,
                    )
                    &&& demux_wf(demux_view(*final(self), *final(shared)))
                    &&& frames@.map_values(|v: Vec<u8>| v@) == demux_frames(
                        demux_view(*old(self), *old(shared)),
                        received,
                    )
                    &&& (demux_any_drain(demux_view(*old(self), *old(shared)), received) ==> final(queue)@.len() == 0)
                    &&& (!demux_any_drain(demux_view(*old(self), *old(shared)), received) ==> final(queue)@ == old(queue)@)
                },
            wire_grew_bytes(old(link)@.wire, final(link)@.wire),
            final(link)@.rts == old(link)@.rts,
            final(link)@.dtr == old(link)@.dtr,
            final(self).prev_tx == old(self).prev_tx,
            final(shared).tx == old(shared).tx,
            final(shared).stop == old(shared).stop,
    {
        shared.output_sum_sq = 0;
        shared.output_samples = 0;
        let mut buf = byte_buffer(512);
        let n: usize = match link.ser_read(&mut buf) {
            Some(k) => k,
            None => 0,
        };
        let frames = self.rx_process_bytes(shared, queue, link, &buf, n);
        proof {
            let received = buf@.take(n as int);
            assert(received.len() <= 512);
        }
        frames
    }
}

/// The trace went from `pre` to some byte-only growth `mid` (the drained
/// CAT batch) and then by a prefix of exactly the given payload: past
/// `mid`, nothing but payload bytes — none of them the frame terminator —
/// reached the port.
pub open spec fn wire_ends_with_payload_prefix(
    pre: Seq<LinkEvent>,
    post: Seq<LinkEvent>,
    payload: Seq<u8>,
) -> bool {
    exists|mid: Seq<LinkEvent>, k: int|
        {
            &&& wire_grew_bytes(pre, mid)
            &&& 0 <= k <= payload.len()
            &&& post == #[trigger] mid.add(bytes_ev(payload.take(k)))
        }
}

/// One TX iteration of the bridge over a freshly captured byte frame:
/// drain pending CAT commands first (TX is a safe write window), zero the
/// RX input level, decode the capture into 16-bit samples, publish the
/// output level, and unless the silence gate holds the frame back, encode
/// it to escaped offset-binary and send it raw. Returns the escaped
/// payload handed to the port, if the frame was loud enough.
pub fn tx_iteration(
    shared: &mut SharedState,
    queue: &mut CatQueue,
    link: &mut RadioLink,
    capture: &Vec<u8>,
) -> (sent: Option<Vec<u8>>)
    requires
        capture@.len() <= 0x1_0000_0000,
    ensures
        ({
            let samples = capture_samples(capture@);
            &&& final(shared).input_level_x1280 == 0
            &&& final(shared).output_sum_sq == sum_squares(samples)
            &&& final(shared).output_samples == samples.len()
            &&& final(shared).freq_hz == old(shared).freq_hz
            &&& final(shared).mode == old(shared).mode
            &&& final(shared).tx == old(shared).tx
            &&& final(shared).stop == old(shared).stop
            &&& final(shared).streaming_started == old(shared).streaming_started
            &&& final(queue)@.len() == 0
            &&& (sent is Some <==> gate_open(sum_squares(samples), samples.len() as int))
            &&& (match sent {
                Some(f) => f@.len() == samples.len() && (forall|i: int|
                    0 <= i < f@.len() ==> #[trigger] f@[i] == tx_byte(samples[i]) && f@[i] != 59),
                None => true,
            })
            &&& (match sent {
                Some(f) => wire_ends_with_payload_prefix(old(link)@.wire, final(link)@.wire, f@),
                None => true,
            })
            &&& wire_grew_bytes(old(link)@.wire, final(link)@.wire)
            &&& final(link)@.rts == old(link)@.rts
            &&& final(link)@.dtr == old(link)@.dtr
        }),
{
    if !queue.is_empty() {
        let _ = drain_cat(queue, link);
    } else {
        proof {
            lemma_wire_grew_bytes_refl(link@.wire);
        }
    }
    shared.input_level_x1280 = 0;
    let n: usize = capture.len() / 2;
    let mut samples = i16_buffer(n);
    bytes_to_i16_le(capture.as_slice(), &mut samples);
    proof {
        assert(samples@ =~= capture_samples(capture@));
    }
    let energy = frame_energy(&samples);
    shared.output_sum_sq = energy;
    shared.output_samples = n as u32;
    let open = silence_gate_open(energy, n as u64);
    if !open {
        return None;
    }
    let frame = encode_tx_frame(&samples);
    let ghost wire_mid = link@.wire;
    let _ = link.send_audio_stream_raw(frame.as_slice());
    proof {
        let k = choose|k: int|
            0 <= k <= frame@.len() && link@.wire == wire_mid + bytes_ev(frame@.take(k));
        lemma_bytes_append_grew(wire_mid, frame@.take(k));
        lemma_wire_grew_bytes_trans(old(link)@.wire, wire_mid, link@.wire);
        assert(wire_ends_with_payload_prefix(old(link)@.wire, link@.wire, frame@)) by {
            assert(wire_grew_bytes(old(link)@.wire, wire_mid));
            assert(link@.wire == wire_mid.add(bytes_ev(frame@.take(k))));
        }
    }
    Some(frame)
}

} // verus!
