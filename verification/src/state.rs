//! Shared bridge state: the cached VFO frequency and mode, the TX flag, the
//! level meters and the streaming / stop flags. Levels are exact integers:
//! the RX input level is a numerator over 1280 and the TX output level is
//! kept as a sum of squared samples with its sample count.

use vstd::prelude::*;

verus! {

/// Operating mode of the radio, as reported by `MD` replies.
#[derive(Clone, Copy, PartialEq, Eq, Structural, Debug)]
pub enum Mode {
    Lsb,
    Usb,
    Cw,
    Fm,
    Am,
}

/// The mode selected by the digit of an `MD` reply; anything unrecognized
/// falls back to USB.
pub open spec fn mode_of_digit(b: u8) -> Mode {
    if b == 49 {
        Mode::Lsb
    } else if b == 50 {
        Mode::Usb
    } else if b == 51 {
        Mode::Cw
    } else if b == 52 {
        Mode::Fm
    } else if b == 53 {
        Mode::Am
    } else {
        Mode::Usb
    }
}

/// The display name of a mode, as ASCII bytes.
pub open spec fn mode_name(m: Mode) -> Seq<u8> {
    match m {
        Mode::Lsb => seq![76u8, 83u8, 66u8],
        Mode::Usb => seq![85u8, 83u8, 66u8],
        Mode::Cw => seq![67u8, 87u8],
        Mode::Fm => seq![70u8, 77u8],
        Mode::Am => seq![65u8, 77u8],
    }
}

impl Mode {
    /// Map the digit of an `MD` reply to a mode.
    pub fn from_digit(b: u8) -> (m: Mode)
        ensures
            m == mode_of_digit(b),
    {
        if b == 49 {
            Mode::Lsb
        } else if b == 50 {
            Mode::Usb
        } else if b == 51 {
            Mode::Cw
        } else if b == 52 {
            Mode::Fm
        } else if b == 53 {
            Mode::Am
        } else {
            Mode::Usb
        }
    }

    /// The display name of this mode.
    pub fn name_bytes(&self) -> (name: Vec<u8>)
        ensures
            name@ == mode_name(*self),
    {
        let mut name: Vec<u8> = Vec::new();
        match self {
            Mode::Lsb => {
                name.push(76);
                name.push(83);
                name.push(66);
            },
            Mode::Usb => {
                name.push(85);
                name.push(83);
                name.push(66);
            },
            Mode::Cw => {
                name.push(67);
                name.push(87);
            },
            Mode::Fm => {
                name.push(70);
                name.push(77);
            },
            Mode::Am => {
                name.push(65);
                name.push(77);
            },
        }
        proof {
            assert(name@ =~= mode_name(*self));
        }
        name
    }
}

/// Setting a mode by digit and reading its name back: digit `2` is USB.
pub proof fn lemma_mode_digit_roundtrip()
    ensures
        mode_name(mode_of_digit(50)) == seq![85u8, 83u8, 66u8],
{
}

/// State shared between the audio bridge, the control server and the
/// display surfaces.
pub struct SharedState {
    /// Cached VFO-A frequency in Hz.
    pub freq_hz: u64,
    /// Cached operating mode.
    pub mode: Mode,
    /// TX intent, owned by the control server.
    pub tx: bool,
    /// RX input level: numerator of a fraction over 1280 in [0, 1280].
    pub input_level_x1280: u16,
    /// TX output level: sum of squared samples of the last capture frame.
    pub output_sum_sq: u64,
    /// TX output level: number of samples the sum was taken over.
    pub output_samples: u32,
    /// Whether an inbound audio frame marker has been seen since the last
    /// stream-enable request.
    pub streaming_started: bool,
    /// Termination signal for the audio bridge.
    pub stop: bool,
}

impl SharedState {
    /// Initial shared state: 0 Hz, USB, receiving, all levels zero.
    pub fn new() -> (s: SharedState)
        ensures
            s.freq_hz == 0,
            s.mode == Mode::Usb,
            !s.tx,
            s.input_level_x1280 == 0,
            s.output_sum_sq == 0,
            s.output_samples == 0,
            !s.streaming_started,
            !s.stop,
    {
        SharedState {
            freq_hz: 0,
            mode: Mode::Usb,
            tx: false,
            input_level_x1280: 0,
            output_sum_sq: 0,
            output_samples: 0,
            streaming_started: false,
            stop: false,
        }
    }
}

} // verus!
