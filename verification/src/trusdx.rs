//! The radio link: a serial port to the transceiver together with the
//! cached RTS/DTR line-signal state and a ghost trace of everything handed
//! to the port. All typed command sends are verified against that trace;
//! only the narrow calls into the serial-port crate are trusted.

use vstd::prelude::*;
use crate::cat::fa_query_cmd;
use crate::cat::md_cmd;
use crate::cat::stream_enable_cmd;
use crate::cat::tx0_cmd;
use crate::cat::cmd_fa_query;
use crate::cat::cmd_set_mode;
use crate::cat::cmd_stream_enable;
use crate::cat::cmd_tx0;

verus! {

#[verifier::external_type_specification]
#[verifier::external_body]
pub struct ExTTYPort(serialport::TTYPort);

/// One event handed to the serial port: a data byte or a line-signal
/// request that the port accepted.
pub enum LinkEvent {
    /// One data byte written to the port.
    Byte(u8),
    /// A successful request-to-send level change.
    Rts(bool),
    /// A successful data-terminal-ready level change.
    Dtr(bool),
}

/// The event trace of a byte string written to the port.
pub open spec fn bytes_ev(s: Seq<u8>) -> Seq<LinkEvent> {
    s.map_values(|b: u8| LinkEvent::Byte(b))
}

/// The USB vendor id of the CH340 serial bridge the radio presents, as
/// lowercase hex text: `1a86`.
pub open spec fn trusdx_vendor_id() -> Seq<u8> {
    seq![49u8, 97u8, 56u8, 54u8]
}

/// The USB product id of the CH340 serial bridge, as lowercase hex text:
/// `7523`.
pub open spec fn trusdx_product_id() -> Seq<u8> {
    seq![55u8, 53u8, 50u8, 51u8]
}

/// Whether a USB device's vendor and product id (lowercase hex text, as
/// read from the device tree) identify the radio's CH340 serial bridge.
pub fn matches_trusdx_ids(vid: &[u8], pid: &[u8]) -> (r: bool)
    ensures
        r == (vid@ == trusdx_vendor_id() && pid@ == trusdx_product_id()),
{
    let mut v: Vec<u8> = Vec::new();
    v.push(49);
    v.push(97);
    v.push(56);
    v.push(54);
    let mut p: Vec<u8> = Vec::new();
    p.push(55);
    p.push(53);
    p.push(50);
    p.push(51);
    proof {
        assert(v@ =~= trusdx_vendor_id());
        assert(p@ =~= trusdx_product_id());
    }
    crate::cat::bytes_eq(vid, v.as_slice()) && crate::cat::bytes_eq(pid, p.as_slice())
}

/// Abstract state of a radio link: the trace of events handed to the port
/// (data bytes and line-signal changes, in order) and the cached last
/// requested RTS/DTR values.
pub struct LinkView {
    /// Every event handed to the port so far, in order.
    pub wire: Seq<LinkEvent>,
    /// Last successfully requested RTS level.
    pub rts: bool,
    /// Last successfully requested DTR level.
    pub dtr: bool,
}

/// The opened serial device, its line-signal cache, and its ghost trace.
pub struct RadioLink {
    port: serialport::TTYPort,
    last_rts: bool,
    last_dtr: bool,
    wire: Ghost<Seq<LinkEvent>>,
}

impl View for RadioLink {
    type V = LinkView;

    closed spec fn view(&self) -> LinkView {
        LinkView { wire: self.wire@, rts: self.last_rts, dtr: self.last_dtr }
    }
}

impl RadioLink {
    /// Wrap an opened serial port; the trace starts empty and both
    /// line-signal caches start low.
    pub fn new(port: serialport::TTYPort) -> (link: RadioLink)
        ensures
            link@.wire == Seq::<LinkEvent>::empty(),
            !link@.rts,
            !link@.dtr,
    {
        RadioLink { port, last_rts: false, last_dtr: false, wire: Ghost(Seq::empty()) }
    }

    /// Relies on `std::io::Write::write_all` for `serialport::TTYPort`: on
    /// success the whole buffer was handed to the port; on failure some
    /// prefix of it may have been.
    #[verifier::external_body]
    pub(crate) fn ser_write_all(&mut self, data: &[u8]) -> (ok: bool)
        ensures
            ok ==> final(self)@.wire == old(self)@.wire + bytes_ev(data@),
            !ok ==> exists|k: int|
                0 <= k <= data@.len() && final(self)@.wire == old(self)@.wire + bytes_ev(
                    data@.take(k),
                ),
            final(self)@.rts == old(self)@.rts,
            final(self)@.dtr == old(self)@.dtr,
    {
        std::io::Write::write_all(&mut self.port, data).is_ok()
    }

    /// Relies on `std::io::Write::write` for `serialport::TTYPort`: on
    /// success it hands some prefix of the buffer, of the returned length,
    /// to the port; if it returns an error, no byte was written.
    #[verifier::external_body]
    fn ser_write(&mut self, data: &[u8]) -> (r: Option<usize>)
        ensures
            match r {
                Some(n) => n <= data@.len() && final(self)@.wire == old(self)@.wire + bytes_ev(
                    data@.take(n as int),
                ),
                None => final(self)@.wire == old(self)@.wire,
            },
            final(self)@.rts == old(self)@.rts,
            final(self)@.dtr == old(self)@.dtr,
    {
        match std::io::Write::write(&mut self.port, data) {
            Ok(n) => Some(n),
            Err(_) => None,
        }
    }

    /// Relies on `std::io::Write::flush` for `serialport::TTYPort` (a
    /// `tcdrain`): it waits for transmission and hands nothing new to the
    /// port.
    #[verifier::external_body]
    fn ser_flush(&mut self) -> (ok: bool)
        ensures
            final(self)@ == old(self)@,
    {
        std::io::Write::flush(&mut self.port).is_ok()
    }

    /// Relies on `serialport::SerialPort::write_request_to_send`: one
    /// line-signal ioctl that either takes effect or fails without effect.
    #[verifier::external_body]
    fn ser_set_rts(&mut self, high: bool) -> (ok: bool)
        ensures
            ok ==> final(self)@.wire == old(self)@.wire + seq![LinkEvent::Rts(high)],
            !ok ==> final(self)@.wire == old(self)@.wire,
            final(self)@.rts == old(self)@.rts,
            final(self)@.dtr == old(self)@.dtr,
    {
        serialport::SerialPort::write_request_to_send(&mut self.port, high).is_ok()
    }

    /// Relies on `serialport::SerialPort::write_data_terminal_ready`: one
    /// line-signal ioctl that either takes effect or fails without effect.
    #[verifier::external_body]
    fn ser_set_dtr(&mut self, high: bool) -> (ok: bool)
        ensures
            ok ==> final(self)@.wire == old(self)@.wire + seq![LinkEvent::Dtr(high)],
            !ok ==> final(self)@.wire == old(self)@.wire,
            final(self)@.rts == old(self)@.rts,
            final(self)@.dtr == old(self)@.dtr,
    {
        serialport::SerialPort::write_data_terminal_ready(&mut self.port, high).is_ok()
    }

    /// Relies on `std::io::Read::read` for `serialport::TTYPort`: it fills
    /// at most `buf.len()` leading bytes with whatever the radio sent and
    /// returns how many, timing out with an error when nothing arrives.
    #[verifier::external_body]
    pub(crate) fn ser_read(&mut self, buf: &mut Vec<u8>) -> (r: Option<usize>)
        ensures
            match r {
                Some(n) => n <= final(buf)@.len(),
                None => true,
            },
            final(buf)@.len() == old(buf)@.len(),
            final(self)@ == old(self)@,
    {
        match std::io::Read::read(&mut self.port, buf.as_mut_slice()) {
            Ok(n) => Some(n),
            Err(_) => None,
        }
    }

    /// Last requested RTS level, as cached by successful requests.
    pub fn last_rts_state(&self) -> (r: bool)
        ensures
            r == self@.rts,
    {
        self.get_last_rts()
    }

    /// Read the cached RTS level.
    pub fn get_last_rts(&self) -> (r: bool)
        ensures
            r == self@.rts,
    {
        self.last_rts
    }

    /// Overwrite the cached RTS level without touching the line.
    pub fn set_last_rts(&mut self, v: bool)
        ensures
            final(self)@.rts == v,
            final(self)@.wire == old(self)@.wire,
            final(self)@.dtr == old(self)@.dtr,
    {
        self.last_rts = v;
    }

    /// Overwrite the cached DTR level without touching the line.
    pub fn set_last_dtr(&mut self, v: bool)
        ensures
            final(self)@.dtr == v,
            final(self)@.wire == old(self)@.wire,
            final(self)@.rts == old(self)@.rts,
    {
        self.last_dtr = v;
    }

    /// Request an RTS level; the cache is updated only after a successful
    /// request, so it always reflects the last level the port accepted.
    pub fn control_rts(&mut self, high: bool) -> (ok: bool)
        ensures
            ok ==> final(self)@.wire == old(self)@.wire + seq![LinkEvent::Rts(high)] && final(self)@.rts == high,
            !ok ==> final(self)@ == old(self)@,
            final(self)@.dtr == old(self)@.dtr,
    {
        let ok = self.ser_set_rts(high);
        if ok {
            self.set_last_rts(high);
        }
        ok
    }

    /// Request a DTR level; the cache is updated only on success.
    pub fn control_dtr(&mut self, high: bool) -> (ok: bool)
        ensures
            ok ==> final(self)@.wire == old(self)@.wire + seq![LinkEvent::Dtr(high)] && final(self)@.dtr == high,
            !ok ==> final(self)@ == old(self)@,
            final(self)@.rts == old(self)@.rts,
    {
        let ok = self.ser_set_dtr(high);
        if ok {
            self.set_last_dtr(high);
        }
        ok
    }

    /// Drain the write side of the port; hands nothing new to it.
    pub fn flush_serial_line(&mut self) -> (ok: bool)
        ensures
            final(self)@ == old(self)@,
    {
        self.ser_flush()
    }

    /// Write one complete command, bracketed by flushes so the radio sees a
    /// clean boundary. On success exactly the command's bytes were handed
    /// to the port; on failure some prefix of them.
    pub fn send_command_to_radio(&mut self, data: &[u8]) -> (ok: bool)
        ensures
            ok ==> final(self)@.wire == old(self)@.wire + bytes_ev(data@),
            !ok ==> exists|k: int|
                0 <= k <= data@.len() && final(self)@.wire == old(self)@.wire + bytes_ev(
                    data@.take(k),
                ),
            final(self)@.rts == old(self)@.rts,
            final(self)@.dtr == old(self)@.dtr,
    {
        let _ = self.ser_flush();
        let ok = self.ser_write_all(data);
        let _ = self.ser_flush();
        ok
    }

    /// Ask the radio to enter transmit on the base-band path (`;TX0;`).
    pub fn start_transmit_baseband(&mut self) -> (ok: bool)
        ensures
            ok ==> final(self)@.wire == old(self)@.wire + bytes_ev(tx0_cmd()),
            !ok ==> exists|k: int|
                0 <= k <= tx0_cmd().len() && final(self)@.wire == old(self)@.wire + bytes_ev(
                    tx0_cmd().take(k),
                ),
            final(self)@.rts == old(self)@.rts,
            final(self)@.dtr == old(self)@.dtr,
    {
        let cmd = cmd_tx0();
        self.send_command_to_radio(cmd.as_slice())
    }

    /// Query the VFO-A frequency (`FA;`).
    pub fn query_vfo_a(&mut self) -> (ok: bool)
        ensures
            ok ==> final(self)@.wire == old(self)@.wire + bytes_ev(fa_query_cmd()),
            !ok ==> exists|k: int|
                0 <= k <= fa_query_cmd().len() && final(self)@.wire == old(self)@.wire + bytes_ev(
                    fa_query_cmd().take(k),
                ),
            final(self)@.rts == old(self)@.rts,
            final(self)@.dtr == old(self)@.dtr,
    {
        let cmd = cmd_fa_query();
        self.send_command_to_radio(cmd.as_slice())
    }

    /// Set the operating mode (`MD<d>;`).
    pub fn set_mode(&mut self, mode: u8) -> (ok: bool)
        ensures
            ok ==> final(self)@.wire == old(self)@.wire + bytes_ev(md_cmd(mode)),
            !ok ==> exists|k: int|
                0 <= k <= md_cmd(mode).len() && final(self)@.wire == old(self)@.wire + bytes_ev(
                    md_cmd(mode).take(k),
                ),
            final(self)@.rts == old(self)@.rts,
            final(self)@.dtr == old(self)@.dtr,
    {
        let cmd = cmd_set_mode(mode);
        self.send_command_to_radio(cmd.as_slice())
    }

    /// The stream-enable sequence: raise RTS, send `;RX;` followed by the
    /// `UA` command, release RTS. On success the trace shows exactly that
    /// bracket.
    fn enable_streaming(&mut self, speaker_on: bool) -> (ok: bool)
        ensures
            ok ==> final(self)@.wire == old(self)@.wire + seq![LinkEvent::Rts(true)] + bytes_ev(
                stream_enable_cmd(speaker_on),
            ) + seq![LinkEvent::Rts(false)] && !final(self)@.rts,
            final(self)@.dtr == old(self)@.dtr,
    {
        if !self.control_rts(true) {
            return false;
        }
        let cmd = cmd_stream_enable(speaker_on);
        let sent = self.send_command_to_radio(cmd.as_slice());
        if !self.control_rts(false) {
            return false;
        }
        sent
    }

    /// Enable RX audio streaming with the radio's speaker muted
    /// (`;RX;UA2;` under an RTS bracket).
    pub fn enable_streaming_speaker_off(&mut self) -> (ok: bool)
        ensures
            ok ==> final(self)@.wire == old(self)@.wire + seq![LinkEvent::Rts(true)] + bytes_ev(
                stream_enable_cmd(false),
            ) + seq![LinkEvent::Rts(false)] && !final(self)@.rts,
            final(self)@.dtr == old(self)@.dtr,
    {
        self.enable_streaming(false)
    }

    /// Enable RX audio streaming with the radio's speaker on
    /// (`;RX;UA1;` under an RTS bracket).
    pub fn enable_streaming_speaker_on(&mut self) -> (ok: bool)
        ensures
            ok ==> final(self)@.wire == old(self)@.wire + seq![LinkEvent::Rts(true)] + bytes_ev(
                stream_enable_cmd(true),
            ) + seq![LinkEvent::Rts(false)] && !final(self)@.rts,
            final(self)@.dtr == old(self)@.dtr,
    {
        self.enable_streaming(true)
    }

    /// Send raw TX audio payload bytes, unframed. Some prefix of the
    /// payload is handed to the port; in particular nothing outside the
    /// payload ever reaches it.
    pub fn send_audio_stream_raw(&mut self, audio_data: &[u8]) -> (ok: bool)
        ensures
            exists|k: int|
                0 <= k <= audio_data@.len() && final(self)@.wire == old(self)@.wire + bytes_ev(
                    audio_data@.take(k),
                ),
            !ok ==> final(self)@.wire == old(self)@.wire,
            final(self)@.rts == old(self)@.rts,
            final(self)@.dtr == old(self)@.dtr,
    {
        match self.ser_write(audio_data) {
            Some(_n) => true,
            None => {
                proof {
                    assert(old(self)@.wire + bytes_ev(audio_data@.take(0)) =~= old(self)@.wire);
                }
                false
            },
        }
    }
}

} // verus!
