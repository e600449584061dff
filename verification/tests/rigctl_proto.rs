use serialport::TTYPort;
use std::io::Read;
use trusdx_bridge::cat::CatQueue;
use trusdx_bridge::rigctl::handle_rigctl_line;
use trusdx_bridge::state::SharedState;
use trusdx_bridge::trusdx::RadioLink;

/// A control session over one end of a pseudo-terminal pair, with the
/// other end standing in for the radio.
struct Session {
    master: TTYPort,
    shared: SharedState,
    queue: CatQueue,
    link: RadioLink,
}

fn session() -> Session {
    let (master, slave) = TTYPort::pair().expect("pty pair");
    Session {
        master,
        shared: SharedState::new(),
        queue: CatQueue::new(),
        link: RadioLink::new(slave),
    }
}

fn read_radio_side(master: &mut TTYPort) -> Vec<u8> {
    let mut out = Vec::new();
    let mut buf = [0u8; 1024];
    loop {
        match master.read(&mut buf) {
            Ok(0) => break,
            Ok(n) => out.extend_from_slice(&buf[..n]),
            Err(_) => break,
        }
    }
    out
}

fn send(s: &mut Session, line: &[u8]) -> (Vec<u8>, bool) {
    handle_rigctl_line(&line.to_vec(), &mut s.shared, &mut s.queue, &mut s.link)
}

#[test]
fn set_frequency_via_control_port() {
    let mut s = session();
    let (reply, quit) = send(&mut s, b"F 7074000\n");
    assert_eq!(reply, b"RPRT 0\n".to_vec());
    assert!(!quit);
    assert_eq!(s.shared.freq_hz, 7074000);
    // The corresponding zero-padded set command is staged for the radio,
    // and the next drain writes it to the serial port.
    let staged = s.queue.take_all();
    assert_eq!(staged, vec![b"FA00007074000;".to_vec()]);
    for cmd in staged {
        s.queue.push(cmd);
    }
    let _ = trusdx_bridge::bridge::drain_cat(&mut s.queue, &mut s.link);
    assert_eq!(read_radio_side(&mut s.master), b"FA00007074000;".to_vec());
}

#[test]
fn get_frequency_reads_cache_only() {
    let mut s = session();
    let (reply, _) = send(&mut s, b"F 14074000\n");
    assert_eq!(reply, b"RPRT 0\n".to_vec());
    // The reply to `f` comes from the cache, with no radio exchange: the
    // staged command is still queued, nothing was written to the port.
    let (reply, _) = send(&mut s, b"f\n");
    assert_eq!(reply, b"14074000\n".to_vec());
    assert_eq!(read_radio_side(&mut s.master), Vec::<u8>::new());
}

#[test]
fn frequency_parse_failures() {
    let mut s = session();
    let (reply, _) = send(&mut s, b"F abc\n");
    assert_eq!(reply, b"RPRT -1\n".to_vec());
    let (reply, _) = send(&mut s, b"F\n");
    assert_eq!(reply, b"RPRT -1\n".to_vec());
    assert_eq!(s.shared.freq_hz, 0);
}

#[test]
fn fractional_frequency_rounds() {
    let mut s = session();
    let (reply, _) = send(&mut s, b"F 7074000.6\n");
    assert_eq!(reply, b"RPRT 0\n".to_vec());
    assert_eq!(s.shared.freq_hz, 7074001);
    let (reply, _) = send(&mut s, b"F 14074000.4\n");
    assert_eq!(reply, b"RPRT 0\n".to_vec());
    assert_eq!(s.shared.freq_hz, 14074000);
}

#[test]
fn tx_toggle() {
    let mut s = session();
    let (reply, quit) = send(&mut s, b"T 1\n");
    assert_eq!(reply, b"RPRT 0\n".to_vec());
    assert!(!quit);
    assert!(s.shared.tx);
    // The enter-transmit command goes to the serial port directly.
    assert_eq!(read_radio_side(&mut s.master), b";TX0;".to_vec());
    // A subsequent TX query reports transmit on.
    let (reply, _) = send(&mut s, b"t\n");
    assert_eq!(reply, b"1\n".to_vec());

    let (reply, _) = send(&mut s, b"T 0\n");
    assert_eq!(reply, b"RPRT 0\n".to_vec());
    assert!(!s.shared.tx);
    let (reply, _) = send(&mut s, b"t\n");
    assert_eq!(reply, b"0\n".to_vec());
    // The stream-enable sequence goes out under an RTS bracket; on a
    // pseudo-terminal the RTS request itself may be refused, in which case
    // nothing is written at all.
    let wire = read_radio_side(&mut s.master);
    assert!(wire == b";RX;UA2;".to_vec() || wire.is_empty());
}

#[test]
fn tx_argument_forms() {
    let mut s = session();
    let _ = send(&mut s, b"T 5\n");
    assert!(s.shared.tx);
    let _ = send(&mut s, b"T 0\n");
    assert!(!s.shared.tx);
    // An unparsable argument means receive.
    let _ = send(&mut s, b"T 1\n");
    let (reply, _) = send(&mut s, b"T x\n");
    assert_eq!(reply, b"RPRT 0\n".to_vec());
    assert!(!s.shared.tx);
    // Without an argument the TX state is left alone.
    let _ = send(&mut s, b"T 1\n");
    let (reply, _) = send(&mut s, b"T\n");
    assert_eq!(reply, b"RPRT 0\n".to_vec());
    assert!(s.shared.tx);
}

#[test]
fn mode_and_vfo_replies() {
    let mut s = session();
    let (reply, _) = send(&mut s, b"m\n");
    assert_eq!(reply, b"USB\n2400\n".to_vec());
    let (reply, _) = send(&mut s, b"M USB 2400\n");
    assert_eq!(reply, b"RPRT 0\n".to_vec());
    assert_eq!(s.queue.take_all(), vec![b"MD2;".to_vec()]);
    let (reply, _) = send(&mut s, b"v\n");
    assert_eq!(reply, b"VFOA\n".to_vec());
    let (reply, _) = send(&mut s, b"V VFOA\n");
    assert_eq!(reply, b"RPRT 0\n".to_vec());
}

#[test]
fn meta_commands() {
    let mut s = session();
    let (reply, _) = send(&mut s, b"\\chk_vfo\n");
    assert_eq!(reply, b"0\n".to_vec());
    let (reply, _) = send(&mut s, b"\\get_powerstat\n");
    assert_eq!(reply, b"1\n".to_vec());
    let (reply, _) = send(&mut s, b"\\dump_caps\n");
    assert_eq!(reply, b"RPRT 0\n".to_vec());
    let (reply, _) = send(&mut s, b"\\whatever\n");
    assert_eq!(reply, b"RPRT 0\n".to_vec());
    let (reply, _) = send(&mut s, b"\\dump_state\n");
    let expected = b"0\n0\n0\n0 0 0 0 0 0 0\n0 0 0 0 0 0 0\n0 0\n0 0\n0\n0\n0\n0\n\
0 0 0 0 0 0 0\n0 0 0 0 0 0 0\n0\n0\n0\n0\n0\n0\n";
    assert_eq!(reply, expected.to_vec());
}

#[test]
fn quit_and_defaults() {
    let mut s = session();
    let (reply, quit) = send(&mut s, b"q\n");
    assert_eq!(reply, b"RPRT 0\n".to_vec());
    assert!(quit);
    let (reply, quit) = send(&mut s, b"Z\n");
    assert_eq!(reply, b"RPRT 0\n".to_vec());
    assert!(!quit);
    // A blank line draws no reply.
    let (reply, quit) = send(&mut s, b"   \n");
    assert_eq!(reply, Vec::<u8>::new());
    assert!(!quit);
}
