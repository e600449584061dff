use serialport::TTYPort;
use std::io::Read;
use std::io::Write;
use trusdx_bridge::bridge::drain_cat;
use trusdx_bridge::bridge::tx_iteration;
use trusdx_bridge::bridge::Bridge;
use trusdx_bridge::cat::fa_set_command;
use trusdx_bridge::cat::CatQueue;
use trusdx_bridge::state::SharedState;
use trusdx_bridge::trusdx::matches_trusdx_ids;
use trusdx_bridge::trusdx::RadioLink;

fn pair() -> (TTYPort, RadioLink) {
    let (master, slave) = TTYPort::pair().expect("pty pair");
    (master, RadioLink::new(slave))
}

fn read_radio_side(master: &mut TTYPort) -> Vec<u8> {
    let mut out = Vec::new();
    let mut buf = [0u8; 2048];
    loop {
        match master.read(&mut buf) {
            Ok(0) => break,
            Ok(n) => out.extend_from_slice(&buf[..n]),
            Err(_) => break,
        }
    }
    out
}

#[test]
fn typed_commands_on_the_wire() {
    let (mut master, mut link) = pair();
    assert!(link.start_transmit_baseband());
    assert!(link.query_vfo_a());
    assert!(link.set_mode(2));
    assert!(link.set_mode(9));
    assert_eq!(read_radio_side(&mut master), b";TX0;FA;MD2;MD2;".to_vec());
}

#[test]
fn drain_writes_whole_batch_in_order() {
    let (mut master, mut link) = pair();
    let mut queue = CatQueue::new();
    queue.push(fa_set_command(7074000));
    queue.push(b"MD2;".to_vec());
    assert!(drain_cat(&mut queue, &mut link));
    assert!(queue.is_empty());
    assert_eq!(read_radio_side(&mut master), b"FA00007074000;MD2;".to_vec());
    // Draining an empty queue writes nothing.
    let _ = drain_cat(&mut queue, &mut link);
    assert_eq!(read_radio_side(&mut master), Vec::<u8>::new());
}

#[test]
fn rts_cache_follows_successful_requests_only() {
    let (_master, mut link) = pair();
    assert!(!link.last_rts_state());
    let ok = link.control_rts(true);
    // On a pseudo-terminal the line-signal request may be refused; the
    // cache reflects the request exactly when it succeeded.
    assert_eq!(link.last_rts_state(), ok);
    assert_eq!(link.get_last_rts(), ok);
    link.set_last_rts(false);
    assert!(!link.last_rts_state());
}

#[test]
fn tx_frame_sent_when_loud() {
    let (mut master, mut link) = pair();
    let mut shared = SharedState::new();
    let mut queue = CatQueue::new();
    shared.input_level_x1280 = 77;
    // 48 samples of 12800: well above the silence gate; each encodes to
    // 128 + 50 = 178.
    let mut capture = Vec::new();
    for _ in 0..48 {
        capture.extend_from_slice(&12800i16.to_le_bytes());
    }
    let sent = tx_iteration(&mut shared, &mut queue, &mut link, &capture);
    assert_eq!(sent, Some(vec![178u8; 48]));
    assert_eq!(shared.input_level_x1280, 0);
    assert_eq!(shared.output_sum_sq, 48 * 12800 * 12800);
    assert_eq!(shared.output_samples, 48);
    assert_eq!(read_radio_side(&mut master), vec![178u8; 48]);
}

#[test]
fn tx_frame_gated_when_silent() {
    let (mut master, mut link) = pair();
    let mut shared = SharedState::new();
    let mut queue = CatQueue::new();
    let capture = vec![0u8; 96];
    let sent = tx_iteration(&mut shared, &mut queue, &mut link, &capture);
    assert_eq!(sent, None);
    assert_eq!(shared.output_sum_sq, 0);
    assert_eq!(shared.output_samples, 48);
    assert_eq!(read_radio_side(&mut master), Vec::<u8>::new());
}

#[test]
fn tx_drains_queue_before_audio() {
    let (mut master, mut link) = pair();
    let mut shared = SharedState::new();
    let mut queue = CatQueue::new();
    queue.push(b"FA;".to_vec());
    let mut capture = Vec::new();
    for _ in 0..48 {
        capture.extend_from_slice(&12800i16.to_le_bytes());
    }
    let _ = tx_iteration(&mut shared, &mut queue, &mut link, &capture);
    assert!(queue.is_empty());
    let mut expected = b"FA;".to_vec();
    expected.extend_from_slice(&[178u8; 48]);
    assert_eq!(read_radio_side(&mut master), expected);
}

#[test]
fn rx_iteration_reads_the_port() {
    let (mut master, mut link) = pair();
    let mut shared = SharedState::new();
    let mut queue = CatQueue::new();
    let mut bridge = Bridge::new();
    master.write_all(b"FA00014074000;US\x80\x80;").expect("write");
    master.flush().expect("flush");
    let mut frames = Vec::new();
    // The serial read is bounded by a short timeout; poll a few times.
    for _ in 0..20 {
        frames.extend(bridge.rx_iteration(&mut shared, &mut queue, &mut link));
        if shared.streaming_started && !bridge.inbound_audio {
            break;
        }
    }
    assert_eq!(shared.freq_hz, 14074000);
    assert_eq!(frames, vec![vec![0x80u8, 0x80]]);
    assert!(shared.streaming_started);
    assert_eq!(shared.output_sum_sq, 0);
}

#[test]
fn device_identification() {
    assert!(matches_trusdx_ids(b"1a86", b"7523"));
    assert!(!matches_trusdx_ids(b"1a86", b"7522"));
    assert!(!matches_trusdx_ids(b"0403", b"7523"));
    assert!(!matches_trusdx_ids(b"", b""));
}
