use trusdx_bridge::bridge::Bridge;
use trusdx_bridge::bridge::TxTransition;
use trusdx_bridge::state::Mode;
use trusdx_bridge::state::SharedState;

/// Feed bytes through the demultiplexer, collecting flushed audio frames
/// and checking the payload bound on the way.
fn feed(bridge: &mut Bridge, shared: &mut SharedState, bytes: &[u8]) -> Vec<Vec<u8>> {
    let mut frames = Vec::new();
    for &b in bytes {
        let (emitted, _drain) = bridge.feed_byte(shared, b);
        if let Some(f) = emitted {
            assert!(1 <= f.len() && f.len() <= 512);
            frames.push(f);
        }
        // The payload buffer never exceeds 512 bytes before being flushed.
        assert!(bridge.wave_buf.len() < 512);
    }
    frames
}

#[test]
fn inbound_frequency_update() {
    let mut bridge = Bridge::new();
    let mut shared = SharedState::new();
    let frames = feed(&mut bridge, &mut shared, b"FA00014074000;");
    assert_eq!(shared.freq_hz, 14074000);
    assert!(frames.is_empty());
    assert!(!bridge.inbound_audio);
}

#[test]
fn inbound_audio_frame() {
    let mut bridge = Bridge::new();
    let mut shared = SharedState::new();
    let frames = feed(&mut bridge, &mut shared, b"US\x80\x80\x80\x80;");
    assert_eq!(frames, vec![vec![0x80u8; 4]]);
    assert_eq!(shared.input_level_x1280, 0);
    assert!(!bridge.inbound_audio);
    assert!(shared.streaming_started);
}

#[test]
fn inbound_audio_then_cat() {
    let mut bridge = Bridge::new();
    let mut shared = SharedState::new();
    let frames = feed(&mut bridge, &mut shared, b"US\xC0\x40;MD1;");
    assert_eq!(frames, vec![vec![0xC0u8, 0x40]]);
    // Peak 0.5, scaled by 2.1 and clamped: exactly 1.0.
    assert_eq!(shared.input_level_x1280, 1280);
    assert_eq!(shared.mode, Mode::Lsb);
}

#[test]
fn oversize_frame_is_chunked() {
    let mut bridge = Bridge::new();
    let mut shared = SharedState::new();
    let mut bytes: Vec<u8> = b"US".to_vec();
    bytes.extend(std::iter::repeat(0x90u8).take(513));
    bytes.push(b';');
    let frames = feed(&mut bridge, &mut shared, &bytes);
    assert_eq!(frames.len(), 2);
    assert_eq!(frames[0], vec![0x90u8; 512]);
    assert_eq!(frames[1], vec![0x90u8; 1]);
    assert!(!bridge.inbound_audio);
}

#[test]
fn empty_audio_frame_keeps_level() {
    let mut bridge = Bridge::new();
    let mut shared = SharedState::new();
    let _ = feed(&mut bridge, &mut shared, b"US\x90;");
    let level = shared.input_level_x1280;
    assert_eq!(level, 336);
    // A frame with no payload bytes flushes nothing and keeps the level.
    let frames = feed(&mut bridge, &mut shared, b"US;");
    assert!(frames.is_empty());
    assert_eq!(shared.input_level_x1280, level);
}

#[test]
fn us_prefix_at_boundary_resets_cleanly() {
    let mut bridge = Bridge::new();
    let mut shared = SharedState::new();
    // A complete command first, so the text buffer is at a frame boundary.
    let _ = feed(&mut bridge, &mut shared, b"MD3;");
    assert_eq!(shared.mode, Mode::Cw);
    let freq = shared.freq_hz;
    let frames = feed(&mut bridge, &mut shared, b"US");
    assert!(frames.is_empty());
    assert!(bridge.inbound_audio);
    assert_eq!(bridge.text_buf.len(), 0);
    assert!(shared.streaming_started);
    // No stale state update was emitted.
    assert_eq!(shared.freq_hz, freq);
    assert_eq!(shared.mode, Mode::Cw);
}

#[test]
fn streaming_flag_latches_until_reset() {
    let mut bridge = Bridge::new();
    let mut shared = SharedState::new();
    let _ = feed(&mut bridge, &mut shared, b"US\x80;");
    assert!(shared.streaming_started);
    // More traffic of both kinds never clears it.
    let _ = feed(&mut bridge, &mut shared, b"FA123;US\x90\x90;MD2;");
    assert!(shared.streaming_started);
    // Only the explicit TX-to-RX reset clears it.
    bridge.reset_for_rx(&mut shared);
    assert!(!shared.streaming_started);
    assert_eq!(bridge.text_buf.len(), 0);
    assert_eq!(bridge.wave_buf.len(), 0);
    assert!(!bridge.inbound_audio);
}

#[test]
fn short_fa_reply_still_parses() {
    let mut bridge = Bridge::new();
    let mut shared = SharedState::new();
    let _ = feed(&mut bridge, &mut shared, b"FA123;");
    assert_eq!(shared.freq_hz, 123);
    // Digits end at the first non-digit.
    let _ = feed(&mut bridge, &mut shared, b"FA99X88;");
    assert_eq!(shared.freq_hz, 99);
    // No digits at all: no update.
    let _ = feed(&mut bridge, &mut shared, b"FA;");
    assert_eq!(shared.freq_hz, 99);
    // An overlong value cannot fit and is dropped.
    let _ = feed(&mut bridge, &mut shared, b"FA99999999999999999999;");
    assert_eq!(shared.freq_hz, 99);
}

#[test]
fn mode_replies_update_cache() {
    let mut bridge = Bridge::new();
    let mut shared = SharedState::new();
    let _ = feed(&mut bridge, &mut shared, b"MD2;");
    assert_eq!(shared.mode, Mode::Usb);
    assert_eq!(shared.mode.name_bytes(), b"USB".to_vec());
    let _ = feed(&mut bridge, &mut shared, b"MD1;");
    assert_eq!(shared.mode.name_bytes(), b"LSB".to_vec());
    let _ = feed(&mut bridge, &mut shared, b"MD4;");
    assert_eq!(shared.mode, Mode::Fm);
    let _ = feed(&mut bridge, &mut shared, b"MD5;");
    assert_eq!(shared.mode, Mode::Am);
    // A missing or unknown digit falls back to USB.
    let _ = feed(&mut bridge, &mut shared, b"MD;");
    assert_eq!(shared.mode, Mode::Usb);
    let _ = feed(&mut bridge, &mut shared, b"MD9;");
    assert_eq!(shared.mode, Mode::Usb);
}

#[test]
fn other_commands_accepted_silently() {
    let mut bridge = Bridge::new();
    let mut shared = SharedState::new();
    let frames = feed(&mut bridge, &mut shared, b"ID020;AI0;");
    assert!(frames.is_empty());
    assert_eq!(shared.freq_hz, 0);
    assert_eq!(shared.mode, Mode::Usb);
}

#[test]
fn tx_transitions() {
    let mut bridge = Bridge::new();
    assert_eq!(bridge.observe_tx(false), TxTransition::Steady);
    assert_eq!(bridge.observe_tx(true), TxTransition::EnterTx);
    assert_eq!(bridge.observe_tx(true), TxTransition::Steady);
    assert_eq!(bridge.observe_tx(false), TxTransition::EnterRx);
    assert_eq!(bridge.observe_tx(false), TxTransition::Steady);
}
