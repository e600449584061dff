use trusdx_bridge::audio::bytes_to_i16_le;
use trusdx_bridge::audio::create_buffer_attr;
use trusdx_bridge::audio::encode_tx_frame;
use trusdx_bridge::audio::frame_energy;
use trusdx_bridge::audio::frame_input_level;
use trusdx_bridge::audio::frame_offsets;
use trusdx_bridge::audio::frame_peak;
use trusdx_bridge::audio::silence_gate_open;

#[test]
fn decode_le_samples() {
    let bytes = vec![0x34u8, 0x12, 0xFF, 0xFF, 0x00, 0x80];
    let mut out = vec![0i16; 3];
    bytes_to_i16_le(&bytes, &mut out);
    assert_eq!(out, vec![0x1234, -1, -32768]);
}

#[test]
fn decode_leaves_extra_output_untouched() {
    let bytes = vec![0x01u8, 0x00];
    let mut out = vec![7i16; 3];
    bytes_to_i16_le(&bytes, &mut out);
    assert_eq!(out, vec![1, 7, 7]);
}

#[test]
fn offset_binary_roundtrip_all_bytes() {
    // An RX payload byte b stands for the sample (b - 128) * 256; encoding
    // that sample back gives b, except that the frame terminator is escaped.
    for b in 0u16..=255 {
        let sample = (b as i16) - 128;
        let frame = encode_tx_frame(&vec![sample * 256]);
        let expected = if b == 0x3B { 0x3A } else { b as u8 };
        assert_eq!(frame, vec![expected]);
    }
}

#[test]
fn semicolon_escape() {
    // Samples whose raw encodings would be 0x3B, 0x40, 0x3B go out as
    // 0x3A, 0x40, 0x3A.
    let samples = vec![-17664i16, -16384, -17664];
    let frame = encode_tx_frame(&samples);
    assert_eq!(frame, vec![0x3A, 0x40, 0x3A]);
    assert!(frame.iter().all(|&b| b != 0x3B));
}

#[test]
fn no_semicolon_in_any_payload() {
    let mut samples: Vec<i16> = Vec::new();
    let mut v: i32 = -32768;
    while v <= 32767 {
        samples.push(v as i16);
        v += 17;
    }
    let frame = encode_tx_frame(&samples);
    assert!(frame.iter().all(|&b| b != 0x3B));
}

#[test]
fn silence_gate_boundary() {
    // 25 samples with one at 8192: the mean square is exactly (1/20)^2 of
    // full scale, so the RMS is exactly 0.05 and the frame is transmitted.
    let mut samples = vec![0i16; 25];
    samples[0] = 8192;
    let e = frame_energy(&samples);
    assert_eq!(e, 8192u64 * 8192);
    assert!(silence_gate_open(e, 25));

    // One quantum lower is strictly below the threshold and is gated.
    samples[0] = 8191;
    let e = frame_energy(&samples);
    assert!(!silence_gate_open(e, 25));
}

#[test]
fn silence_gate_plain_cases() {
    assert!(!silence_gate_open(0, 48));
    let loud = vec![12800i16; 48];
    let e = frame_energy(&loud);
    assert_eq!(e, 48u64 * 12800 * 12800);
    assert!(silence_gate_open(e, 48));
}

#[test]
fn peak_and_input_level() {
    assert_eq!(frame_peak(&vec![0x80u8, 0x80]), 0);
    assert_eq!(frame_input_level(&vec![0x80u8, 0x80]), 0);
    // Peak 64 out of 128 is 0.5; scaled by 2.1 it saturates at 1.0, which
    // is 1280 in 1/1280 units.
    assert_eq!(frame_peak(&vec![0xC0u8, 0x40]), 64);
    assert_eq!(frame_input_level(&vec![0xC0u8, 0x40]), 1280);
    // Peak 16 of 128 is 0.125; 2.1 * 0.125 = 0.2625 = 336/1280.
    assert_eq!(frame_peak(&vec![0x90u8]), 16);
    assert_eq!(frame_input_level(&vec![0x90u8]), 336);
    // The extremes both have magnitude within 128.
    assert_eq!(frame_peak(&vec![0x00u8]), 128);
    assert_eq!(frame_input_level(&vec![0x00u8]), 1280);
}

#[test]
fn offsets_center_on_128() {
    let offs = frame_offsets(&vec![0x80u8, 0xC0, 0x40, 0x00, 0xFF]);
    assert_eq!(offs, vec![0, 64, -64, -128, 127]);
}

#[test]
fn buffer_attr_values() {
    let rx = create_buffer_attr(7812, 4);
    assert_eq!(rx.maxlength, 1953 * 4);
    assert_eq!(rx.tlength, 156 * 4);
    assert_eq!(rx.prebuf, 78 * 4);
    assert_eq!(rx.minreq, 39 * 4);
    assert_eq!(rx.fragsize, 78 * 4);
    let tx = create_buffer_attr(11520, 2);
    assert_eq!(tx.maxlength, 2880 * 2);
    assert_eq!(tx.tlength, 230 * 2);
    assert_eq!(tx.prebuf, 115 * 2);
    assert_eq!(tx.minreq, 57 * 2);
    assert_eq!(tx.fragsize, 115 * 2);
}
