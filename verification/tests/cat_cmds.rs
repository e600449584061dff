use trusdx_bridge::cat::cmd_fa_query;
use trusdx_bridge::cat::cmd_rx;
use trusdx_bridge::cat::cmd_set_mode;
use trusdx_bridge::cat::cmd_stream_enable;
use trusdx_bridge::cat::cmd_tx0;
use trusdx_bridge::cat::fa_set_command;
use trusdx_bridge::cat::parse_fa;
use trusdx_bridge::cat::parse_md;
use trusdx_bridge::cat::u64_to_dec;
use trusdx_bridge::cat::CatQueue;
use trusdx_bridge::state::Mode;

#[test]
fn command_bytes() {
    assert_eq!(cmd_rx(), b";RX;".to_vec());
    assert_eq!(cmd_tx0(), b";TX0;".to_vec());
    assert_eq!(cmd_fa_query(), b"FA;".to_vec());
    assert_eq!(cmd_set_mode(0), b"MD0;".to_vec());
    assert_eq!(cmd_set_mode(1), b"MD1;".to_vec());
    assert_eq!(cmd_set_mode(5), b"MD5;".to_vec());
    assert_eq!(cmd_set_mode(6), b"MD2;".to_vec());
    assert_eq!(cmd_stream_enable(false), b";RX;UA2;".to_vec());
    assert_eq!(cmd_stream_enable(true), b";RX;UA1;".to_vec());
}

#[test]
fn decimal_rendering() {
    assert_eq!(u64_to_dec(0), b"0".to_vec());
    assert_eq!(u64_to_dec(7), b"7".to_vec());
    assert_eq!(u64_to_dec(14074000), b"14074000".to_vec());
    assert_eq!(u64_to_dec(u64::MAX), b"18446744073709551615".to_vec());
}

#[test]
fn fa_set_command_padding() {
    assert_eq!(fa_set_command(7074000), b"FA00007074000;".to_vec());
    assert_eq!(fa_set_command(0), b"FA00000000000;".to_vec());
    assert_eq!(fa_set_command(14074000), b"FA00014074000;".to_vec());
    // Twelve digits no longer need padding.
    assert_eq!(fa_set_command(123456789012), b"FA123456789012;".to_vec());
}

#[test]
fn parse_fa_replies() {
    assert_eq!(parse_fa(&b"FA00014074000;".to_vec()), Some(14074000));
    assert_eq!(parse_fa(&b"FA123;".to_vec()), Some(123));
    assert_eq!(parse_fa(&b"FA0;".to_vec()), Some(0));
    assert_eq!(parse_fa(&b"FA;".to_vec()), None);
    assert_eq!(parse_fa(&b"MD2;".to_vec()), None);
    assert_eq!(parse_fa(&b"F".to_vec()), None);
    assert_eq!(parse_fa(&b"FA18446744073709551615;".to_vec()), Some(u64::MAX));
    assert_eq!(parse_fa(&b"FA18446744073709551616;".to_vec()), None);
}

#[test]
fn parse_md_replies() {
    assert_eq!(parse_md(&b"MD1;".to_vec()), Some(Mode::Lsb));
    assert_eq!(parse_md(&b"MD2;".to_vec()), Some(Mode::Usb));
    assert_eq!(parse_md(&b"MD3;".to_vec()), Some(Mode::Cw));
    assert_eq!(parse_md(&b"MD4;".to_vec()), Some(Mode::Fm));
    assert_eq!(parse_md(&b"MD5;".to_vec()), Some(Mode::Am));
    assert_eq!(parse_md(&b"MD;".to_vec()), Some(Mode::Usb));
    assert_eq!(parse_md(&b"FA1;".to_vec()), None);
}

#[test]
fn mode_names_roundtrip() {
    assert_eq!(Mode::from_digit(b'2'), Mode::Usb);
    assert_eq!(Mode::from_digit(b'2').name_bytes(), b"USB".to_vec());
    assert_eq!(Mode::from_digit(b'1').name_bytes(), b"LSB".to_vec());
    assert_eq!(Mode::from_digit(b'3').name_bytes(), b"CW".to_vec());
    assert_eq!(Mode::from_digit(b'4').name_bytes(), b"FM".to_vec());
    assert_eq!(Mode::from_digit(b'5').name_bytes(), b"AM".to_vec());
    assert_eq!(Mode::from_digit(b'x'), Mode::Usb);
}

#[test]
fn queue_preserves_order() {
    let mut q = CatQueue::new();
    assert!(q.is_empty());
    q.push(b"FA;".to_vec());
    q.push(b"MD2;".to_vec());
    q.push(b";RX;".to_vec());
    assert!(!q.is_empty());
    let all = q.take_all();
    assert_eq!(all, vec![b"FA;".to_vec(), b"MD2;".to_vec(), b";RX;".to_vec()]);
    assert!(q.is_empty());
}
