use ross_os::uart::{Uart, DR, FR, FR_RXFE, FR_TXFF};

#[test]
fn register_addresses() {
    assert_eq!(Uart::reg(DR), 0x0900_0000);
    assert_eq!(Uart::reg(FR), 0x0900_0018);
}

#[test]
fn flag_bits() {
    assert!(Uart::tx_full(FR_TXFF));
    assert!(!Uart::tx_full(FR_RXFE));
    assert!(Uart::rx_empty(0x90));
    assert!(!Uart::rx_empty(0x20));
    assert!(!Uart::tx_full(0));
}

#[test]
fn line_feeds_go_out_as_crlf() {
    assert_eq!(Uart::encode("a\nb"), b"a\r\nb".to_vec());
    assert_eq!(Uart::encode("tick 1\n"), b"tick 1\r\n".to_vec());
    assert_eq!(Uart::encode("\n\n"), b"\r\n\r\n".to_vec());
}

#[test]
fn other_bytes_pass_through() {
    assert_eq!(Uart::encode(""), Vec::<u8>::new());
    assert_eq!(Uart::encode("echo> \r"), b"echo> \r".to_vec());
    assert_eq!(Uart::encode("é"), "é".as_bytes().to_vec());
}

#[test]
fn wire_bytes_per_byte() {
    let (lf, n) = Uart::wire_bytes(b'\n');
    assert_eq!(n, 2);
    assert_eq!(lf, [b'\r', b'\n']);
    let (a, n) = Uart::wire_bytes(b'a');
    assert_eq!(n, 1);
    assert_eq!(a[0], b'a');
    let (cr, n) = Uart::wire_bytes(b'\r');
    assert_eq!((cr[0], n), (b'\r', 1));
}
