use rusty_ircd::buffer::MessageBuffer;

#[test]
fn extract_ln_test() {
    let mut buf = MessageBuffer::new();
    let mut lilbuf = [0u8; 32];

    buf.append_ln("foobar").unwrap();
    buf.append_ln("asdf").unwrap();
    buf.append_ln("OMGERD").unwrap();
    let foo_str = buf.extract_ln();
    assert_eq!(foo_str.as_deref(), Some("foobar"));
    buf.copy(&mut lilbuf);
    let len = buf.index();
    assert_eq!(len, 14);
    let remnant_str = String::from_utf8_lossy(&lilbuf[..len]).to_string();
    assert_eq!(&remnant_str, "asdf\r\nOMGERD\r\n");
}

#[test]
fn overflow_test() {
    let mut buf = MessageBuffer::new();
    let mut pass = false;
    for _i in 1..20 {
        if let Err(_) = buf.append_ln("I want this line to be fairly long to make sure 20 iterations is enough to ensure buffer overflow.") {
            pass = true;
        }
    }
    assert_eq!(pass, true);
}

#[test]
fn shift_bytes_test() {
    let mut buf = MessageBuffer::new();
    buf.append_str("y0bitrazy borstord.").unwrap();
    buf.append_str("y0u crai want arst.").unwrap();
    buf.append_str("y0ofcra\r\nndom rstord.").unwrap();
    buf.append_str("y0u crazy borstord.").unwrap();
    buf.append_str("just trydata i get.").unwrap();
    buf.append_str("yhererazn\r\n blittled.\r\n").unwrap();

    let mut tmp_buf = [0u8; 128];
    let mut tmp_buf2 = [0u8; 128];
    let tuples = [(20, 0, 10, 1), (0, 45, 5, 3), (35, 40, 5, 4)];
    for tup in &tuples {
        let (src, dest, len, iter) = *tup;
        buf.copy(&mut tmp_buf);
        buf.shift_bytes(src, dest, len);
        buf.copy(&mut tmp_buf2);
        let str_a = String::from_utf8_lossy(&tmp_buf[src..src + len]).to_string();
        let str_b = String::from_utf8_lossy(&tmp_buf2[dest..dest + len]).to_string();
        assert!(
            str_a.eq(&str_b),
            "failed {}th iteration; left: {}, right {}, src={}, dest={}, len={}",
            iter,
            &str_a,
            &str_b,
            src,
            dest,
            len
        );
    }
}

#[test]
fn appended_line_reads_back_and_empties_buffer() {
    let mut buf = MessageBuffer::new();
    buf.append_ln("NICK joanna").unwrap();
    assert!(buf.has_delim());
    assert_eq!(buf.extract_ln().as_deref(), Some("NICK joanna"));
    assert_eq!(buf.index(), 0);
    assert!(!buf.has_delim());
    assert_eq!(buf.extract_ln().as_deref(), Some(""));
}

#[test]
fn a_buffer_without_crlf_gives_its_text_and_keeps_it() {
    let mut buf = MessageBuffer::new();
    buf.append_bytes(b"PART #x").unwrap();
    assert_eq!(buf.extract_ln().as_deref(), Some("PART #x"));
    assert_eq!(buf.index(), 7);
    buf.append_bytes(b"\r\n").unwrap();
    assert_eq!(buf.extract_ln().as_deref(), Some("PART #x"));
    assert_eq!(buf.index(), 0);
}

#[test]
fn pending_bytes_come_out_before_the_line() {
    let mut buf = MessageBuffer::new();
    buf.append_bytes(b"PRIV").unwrap();
    assert!(!buf.has_delim());
    buf.append_ln("MSG #x :hi").unwrap();
    assert_eq!(buf.extract_ln().as_deref(), Some("PRIVMSG #x :hi"));
    assert_eq!(buf.index(), 0);
}

#[test]
fn overflow_leaves_buffer_unchanged() {
    let mut buf = MessageBuffer::new();
    let line = "x".repeat(509);
    buf.append_ln(&line).unwrap();
    assert_eq!(buf.index(), 511);
    assert!(buf.append_str("yz").is_err());
    assert!(buf.append_bytes(&[1, 2]).is_err());
    assert!(buf.append_ln("").is_err());
    assert_eq!(buf.index(), 511);
    assert!(buf.append_bytes(&[b'!']).is_ok());
    assert_eq!(buf.index(), 512);
    let err = buf.append_str("a").unwrap_err();
    assert_eq!(err.to_string(), "Buffer overflow in client output buffer");
}

#[test]
fn invalid_utf8_line_is_replaced() {
    let mut buf = MessageBuffer::new();
    buf.append_bytes(&[b'a', 0xff, b'b', b'\r', b'\n']).unwrap();
    assert_eq!(buf.extract_ln().as_deref(), Some("a\u{fffd}b"));
}

#[test]
fn shift_to_start_moves_pending_bytes() {
    let mut buf = MessageBuffer::new();
    buf.append_str("abcdef").unwrap();
    buf.shift_bytes_to_start(2);
    assert_eq!(buf.index(), 4);
    let mut out = [0u8; 8];
    assert_eq!(buf.copy(&mut out), 4);
    assert_eq!(&out[..4], b"cdef");
}
