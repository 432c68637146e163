use simadmin_ims::sip::{
    build_plain_register, classify, clock_reading, extract, extract_text, home_domain, initial_register,
    plain_register, protected_register, Answer, Verdict,
};

#[test]
fn plain_request() {
    let r = plain_register("001", "example.org", "2001:db8::1", 5064, 11, 12, 123456);
    assert_eq!(
        r,
        "REGISTER sip:example.org SIP/2.0\r\n\
         Via: SIP/2.0/UDP 2001:db8::1:5063;branch=z9hG4bK123456\r\n\
         Max-Forwards: 70\r\n\
         To: <sip:001@example.org>\r\n\
         From: <sip:001@example.org>;tag=ue123456\r\n\
         Call-ID: ims-123456@2001:db8::1\r\n\
         CSeq: 1 REGISTER\r\n\
         Contact: <sip:001@2001:db8::1:5063;transport=udp>\r\n\
         Supported: sec-agree\r\n\
         Security-Client: ipsec-3gpp;alg=hmac-sha-1-96;ealg=aes-cbc;prot=esp;mod=trans;spi-c=11;spi-s=12;port-c=5064;port-s=5063\r\n\
         Content-Length: 0\r\n\r\n"
    );
}

#[test]
fn tag_has_at_most_six_digits() {
    assert_eq!(
        plain_register("u", "r", "i", 1, 4, 5, 1_700_000_000_123_456),
        plain_register("u", "r", "i", 1, 4, 5, 123_456)
    );
    assert!(plain_register("u", "r", "i", 1, 4, 5, 1_000_000).contains("branch=z9hG4bK0\r\n"));
}

#[test]
fn plain_request_takes_its_tag_from_the_clock() {
    let r = build_plain_register("u", "r", "p", "i", 1, 2, 3, 4, 5);
    let tag = r.split("z9hG4bK").nth(1).unwrap().split("\r\n").next().unwrap().to_string();
    let n: u64 = tag.parse().unwrap();
    assert!(n < 1_000_000);
    assert_eq!(r, plain_register("u", "r", "i", 1, 4, 5, n));
}

#[test]
fn first_request() {
    assert_eq!(home_domain(), "ims.mnc001.mcc460.3gppnetwork.org");
    assert_eq!(
        initial_register("2001:db8::1", 1700000000000000),
        "REGISTER sip:ims.mnc001.mcc460.3gppnetwork.org SIP/2.0\r\n\
         Via: SIP/2.0/TCP [2001:db8::1]:5063;branch=z9hG4bK1700000000000000\r\n\
         From: <sip:ue@ims.mnc001.mcc460.3gppnetwork.org>;tag=ue1700000000000000\r\n\
         To: <sip:ue@ims.mnc001.mcc460.3gppnetwork.org>\r\n\
         Call-ID: ims-1700000000000000@2001:db8::1\r\n\
         CSeq: 1 REGISTER\r\n\
         Contact: <sip:ue@2001:db8::1:5063;transport=tcp>;ob\r\n\
         Supported: sec-agree\r\n\
         Max-Forwards: 70\r\n\
         Content-Length: 0\r\n\r\n"
    );
}

#[test]
fn second_request() {
    let a = Answer {
        nonce: "bm9uY2U=".to_string(),
        response: "00ff".to_string(),
        security: "ipsec-3gpp; q=0.1".to_string(),
        spi_c: 5065,
        spi_s: 5066,
        port_c: 5065,
    };
    assert_eq!(
        protected_register("2001:db8::1", "2001:db8::2", 5, &a),
        "REGISTER sip:ims.mnc001.mcc460.3gppnetwork.org SIP/2.0\r\n\
         Via: SIP/2.0/TCP [2001:db8::1]:5063;branch=z9hG4bK5\r\n\
         From: <sip:ue@ims.mnc001.mcc460.3gppnetwork.org>;tag=ue5\r\n\
         To: <sip:ue@ims.mnc001.mcc460.3gppnetwork.org>\r\n\
         Call-ID: ims-5@2001:db8::1\r\n\
         CSeq: 2 REGISTER\r\n\
         Contact: <sip:ue@2001:db8::1:5063;transport=tcp>;ob\r\n\
         Authorization: Digest realm=\"ims.mnc001.mcc460.3gppnetwork.org\",username=\"ue\",nonce=\"bm9uY2U=\",uri=\"sip:2001:db8::2\",algorithm=AKAv1-MD5,response=\"00ff\",qop=auth,cnonce=\"0123456789abcdef\",nc=00000001\r\n\
         Security-Client: ipsec-3gpp; prot=esp; mod=trans; spi-c=5065; spi-s=5066; port-c=5065; port-s=5063; alg=hmac-md5-96; ealg=null\r\n\
         Security-Verify: ipsec-3gpp; q=0.1\r\n\
         Supported: sec-agree\r\n\
         Max-Forwards: 70\r\n\
         Content-Length: 0\r\n\r\n"
    );
}

#[test]
fn requests_are_framed() {
    let a = Answer {
        nonce: String::new(),
        response: String::new(),
        security: String::new(),
        spi_c: 0,
        spi_s: 0,
        port_c: 0,
    };
    for r in [
        plain_register("", "", "", 0, 0, 0, 0),
        initial_register("", 0),
        protected_register("", "", 0, &a),
    ] {
        assert!(r.starts_with("REGISTER sip:"));
        assert!(r.ends_with("\r\n\r\n"));
    }
}

#[test]
fn values_of_parameters() {
    let s = "Digest realm=\"r\";nonce=\"abc\";qop=auth\r\nSecurity-Server= ipsec \r\nlast=\" x ";
    assert_eq!(extract_text(s, "nonce"), Some("abc".to_string()));
    assert_eq!(extract_text(s, "qop"), Some("auth".to_string()));
    assert_eq!(extract_text(s, "Security-Server"), Some("ipsec".to_string()));
    assert_eq!(extract_text(s, "last"), Some("x".to_string()));
    assert_eq!(extract_text(s, "opaque"), None);
    assert_eq!(extract_text("nonce=;", "nonce"), Some(String::new()));
    assert_eq!(extract_text("nonce=\"a,b=c", "nonce"), Some("a,b=c".to_string()));
    assert_eq!(extract_text("xnonce=1;nonce=2", "nonce"), Some("1".to_string()));
}

#[test]
fn values_in_a_message_of_bytes() {
    assert_eq!(extract(b"a=1;b=2", "b"), Some(b"2".to_vec()));
    assert_eq!(extract(b"a=1", "b"), None);
    assert_eq!(extract("k=\u{e9};".as_bytes(), "k"), Some("\u{e9}".as_bytes().to_vec()));
    assert_eq!(extract(b"k=\xff;", "k"), Some("\u{fffd}".as_bytes().to_vec()));
}

#[test]
fn answers_are_told_apart() {
    assert_eq!(classify(b"SIP/2.0 200 OK\r\n\r\n"), Verdict::Accepted);
    assert_eq!(classify(b"SIP/2.0 401 Unauthorized\r\n\r\n"), Verdict::Challenged);
    assert_eq!(classify(b"SIP/2.0 403 Forbidden\r\n\r\n"), Verdict::Refused);
    assert_eq!(classify(b"SIP/2.0 20"), Verdict::Refused);
    assert_eq!(classify(b""), Verdict::Refused);
    assert_eq!(classify(b" SIP/2.0 200"), Verdict::Refused);
}

#[test]
fn readings_of_the_clock() {
    assert_eq!(clock_reading(Some(0)), 0);
    assert_eq!(clock_reading(Some(1_700_000_000_123_456)), 1_700_000_000_123_456);
    assert_eq!(clock_reading(Some(u64::MAX as u128)), u64::MAX);
    assert_eq!(clock_reading(Some((1u128 << 64) + 7)), 7);
    assert_eq!(clock_reading(None), 0);
}

#[test]
fn values_are_clean() {
    for s in ["k= \" a b \" ;x", "k=\"\"\r\n", "k=\u{3000}v\u{3000}\n", "k=a,b c"] {
        let v = extract_text(s, "k").unwrap();
        assert!(!v.contains(';') && !v.contains('\r') && !v.contains('\n'));
        assert_eq!(v.trim(), v);
    }
}

#[test]
fn bytes_behind_a_value_do_not_count() {
    for x in [&b""[..], &b"k=other;"[..], &b"\xff\xfe"[..], &b"\x80;k=1"[..]] {
        let mut body = b"a=1;k=\"value\";".to_vec();
        body.extend_from_slice(x);
        assert_eq!(extract(&body, "k"), Some(b"value".to_vec()));
    }
}
