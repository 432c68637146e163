use simadmin_ims::error::Error;
use simadmin_ims::number::to_lower_hex;
use simadmin_ims::sa::{parse_legacy, read_ports, read_sa, Ports, SaParams};

const STATE: &str = "src 2408::9 dst 2408:8142::1\n\
    \tproto esp spi 0x1 reqid 1 mode transport\n\
    \tauth-trunc hmac(md5) 0x000102aAff 96\n\
    \tauth-trunc hmac(md5) 0x99 96\n";

const POLICY: &str = "src 2408::9 dst 2408:8142::1 dir out proto tcp sport 5065 dport 6101\n\
    src 2408:8142::1 dst 2408::9 dir in proto tcp sport 6102 dport 5066\n\
    src 2408::9 dst 2001::1 dir out proto tcp sport 1 dport 2\n";

fn failure(state: &str) -> String {
    match parse_legacy(state, POLICY, "2408:8142::1", "2408::9") {
        Ok(_) => panic!("parameters"),
        Err(e) => e.message(),
    }
}

#[test]
fn association_is_read() {
    let sa = match SaParams::from_legacy(
        "2408:8142::1",
        "2408::9",
        Ok(STATE.to_string()),
        Ok(POLICY.to_string()),
    ) {
        Ok(sa) => sa,
        Err(e) => panic!("{}", e.message()),
    };
    assert_eq!(sa.ue_ip, "2408::9");
    assert_eq!(sa.pcscf, "2408:8142::1");
    assert_eq!(sa.ue_send, 5065);
    assert_eq!(sa.pcscf_send, 6101);
    assert_eq!(sa.pcscf_recv, 6102);
    assert_eq!(sa.ue_recv, 5066);
    assert_eq!(sa.esp_key, vec![0x00, 0x01, 0x02, 0xaa, 0xff]);
}

#[test]
fn association_without_a_key() {
    assert_eq!(failure("proto esp\n"), "ESP auth key not found");
    assert_eq!(failure("auth hmac(md5)  \n"), "ESP auth key not found");
}

#[test]
fn association_with_a_bad_key() {
    assert_eq!(failure("auth hmac(md5) 0x123\n"), "Odd number of digits");
    assert_eq!(failure("auth hmac(md5) 0x12g4\n"), "Invalid character 'g' at position 2");
    assert_eq!(failure("auth hmac(md5) 0X1'\n"), "Invalid character '\\'' at position 1");
    assert_eq!(failure("auth hmac(md5) \u{e9}\n"), "Invalid character 'Ã' at position 0");
}

#[test]
fn key_without_a_prefix_and_before_a_second_mark() {
    let sa = parse_legacy("a hmac(md5) beef hmac(md5) 0102\n", "", "p", "u");
    assert!(matches!(sa, Ok(SaParams { ref esp_key, .. }) if *esp_key == vec![0xbe, 0xef]));
    let sa = parse_legacy("a hmac(md5)hmac(md5) 01\nb hmac(md5) 0X02\n", "", "p", "u");
    assert!(matches!(sa, Ok(SaParams { ref esp_key, .. }) if *esp_key == vec![0x02]));
}

#[test]
fn ports_of_other_policies_do_not_count() {
    let none = Ports { ue_send: 0, ue_recv: 0, pcscf_send: 0, pcscf_recv: 0 };
    assert_eq!(read_ports(POLICY, "dead::1", "2408::9"), Some(none));
    assert_eq!(read_ports("", "p", "u"), Some(none));
}

#[test]
fn later_policies_stand() {
    let policy = "p u dir out sport 1 dport 2\np u dir out sport x dport 3\n";
    let p = read_ports(policy, "p", "u");
    assert_eq!(p, Some(Ports { ue_send: 0, ue_recv: 0, pcscf_send: 3, pcscf_recv: 0 }));
}

#[test]
fn direction_in_the_last_five_words_does_not_count() {
    let none = Ports { ue_send: 0, ue_recv: 0, pcscf_send: 0, pcscf_recv: 0 };
    assert_eq!(read_ports("p u dir out sport 1 end", "p", "u"), Some(none));
    assert_eq!(
        read_ports("p u dir out sport 1 x end", "p", "u"),
        Some(Ports { ue_send: 1, ue_recv: 0, pcscf_send: 0, pcscf_recv: 0 })
    );
}

#[test]
fn policies_that_break_off() {
    let policy = "p u dir out proto tcp a b sport";
    assert_eq!(read_ports(policy, "p", "u"), None);
    assert!(read_sa("hmac(md5) 00", policy, "p", "u").is_none());
    match read_sa("no key", policy, "p", "u") {
        Some(Err(Error::NoKey)) => {}
        _ => panic!("the key is looked for first"),
    }
    assert_eq!(read_ports(policy, "other", "u").map(|p| p.ue_send), Some(0));
}

#[test]
fn errors_of_the_commands_stand() {
    let first = SaParams::from_legacy(
        "p",
        "u",
        Err(Error::NotRun("first".to_string())),
        Err(Error::NotRun("second".to_string())),
    );
    assert!(matches!(first, Err(Error::NotRun(ref s)) if s == "first"));
    let second =
        SaParams::from_legacy("p", "u", Ok("no key".to_string()), Err(Error::NotRun("second".to_string())));
    assert!(matches!(second, Err(Error::NotRun(ref s)) if s == "second"));
}

#[test]
fn keys_are_read_back() {
    let key: Vec<u8> = (0..=255u8).collect();
    for prefix in ["0x", "0X", ""] {
        let state = format!("auth hmac(md5) {}{} 96\n", prefix, to_lower_hex(&key));
        let sa = parse_legacy(&state, "", "p", "u");
        assert!(matches!(sa, Ok(SaParams { ref esp_key, .. }) if *esp_key == key));
    }
}

#[test]
fn policies_are_read_back() {
    for (s, d) in [(1u16, 2u16), (5065, 6101), (65535, 0)] {
        let out = format!("p u dir out sport {} dport {}", s, d);
        let back = format!("p u dir in sport {} dport {}", s, d);
        assert_eq!(
            read_ports(&out, "p", "u"),
            Some(Ports { ue_send: s, ue_recv: 0, pcscf_send: d, pcscf_recv: 0 })
        );
        assert_eq!(
            read_ports(&back, "p", "u"),
            Some(Ports { ue_send: 0, ue_recv: d, pcscf_send: 0, pcscf_recv: s })
        );
    }
}
