use simadmin_ims::esp::{build_esp, build_frame, compute_icv, covered_bytes, truncate_tag};
use simadmin_ims::number::to_lower_hex;

fn key() -> Vec<u8> {
    (0u8..16).collect()
}

#[test]
fn check_value_of_a_frame() {
    assert_eq!(
        to_lower_hex(&compute_icv(&key(), 5064, 1, &[0u8; 16], b"hello")),
        "b4f1e3814e699ad6762ead42"
    );
    assert_eq!(
        to_lower_hex(&compute_icv(&key(), 0x01020304, 0xfffefdfc, &[1, 2], &[3])),
        "65f66296e5adb4ae476f656f"
    );
}

#[test]
fn check_value_under_a_long_key() {
    assert_eq!(
        to_lower_hex(&compute_icv(&[0xaau8; 80], 5064, 1, &[0u8; 16], b"hello")),
        "217df64d60000443d62835dd"
    );
}

#[test]
fn check_value_under_no_key() {
    assert_eq!(compute_icv(&[], 0, 0, &[], &[]).len(), 12);
}

#[test]
fn frame_of_a_payload() {
    let f = build_esp(5064, 1, &key(), b"hello");
    assert_eq!(f.len(), 41);
    assert_eq!(
        to_lower_hex(&f),
        "000013c8000000010000000000000000000000000000000068656c6c6fb4f1e3814e699ad6762ead42"
    );
}

#[test]
fn check_value_covers_what_stands_before_it() {
    let f = build_esp(7, 9, &key(), b"payload");
    let body = &f[..f.len() - 12];
    assert_eq!(body, &covered_bytes(7, 9, &[0u8; 16], b"payload")[..]);
    assert_eq!(&f[f.len() - 12..], &compute_icv(&key(), 7, 9, &[0u8; 16], b"payload")[..]);
}

#[test]
fn frame_gives_back_its_payload() {
    let f = build_esp(1, 2, &key(), b"some text");
    assert_eq!(&f[24..f.len() - 12], b"some text");
}

#[test]
fn frames_of_different_requests_differ() {
    let a = build_frame(1, 1, b"x", &[0u8; 12]);
    assert_ne!(a, build_frame(2, 1, b"x", &[0u8; 12]));
    assert_ne!(a, build_frame(1, 2, b"x", &[0u8; 12]));
    assert_ne!(a, build_frame(1, 1, b"y", &[0u8; 12]));
    assert_ne!(a, build_frame(1, 1, b"x", &[1u8; 12]));
}

#[test]
fn tags_are_cut_to_twelve_bytes() {
    assert_eq!(truncate_tag((0u8..16).collect()), (0u8..12).collect::<Vec<u8>>());
}
