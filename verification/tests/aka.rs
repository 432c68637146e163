use base64::Engine;
use simadmin_ims::aka::{
    aka_md5_response, challenge_of, outer_bytes, read_challenge, secret_bytes, split_challenge,
};
use simadmin_ims::codec::Base64Error;
use simadmin_ims::number::to_lower_hex;

const NONCE: &str = "AAECAwQFBgcICQoLDA0ODxAREhMUFRYXGBkaGxwdHh8=";

fn challenge(nonce: &str) -> String {
    format!(
        "SIP/2.0 401 Unauthorized\r\nWWW-Authenticate: Digest realm=\"x\";nonce=\"{}\"\r\nSecurity-Server=ipsec-3gpp \r\n\r\n",
        nonce
    )
}

fn failure(text: &str) -> String {
    match read_challenge(text) {
        Ok(_) => panic!("a challenge"),
        Err(e) => e.message(),
    }
}

#[test]
fn response_to_a_challenge() {
    let rand: Vec<u8> = (0u8..16).collect();
    let r = aka_md5_response(
        &rand,
        &[0xaa, 0xbb, 0xcc, 0xdd],
        "bm9uY2U=",
        "00000001",
        "0123456789abcdef",
        "auth",
        "example.org",
        "ue",
    );
    assert_eq!(to_lower_hex(&r), "6599ffe979ee05cdcd9339126d3053db");
}

#[test]
fn what_the_digests_are_taken_over() {
    assert_eq!(
        secret_bytes(&[1, 2], "n", "c", "o", "q", "r", "u"),
        b"\x01\x02ncoqauth:r:u".to_vec()
    );
    assert_eq!(outer_bytes(&[1], &[2, 3]), vec![1, 2, 3]);
}

#[test]
fn challenge_holds_rand_and_autn() {
    let c = match challenge_of(challenge(NONCE).as_bytes()) {
        Ok(c) => c,
        Err(e) => panic!("{}", e.message()),
    };
    assert_eq!(c.nonce, NONCE);
    assert_eq!(c.security, "ipsec-3gpp");
    assert_eq!(c.rand, (0u8..16).collect::<Vec<u8>>());
    assert_eq!(c.autn, (16u8..32).collect::<Vec<u8>>());
}

#[test]
fn nonce_that_is_no_base64() {
    assert_eq!(failure(&challenge("AA*A")), "nonce base64 解码失败: Invalid symbol 42, offset 2.");
    assert_eq!(failure(&challenge("AAAAA")), "nonce base64 解码失败: Invalid input length: 5");
    assert_eq!(failure(&challenge("AB==")), "nonce base64 解码失败: Invalid last symbol 66, offset 1.");
    assert_eq!(failure(&challenge("AA")), "nonce base64 解码失败: Invalid padding");
}

#[test]
fn nonce_that_is_too_short() {
    assert_eq!(failure(&challenge("AAECAw==")), "AKA 挑战长度异常: 4 字节");
    assert_eq!(failure("SIP/2.0 401 Unauthorized\r\n\r\n"), "AKA 挑战长度异常: 0 字节");
}

#[test]
fn decoded_nonce_is_taken_apart() {
    let bytes: Vec<u8> = (0u8..40).collect();
    match split_challenge("n".to_string(), "s".to_string(), Ok(bytes)) {
        Ok(c) => {
            assert_eq!(c.nonce, "n");
            assert_eq!(c.security, "s");
            assert_eq!(c.rand, (0u8..16).collect::<Vec<u8>>());
            assert_eq!(c.autn, (16u8..32).collect::<Vec<u8>>());
        }
        Err(e) => panic!("{}", e.message()),
    }
    match split_challenge("n".to_string(), "s".to_string(), Err(Base64Error::InvalidPadding)) {
        Ok(_) => panic!("a challenge"),
        Err(e) => assert_eq!(e.message(), "nonce base64 解码失败: Invalid padding"),
    }
    match split_challenge("n".to_string(), "s".to_string(), Ok(vec![0u8; 31])) {
        Ok(_) => panic!("a challenge"),
        Err(e) => assert_eq!(e.message(), "AKA 挑战长度异常: 31 字节"),
    }
}

#[test]
fn base64_of_every_length_is_read_back() {
    for n in 32..40usize {
        let bytes: Vec<u8> = (0..n).map(|i| (i * 37 + 11) as u8).collect();
        let text = base64::engine::general_purpose::STANDARD.encode(&bytes);
        match read_challenge(&challenge(&text)) {
            Ok(c) => {
                assert_eq!(c.nonce, text);
                assert_eq!(&c.rand[..], &bytes[..16]);
                assert_eq!(&c.autn[..], &bytes[16..32]);
            }
            Err(e) => panic!("{}", e.message()),
        }
    }
}
