//! ESP frames, as they protect a REGISTER request.
use vstd::prelude::*;
use hmac::Mac;
use crate::number::{be_bytes, law_bytes_of_a_number, push_be, push_bytes};

verus! {

/// The HMAC-MD5 tag of `data` under `key`.
pub uninterp spec fn hmac_md5(key: Seq<u8>, data: Seq<u8>) -> Seq<u8>;

/// Calls `new_from_slice`, `update` and `finalize` of `hmac::Hmac<md5::Md5>`.
/// A key of any length is accepted, and the tag has sixteen bytes; which bytes
/// they are has a name only.
#[verifier::external_body]
fn hmac_md5_tag(key: &[u8], data: &[u8]) -> (r: Vec<u8>)
    ensures
        r@ == hmac_md5(key@, data@),
        r@.len() == 16,
{
    let mut mac = hmac::Hmac::<md5::Md5>::new_from_slice(key).unwrap();
    mac.update(data);
    mac.finalize().into_bytes().to_vec()
}

/// The bytes that the integrity check value of a frame covers.
pub open spec fn covered(spi: u32, seq: u32, iv: Seq<u8>, ct: Seq<u8>) -> Seq<u8> {
    be_bytes(spi) + be_bytes(seq) + iv + ct
}

/// The integrity check value: the first twelve bytes of the tag.
pub open spec fn icv(key: Seq<u8>, spi: u32, seq: u32, iv: Seq<u8>, ct: Seq<u8>) -> Seq<u8> {
    hmac_md5(key, covered(spi, seq, iv, ct)).take(12)
}

/// Puts together what the integrity check value covers.
pub fn covered_bytes(spi: u32, seq: u32, iv: &[u8], ct: &[u8]) -> (r: Vec<u8>)
    ensures
        r@ == covered(spi, seq, iv@, ct@),
{
    let mut r: Vec<u8> = Vec::new();
    push_be(&mut r, spi);
    assert(r@ =~= be_bytes(spi));
    push_be(&mut r, seq);
    push_bytes(&mut r, iv);
    push_bytes(&mut r, ct);
    r
}

/// Cuts a tag down to the twelve bytes that a frame carries.
pub fn truncate_tag(tag: Vec<u8>) -> (r: Vec<u8>)
    requires
        tag@.len() >= 12,
    ensures
        r@ == tag@.take(12),
{
    let mut r: Vec<u8> = tag;
    r.truncate(12);
    r
}

/// Computes the integrity check value of a frame.
pub fn compute_icv(key: &[u8], spi: u32, seq: u32, iv: &[u8], ct: &[u8]) -> (r: Vec<u8>)
    ensures
        r@ == icv(key@, spi, seq, iv@, ct@),
        r@.len() == 12,
{
    let data: Vec<u8> = covered_bytes(spi, seq, iv, ct);
    truncate_tag(hmac_md5_tag(key, &data))
}

/// The initialisation vector of every frame: sixteen zeros.
pub open spec fn zero_iv() -> Seq<u8> {
    Seq::new(16, |i: int| 0u8)
}

/// A frame: identifier, sequence number, initialisation vector, payload, check value.
pub open spec fn frame(spi: u32, seq: u32, payload: Seq<u8>, check: Seq<u8>) -> Seq<u8> {
    be_bytes(spi) + be_bytes(seq) + zero_iv() + payload + check
}

/// The frame that carries `payload` under `key`.
pub open spec fn esp(spi: u32, seq: u32, key: Seq<u8>, payload: Seq<u8>) -> Seq<u8> {
    frame(spi, seq, payload, icv(key, spi, seq, zero_iv(), payload))
}

/// Puts a frame together around a check value.
pub fn build_frame(spi: u32, seq: u32, payload: &[u8], check: &[u8]) -> (r: Vec<u8>)
    ensures
        r@ == frame(spi, seq, payload@, check@),
{
    let iv: [u8; 16] = [0u8; 16];
    assert(iv@ =~= zero_iv());
    let mut r: Vec<u8> = covered_bytes(spi, seq, iv.as_slice(), payload);
    push_bytes(&mut r, check);
    r
}

/// Builds the frame that carries `payload` under `key`.
pub fn build_esp(spi: u32, seq: u32, key: &[u8], payload: &[u8]) -> (r: Vec<u8>)
    ensures
        r@ == esp(spi, seq, key@, payload@),
        r@.len() == payload@.len() + 36,
{
    let iv: [u8; 16] = [0u8; 16];
    assert(iv@ =~= zero_iv());
    let check: Vec<u8> = compute_icv(key, spi, seq, iv.as_slice(), payload);
    build_frame(spi, seq, payload, &check)
}

/// The check value at the end of a frame is taken over everything that stands
/// before it.
pub proof fn law_check_value_covers_the_frame(spi: u32, seq: u32, key: Seq<u8>, payload: Seq<u8>)
    ensures
        ({
            let f = esp(spi, seq, key, payload);
            let body = f.take(24 + payload.len() as int);
            f == body + hmac_md5(key, body).take(12)
        }),
{
    let f = esp(spi, seq, key, payload);
    let body = covered(spi, seq, zero_iv(), payload);
    assert(body.len() == 24 + payload.len());
    assert(f.take(24 + payload.len() as int) =~= body);
}

/// A frame gives back the payload that it carries.
pub proof fn law_payload_is_read_back(spi: u32, seq: u32, key: Seq<u8>, payload: Seq<u8>)
    ensures
        esp(spi, seq, key, payload).subrange(24, 24 + payload.len() as int) == payload,
{
    assert(esp(spi, seq, key, payload).subrange(24, 24 + payload.len() as int) =~= payload);
}

/// A frame with a check value of twelve bytes tells what it was built from.
pub proof fn law_frame_is_injective(
    spi1: u32,
    seq1: u32,
    payload1: Seq<u8>,
    check1: Seq<u8>,
    spi2: u32,
    seq2: u32,
    payload2: Seq<u8>,
    check2: Seq<u8>,
)
    requires
        check1.len() == 12,
        check2.len() == 12,
        frame(spi1, seq1, payload1, check1) == frame(spi2, seq2, payload2, check2),
    ensures
        spi1 == spi2,
        seq1 == seq2,
        payload1 == payload2,
        check1 == check2,
{
    let f = frame(spi1, seq1, payload1, check1);
    let g = frame(spi2, seq2, payload2, check2);
    assert(f.take(4) =~= be_bytes(spi1));
    assert(g.take(4) =~= be_bytes(spi2));
    assert(f.subrange(4, 8) =~= be_bytes(seq1));
    assert(g.subrange(4, 8) =~= be_bytes(seq2));
    crate::number::law_be_bytes_is_injective(spi1, spi2);
    crate::number::law_be_bytes_is_injective(seq1, seq2);
    assert(f.subrange(24, f.len() - 12) =~= payload1);
    assert(g.subrange(24, g.len() - 12) =~= payload2);
    assert(f.skip(f.len() - 12) =~= check1);
    assert(g.skip(g.len() - 12) =~= check2);
}

/// The check value is taken over both numbers, the vector and the text, in this
/// order and each of them whole.
pub proof fn law_check_value_covers_its_arguments(
    key: Seq<u8>,
    spi: u32,
    seq: u32,
    iv: Seq<u8>,
    ct: Seq<u8>,
)
    ensures
        exists|d: Seq<u8>|
            {
                &&& icv(key, spi, seq, iv, ct) == #[trigger] hmac_md5(key, d).take(12)
                &&& d.len() == 8 + iv.len() + ct.len()
                &&& spi == d[0] * 0x1000000 + d[1] * 0x10000 + d[2] * 0x100 + d[3]
                &&& seq == d[4] * 0x1000000 + d[5] * 0x10000 + d[6] * 0x100 + d[7]
                &&& d.skip(8) == iv + ct
            },
{
    let d = covered(spi, seq, iv, ct);
    law_bytes_of_a_number(spi);
    law_bytes_of_a_number(seq);
    assert(d.skip(8) =~= iv + ct);
    assert(d[0] == be_bytes(spi)[0] && d[1] == be_bytes(spi)[1] && d[2] == be_bytes(spi)[2] && d[3]
        == be_bytes(spi)[3]);
    assert(d[4] == be_bytes(seq)[0] && d[5] == be_bytes(seq)[1] && d[6] == be_bytes(seq)[2] && d[7]
        == be_bytes(seq)[3]);
    assert(icv(key, spi, seq, iv, ct) == hmac_md5(key, d).take(12));
}

/// A frame holds the index in its first four bytes and the sequence number in
/// the next four, highest byte first, then sixteen zeros, then the payload,
/// then what the tag over all of this begins with.
pub proof fn law_frame_layout(spi: u32, seq: u32, key: Seq<u8>, payload: Seq<u8>)
    ensures
        ({
            let f = esp(spi, seq, key, payload);
            let n = 24 + payload.len() as int;
            &&& f.len() == n + hmac_md5(key, f.take(n)).take(12).len()
            &&& spi == f[0] * 0x1000000 + f[1] * 0x10000 + f[2] * 0x100 + f[3]
            &&& seq == f[4] * 0x1000000 + f[5] * 0x10000 + f[6] * 0x100 + f[7]
            &&& forall|i: int| 8 <= i < 24 ==> #[trigger] f[i] == 0
            &&& f.subrange(24, n) == payload
            &&& f.skip(n) == hmac_md5(key, f.take(n)).take(12)
        }),
{
    let f = esp(spi, seq, key, payload);
    let n = 24 + payload.len() as int;
    law_check_value_covers_the_frame(spi, seq, key, payload);
    law_payload_is_read_back(spi, seq, key, payload);
    law_bytes_of_a_number(spi);
    law_bytes_of_a_number(seq);
    assert(f[0] == be_bytes(spi)[0] && f[1] == be_bytes(spi)[1] && f[2] == be_bytes(spi)[2] && f[3]
        == be_bytes(spi)[3]);
    assert(f[4] == be_bytes(seq)[0] && f[5] == be_bytes(seq)[1] && f[6] == be_bytes(seq)[2] && f[7]
        == be_bytes(seq)[3]);
    assert(f.skip(n) =~= hmac_md5(key, f.take(n)).take(12));
}

} // verus!
