//! The authentication and key agreement between the card and the network.
use vstd::prelude::*;
use vstd::slice::slice_subrange;
use vstd::utf8::{encode_utf8, is_ascii_chars_encode_utf8};
use digest::Digest;
use crate::codec::{
    base64_decoded, base64_text, from_base64, law_base64_is_read_back, text_of, utf8_text, Base64Error,
};
use crate::error::{Error, ErrorView};
use crate::number::push_bytes;
use crate::sip::{
    extract_text, law_value_is_read_back, law_value_needs_its_key, law_value_stands_behind_its_key,
    lemma_trimmed_is_same, value_of,
};
use crate::text::{
    chars, found, is_space, law_trimming_takes_both_ends, occurs, string, trim, trimmed, Class,
};

verus! {

/// The MD5 digest of `data`.
pub uninterp spec fn md5(data: Seq<u8>) -> Seq<u8>;

/// Calls `digest` of `md5::Md5`. The digest has sixteen bytes; which bytes
/// they are has a name only.
#[verifier::external_body]
fn md5_digest(data: &[u8]) -> (r: Vec<u8>)
    ensures
        r@ == md5(data@),
        r@.len() == 16,
{
    md5::Md5::digest(data).to_vec()
}

/// What the first digest of a response is taken over.
pub open spec fn secret_part(
    res: Seq<u8>,
    nonce: Seq<char>,
    nc: Seq<char>,
    cnonce: Seq<char>,
    qop: Seq<char>,
    realm: Seq<char>,
    user: Seq<char>,
) -> Seq<u8> {
    res + encode_utf8(nonce) + encode_utf8(nc) + encode_utf8(cnonce) + encode_utf8(qop) + encode_utf8(
        "auth:"@ + realm + ":"@ + user,
    )
}

/// The response to a challenge: the digest over RAND and the first digest.
pub open spec fn aka_response(
    rand: Seq<u8>,
    res: Seq<u8>,
    nonce: Seq<char>,
    nc: Seq<char>,
    cnonce: Seq<char>,
    qop: Seq<char>,
    realm: Seq<char>,
    user: Seq<char>,
) -> Seq<u8> {
    md5(rand + md5(secret_part(res, nonce, nc, cnonce, qop, realm, user)))
}

/// Puts together what the first digest of a response is taken over.
pub fn secret_bytes(
    res: &[u8],
    nonce: &str,
    nc: &str,
    cnonce: &str,
    qop: &str,
    realm: &str,
    user: &str,
) -> (r: Vec<u8>)
    ensures
        r@ == secret_part(res@, nonce@, nc@, cnonce@, qop@, realm@, user@),
{
    let mut who: String = "auth:".to_owned();
    who.append(realm);
    who.append(":");
    who.append(user);
    let mut r: Vec<u8> = Vec::new();
    push_bytes(&mut r, res);
    assert(r@ =~= res@);
    push_bytes(&mut r, nonce.as_bytes());
    push_bytes(&mut r, nc.as_bytes());
    push_bytes(&mut r, cnonce.as_bytes());
    push_bytes(&mut r, qop.as_bytes());
    push_bytes(&mut r, who.as_str().as_bytes());
    r
}

/// Puts together what the second digest of a response is taken over.
pub fn outer_bytes(rand: &[u8], first: &[u8]) -> (r: Vec<u8>)
    ensures
        r@ == rand@ + first@,
{
    let mut r: Vec<u8> = Vec::new();
    push_bytes(&mut r, rand);
    assert(r@ =~= rand@);
    push_bytes(&mut r, first);
    r
}

/// Computes the response to a challenge.
pub fn aka_md5_response(
    rand: &[u8],
    res: &[u8],
    nonce: &str,
    nc: &str,
    cnonce: &str,
    qop: &str,
    realm: &str,
    user: &str,
) -> (r: Vec<u8>)
    ensures
        r@ == aka_response(rand@, res@, nonce@, nc@, cnonce@, qop@, realm@, user@),
        r@.len() == 16,
{
    let first: Vec<u8> = md5_digest(&secret_bytes(res, nonce, nc, cnonce, qop, realm, user));
    md5_digest(&outer_bytes(rand, &first))
}

/// A challenge of the network.
pub struct Challenge {
    /// The nonce as it was received.
    pub nonce: String,
    /// What the server offers to agree on.
    pub security: String,
    /// The sixteen bytes that the card answers.
    pub rand: Vec<u8>,
    /// The sixteen bytes by which the card knows the network.
    pub autn: Vec<u8>,
}

/// A challenge with its text and its bytes as sequences.
pub struct ChallengeView {
    pub nonce: Seq<char>,
    pub security: Seq<char>,
    pub rand: Seq<u8>,
    pub autn: Seq<u8>,
}

impl View for Challenge {
    type V = ChallengeView;

    open spec fn view(&self) -> ChallengeView {
        ChallengeView {
            nonce: self.nonce@,
            security: self.security@,
            rand: self.rand@,
            autn: self.autn@,
        }
    }
}

/// The view of a result that holds a challenge.
pub open spec fn challenge_result(r: Result<Challenge, Error>) -> Result<ChallengeView, ErrorView> {
    match r {
        Ok(c) => Ok(c@),
        Err(e) => Err(e@),
    }
}

/// The view of a result that holds decoded bytes.
pub open spec fn bytes_result(r: Result<Vec<u8>, Base64Error>) -> Result<Seq<u8>, Base64Error> {
    match r {
        Ok(v) => Ok(v@),
        Err(e) => Err(e),
    }
}

/// The challenge in a decoded nonce: RAND, then AUTN, then anything.
pub open spec fn split_nonce(
    nonce: Seq<char>,
    security: Seq<char>,
    decoded: Result<Seq<u8>, Base64Error>,
) -> Result<ChallengeView, ErrorView> {
    match decoded {
        Err(e) => Err(ErrorView::Nonce(e)),
        Ok(c) => if c.len() < 32 {
            Err(ErrorView::ShortChallenge(c.len() as usize))
        } else {
            Ok(ChallengeView { nonce, security, rand: c.take(16), autn: c.subrange(16, 32) })
        },
    }
}

/// A value, or nothing where there is none.
pub open spec fn value_or_empty(v: Option<Seq<char>>) -> Seq<char> {
    match v {
        Some(s) => s,
        None => seq![],
    }
}

/// The Base64 text in a nonce.
pub open spec fn nonce_base64(nonce: Seq<char>) -> Seq<u8> {
    encode_utf8(trimmed(trimmed(nonce, Class::Space), Class::Is('"')))
}

/// The challenge in the text of an answer.
pub open spec fn challenge_in(s: Seq<char>) -> Result<ChallengeView, ErrorView> {
    let nonce = value_or_empty(value_of(s, "nonce"@));
    let security = trimmed(value_or_empty(value_of(s, "Security-Server"@)), Class::Space);
    split_nonce(nonce, security, base64_decoded(nonce_base64(nonce)))
}

/// Takes a decoded nonce apart.
pub fn split_challenge(
    nonce: String,
    security: String,
    decoded: Result<Vec<u8>, Base64Error>,
) -> (r: Result<Challenge, Error>)
    ensures
        challenge_result(r) == split_nonce(nonce@, security@, bytes_result(decoded)),
{
    match decoded {
        Err(e) => Err(Error::Nonce(e)),
        Ok(c) => {
            if c.len() < 32 {
                return Err(Error::ShortChallenge(c.len()));
            }
            let mut rand: Vec<u8> = Vec::new();
            push_bytes(&mut rand, slice_subrange(&c, 0, 16));
            let mut autn: Vec<u8> = Vec::new();
            push_bytes(&mut autn, slice_subrange(&c, 16, 32));
            assert(rand@ =~= c@.take(16));
            assert(autn@ =~= c@.subrange(16, 32));
            Ok(Challenge { nonce, security, rand, autn })
        },
    }
}

/// Reads the challenge in the text of an answer.
pub fn read_challenge(s: &str) -> (r: Result<Challenge, Error>)
    ensures
        challenge_result(r) == challenge_in(s@),
{
    let nonce: String = match extract_text(s, "nonce") {
        Some(v) => v,
        None => String::new(),
    };
    let offer: String = match extract_text(s, "Security-Server") {
        Some(v) => v,
        None => String::new(),
    };
    assert(nonce@ =~= value_or_empty(value_of(s@, "nonce"@)));
    assert(offer@ =~= value_or_empty(value_of(s@, "Security-Server"@)));
    let oc: Vec<char> = chars(&offer);
    let security: String = string(trim(&oc, Class::Space));
    let nc: Vec<char> = chars(&nonce);
    let bare: &[char] = trim(trim(&nc, Class::Space), Class::Is('"'));
    let decoded: Result<Vec<u8>, Base64Error> = from_base64(string(bare).as_str().as_bytes());
    split_challenge(nonce, security, decoded)
}

/// Reads the challenge in an answer.
pub fn challenge_of(reply: &[u8]) -> (r: Result<Challenge, Error>)
    ensures
        challenge_result(r) == challenge_in(utf8_text(reply@)),
{
    read_challenge(&text_of(reply))
}

/// ASCII bytes as text.
pub open spec fn ascii_text(b: Seq<u8>) -> Seq<char> {
    Seq::new(b.len(), |i: int| b[i] as char)
}

/// A byte that Base64 text may hold.
spec fn is_base64(b: u8) -> bool {
    b == 0x2b || 0x2f <= b <= 0x39 || b == 0x3d || 0x41 <= b <= 0x5a || 0x61 <= b <= 0x7a
}

proof fn lemma_base64_alphabet(v: Seq<u8>)
    ensures
        forall|i: int| 0 <= i < base64_text(v).len() ==> is_base64(#[trigger] base64_text(v)[i]),
        v.len() > 0 ==> base64_text(v).len() > 0,
    decreases v.len(),
{
    if v.len() > 3 {
        lemma_base64_alphabet(v.skip(3));
        let s = base64_text(v);
        let t = base64_text(v.skip(3));
        assert forall|i: int| 0 <= i < s.len() implies is_base64(#[trigger] s[i]) by {
            if i >= 4 {
                assert(s[i] == t[i - 4]);
            }
        }
    }
}

/// An answer whose nonce is the Base64 text of RAND and AUTN challenges the
/// card with that RAND and that AUTN.
pub proof fn law_challenge_is_read_back(
    head: Seq<char>,
    v: Seq<u8>,
    rest: Seq<char>,
)
    requires
        v.len() >= 32,
        rest.len() > 0 ==> !Class::Value.has(rest[0]),
        found(
            head + ("nonce"@ + "="@) + (seq!['"'] + ascii_text(base64_text(v)) + seq!['"']) + rest,
            "nonce"@ + "="@,
        ) == Some(head.len()),
    ensures
        challenge_in(
            head + ("nonce"@ + "="@) + (seq!['"'] + ascii_text(base64_text(v)) + seq!['"']) + rest,
        ) matches Ok(c) && c.nonce == ascii_text(base64_text(v)) && c.rand == v.take(16) && c.autn
            == v.subrange(16, 32),
{
    let b = base64_text(v);
    let n = ascii_text(b);
    lemma_base64_alphabet(v);
    assert forall|i: int| 0 <= i < n.len() implies Class::Value.has(#[trigger] n[i]) && n[i]
        <= '\u{7f}' && n[i] != '"' && !is_space(n[i]) by {
        assert(is_base64(b[i]));
    }
    assert(is_base64(b[0]));
    assert(is_base64(b[b.len() - 1]));
    law_value_is_read_back(head, "nonce"@, n, rest);
    lemma_trimmed_is_same(n, Class::Space);
    lemma_trimmed_is_same(n, Class::Is('"'));
    is_ascii_chars_encode_utf8(n);
    assert(encode_utf8(n) =~= b) by {
        assert forall|i: int| 0 <= i < b.len() implies encode_utf8(n)[i] == b[i] by {
            assert(is_base64(b[i]));
            assert(n[i] as u8 == encode_utf8(n)[i]);
        }
    }
    law_base64_is_read_back(v);
}

proof fn lemma_encode_concat(a: Seq<char>, b: Seq<char>)
    ensures
        encode_utf8(a + b) == encode_utf8(a) + encode_utf8(b),
    decreases a.len(),
{
    if a.len() == 0 {
        assert(a + b =~= b);
        assert(encode_utf8(a) + encode_utf8(b) =~= encode_utf8(b));
    } else {
        lemma_encode_concat(a.drop_first(), b);
        assert((a + b).drop_first() =~= a.drop_first() + b);
        assert((a + b)[0] == a[0]);
        assert(encode_utf8(a + b) =~= encode_utf8(a) + encode_utf8(b));
    }
}

/// The text behind RES in what the first digest is taken over: nonce, nonce
/// count, client nonce and quality, then `auth:`, the realm, a colon and the user.
pub open spec fn text_behind_res(
    nonce: Seq<char>,
    nc: Seq<char>,
    cnonce: Seq<char>,
    qop: Seq<char>,
    realm: Seq<char>,
    user: Seq<char>,
) -> Seq<char> {
    nonce + nc + cnonce + qop + (seq!['a', 'u', 't', 'h', ':'] + realm + seq![':'] + user)
}

/// The first digest is taken over the whole of RES and then over the text, each
/// part of it whole. For one text, what is digested tells RES.
pub proof fn law_first_digest_takes_all_of_res(
    res: Seq<u8>,
    other: Seq<u8>,
    nonce: Seq<char>,
    nc: Seq<char>,
    cnonce: Seq<char>,
    qop: Seq<char>,
    realm: Seq<char>,
    user: Seq<char>,
)
    ensures
        ({
            let y = secret_part(res, nonce, nc, cnonce, qop, realm, user);
            let text = encode_utf8(text_behind_res(nonce, nc, cnonce, qop, realm, user));
            &&& y.len() == res.len() + text.len()
            &&& text.len() == encode_utf8(nonce).len() + encode_utf8(nc).len() + encode_utf8(
                cnonce,
            ).len() + encode_utf8(qop).len() + encode_utf8(
                seq!['a', 'u', 't', 'h', ':'] + realm + seq![':'] + user,
            ).len()
            &&& y.take(res.len() as int) == res
            &&& y.skip(res.len() as int) == text
            &&& y == secret_part(other, nonce, nc, cnonce, qop, realm, user) ==> res == other
        }),
{
    let who = seq!['a', 'u', 't', 'h', ':'] + realm + seq![':'] + user;
    reveal_strlit("auth:");
    reveal_strlit(":");
    assert("auth:"@ =~= seq!['a', 'u', 't', 'h', ':']);
    assert(":"@ =~= seq![':']);
    lemma_encode_concat(nonce, nc);
    lemma_encode_concat(nonce + nc, cnonce);
    lemma_encode_concat(nonce + nc + cnonce, qop);
    lemma_encode_concat(nonce + nc + cnonce + qop, who);
    let text = encode_utf8(text_behind_res(nonce, nc, cnonce, qop, realm, user));
    let y = secret_part(res, nonce, nc, cnonce, qop, realm, user);
    let z = secret_part(other, nonce, nc, cnonce, qop, realm, user);
    assert(y =~= res + text);
    assert(z =~= other + text);
    assert(y.take(res.len() as int) =~= res);
    assert(y.skip(res.len() as int) =~= text);
    if y == z {
        assert(z.take(other.len() as int) =~= other);
    }
}

/// The response is the digest over the whole of RAND and the first digest,
/// which is taken over the whole of RES and the text.
pub proof fn law_response_takes_all_of_the_challenge(
    rand: Seq<u8>,
    res: Seq<u8>,
    nonce: Seq<char>,
    nc: Seq<char>,
    cnonce: Seq<char>,
    qop: Seq<char>,
    realm: Seq<char>,
    user: Seq<char>,
)
    ensures
        exists|first: Seq<u8>, outer: Seq<u8>|
            {
                &&& aka_response(rand, res, nonce, nc, cnonce, qop, realm, user) == #[trigger] md5(
                    outer,
                )
                &&& outer.len() == rand.len() + md5(first).len()
                &&& outer.take(rand.len() as int) == rand
                &&& outer.skip(rand.len() as int) == #[trigger] md5(first)
                &&& first.len() == res.len() + encode_utf8(
                    text_behind_res(nonce, nc, cnonce, qop, realm, user),
                ).len()
                &&& first.take(res.len() as int) == res
                &&& first.skip(res.len() as int) == encode_utf8(
                    text_behind_res(nonce, nc, cnonce, qop, realm, user),
                )
            },
{
    law_first_digest_takes_all_of_res(res, res, nonce, nc, cnonce, qop, realm, user);
    let first = secret_part(res, nonce, nc, cnonce, qop, realm, user);
    let outer = rand + md5(first);
    assert(outer.take(rand.len() as int) =~= rand);
    assert(outer.skip(rand.len() as int) =~= md5(first));
    assert(aka_response(rand, res, nonce, nc, cnonce, qop, realm, user) == md5(outer));
}

/// A nonce decides the challenge, wherever it stands: where it is the Base64
/// text of at least 32 bytes, the first sixteen are RAND and the next sixteen
/// AUTN; where it is that of fewer, their number is the error.
pub proof fn law_nonce_decides_the_challenge(
    head: Seq<char>,
    q1: Seq<char>,
    v: Seq<u8>,
    q2: Seq<char>,
    rest: Seq<char>,
)
    requires
        v.len() <= usize::MAX,
        forall|i: int| 0 <= i < q1.len() ==> #[trigger] q1[i] == '"',
        forall|i: int| 0 <= i < q2.len() ==> #[trigger] q2[i] == '"',
        rest.len() > 0 ==> rest[0] == ';' || rest[0] == '\r' || rest[0] == '\n',
        forall|a: Seq<char>, b: Seq<char>|
            head + "nonce="@ + (q1 + ascii_text(base64_text(v)) + q2 + rest) == #[trigger] (a
                + "nonce="@ + b) ==> head.len() <= a.len(),
    ensures
        ({
            let n = ascii_text(base64_text(v));
            match challenge_in(head + "nonce="@ + (q1 + n + q2 + rest)) {
                Ok(c) => v.len() >= 32 && c.nonce == n && c.rand.len() == 16 && c.autn.len() == 16
                    && c.rand + c.autn == v.take(32),
                Err(e) => v.len() < 32 && e == ErrorView::ShortChallenge(v.len() as usize),
            }
        }),
{
    let b = base64_text(v);
    let n = ascii_text(b);
    reveal_strlit("nonce=");
    reveal_strlit("nonce");
    assert("nonce="@ =~= "nonce"@ + seq!['=']);
    lemma_base64_alphabet(v);
    assert forall|i: int| 0 <= i < n.len() implies #[trigger] n[i] != ';' && n[i] != '\r' && n[i]
        != '\n' && n[i] <= '\u{7f}' && n[i] != '"' && !is_space(n[i]) by {
        assert(is_base64(b[i]));
    }
    let none = Seq::<char>::empty();
    assert(none + n + none =~= n);
    law_value_stands_behind_its_key(head, "nonce"@, q1, none, n, none, q2, rest);
    lemma_trimmed_is_same(n, Class::Space);
    lemma_trimmed_is_same(n, Class::Is('"'));
    is_ascii_chars_encode_utf8(n);
    assert(encode_utf8(n) =~= b) by {
        assert forall|i: int| 0 <= i < b.len() implies encode_utf8(n)[i] == b[i] by {
            assert(is_base64(b[i]));
            assert(n[i] as u8 == encode_utf8(n)[i]);
        }
    }
    law_base64_is_read_back(v);
    if v.len() >= 32 {
        assert(v.take(16) + v.subrange(16, 32) =~= v.take(32));
    }
}

/// A nonce that is the Base64 text of no bytes is an error of its own.
pub proof fn law_nonce_is_base64(head: Seq<char>, n: Seq<char>, rest: Seq<char>)
    requires
        n.len() > 0,
        forall|i: int|
            0 <= i < n.len() ==> #[trigger] n[i] != ';' && n[i] != '\r' && n[i] != '\n',
        !is_space(n[0]) && !is_space(n.last()) && n[0] != '"' && n.last() != '"',
        forall|v: Seq<u8>| encode_utf8(n) != #[trigger] base64_text(v),
        rest.len() > 0 ==> rest[0] == ';' || rest[0] == '\r' || rest[0] == '\n',
        forall|a: Seq<char>, b: Seq<char>|
            head + "nonce="@ + (n + rest) == #[trigger] (a + "nonce="@ + b) ==> head.len()
                <= a.len(),
    ensures
        challenge_in(head + "nonce="@ + (n + rest)) matches Err(ErrorView::Nonce(_)),
{
    reveal_strlit("nonce=");
    reveal_strlit("nonce");
    assert("nonce="@ =~= "nonce"@ + seq!['=']);
    let none = Seq::<char>::empty();
    assert(none + n + none =~= n);
    assert(none + n + none + rest =~= n + rest);
    law_value_stands_behind_its_key(head, "nonce"@, none, none, n, none, none, rest);
    lemma_trimmed_is_same(n, Class::Space);
    lemma_trimmed_is_same(n, Class::Is('"'));
}

/// A text without a nonce holds a challenge of no bytes.
pub proof fn law_challenge_needs_a_nonce(s: Seq<char>)
    requires
        !occurs(s, "nonce="@),
    ensures
        challenge_in(s) == Err::<ChallengeView, ErrorView>(ErrorView::ShortChallenge(0)),
{
    reveal_strlit("nonce=");
    reveal_strlit("nonce");
    assert("nonce="@ =~= "nonce"@ + seq!['=']);
    law_value_needs_its_key(s, "nonce"@);
    let none = Seq::<char>::empty();
    lemma_trimmed_is_same(none, Class::Space);
    lemma_trimmed_is_same(none, Class::Is('"'));
    is_ascii_chars_encode_utf8(none);
    assert(encode_utf8(none) =~= base64_text(Seq::<u8>::empty()));
    law_base64_is_read_back(Seq::<u8>::empty());
}

/// A challenge holds what stands behind the first `Security-Server=` of the
/// whole text, up to the first `;`, carriage return or line feed, without
/// quotes and white space around it: wherever the nonce stands.
pub proof fn law_offer_is_read_wherever_it_stands(
    head: Seq<char>,
    q1: Seq<char>,
    v: Seq<char>,
    q2: Seq<char>,
    rest: Seq<char>,
)
    requires
        forall|i: int| 0 <= i < q1.len() ==> #[trigger] q1[i] == '"',
        forall|i: int| 0 <= i < q2.len() ==> #[trigger] q2[i] == '"',
        forall|i: int|
            0 <= i < v.len() ==> #[trigger] v[i] != ';' && v[i] != '\r' && v[i] != '\n',
        v.len() > 0 ==> !is_space(v[0]) && !is_space(v.last()) && v[0] != '"' && v.last() != '"',
        rest.len() > 0 ==> rest[0] == ';' || rest[0] == '\r' || rest[0] == '\n',
        forall|a: Seq<char>, b: Seq<char>|
            head + "Security-Server="@ + (q1 + v + q2 + rest) == #[trigger] (a
                + "Security-Server="@ + b) ==> head.len() <= a.len(),
    ensures
        challenge_in(head + "Security-Server="@ + (q1 + v + q2 + rest)) matches Ok(c) ==> c.security
            == v,
{
    reveal_strlit("Security-Server=");
    reveal_strlit("Security-Server");
    assert("Security-Server="@ =~= "Security-Server"@ + seq!['=']);
    let none = Seq::<char>::empty();
    assert(none + v + none =~= v);
    law_value_stands_behind_its_key(head, "Security-Server"@, q1, none, v, none, q2, rest);
    lemma_trimmed_is_same(v, Class::Space);
}

/// A challenge in a text without `Security-Server=` offers nothing.
pub proof fn law_offer_needs_its_key(s: Seq<char>)
    requires
        !occurs(s, "Security-Server="@),
    ensures
        challenge_in(s) matches Ok(c) ==> c.security.len() == 0,
{
    reveal_strlit("Security-Server=");
    reveal_strlit("Security-Server");
    assert("Security-Server="@ =~= "Security-Server"@ + seq!['=']);
    law_value_needs_its_key(s, "Security-Server"@);
    lemma_trimmed_is_same(Seq::<char>::empty(), Class::Space);
}

/// Quotes with white space around them belong to the nonce as it is received,
/// and not to what is decoded.
pub proof fn law_quoted_nonce_is_decoded(
    head: Seq<char>,
    w1: Seq<char>,
    q1: Seq<char>,
    v: Seq<u8>,
    q2: Seq<char>,
    w2: Seq<char>,
    rest: Seq<char>,
)
    requires
        v.len() >= 32,
        w1.len() > 0,
        w2.len() > 0,
        forall|i: int|
            0 <= i < w1.len() ==> is_space(#[trigger] w1[i]) && w1[i] != '\r' && w1[i] != '\n',
        forall|i: int|
            0 <= i < w2.len() ==> is_space(#[trigger] w2[i]) && w2[i] != '\r' && w2[i] != '\n',
        forall|i: int| 0 <= i < q1.len() ==> #[trigger] q1[i] == '"',
        forall|i: int| 0 <= i < q2.len() ==> #[trigger] q2[i] == '"',
        rest.len() > 0 ==> rest[0] == ';' || rest[0] == '\r' || rest[0] == '\n',
        forall|a: Seq<char>, b: Seq<char>|
            head + "nonce="@ + (w1 + (q1 + ascii_text(base64_text(v)) + q2) + w2 + rest)
                == #[trigger] (a + "nonce="@ + b) ==> head.len() <= a.len(),
    ensures
        ({
            let n = q1 + ascii_text(base64_text(v)) + q2;
            challenge_in(head + "nonce="@ + (w1 + n + w2 + rest)) matches Ok(c) && c.nonce == n
                && c.rand.len() == 16 && c.autn.len() == 16 && c.rand + c.autn == v.take(32)
        }),
{
    let b = base64_text(v);
    let core = ascii_text(b);
    let n = q1 + core + q2;
    reveal_strlit("nonce=");
    reveal_strlit("nonce");
    assert("nonce="@ =~= "nonce"@ + seq!['=']);
    lemma_base64_alphabet(v);
    assert forall|i: int| 0 <= i < core.len() implies #[trigger] core[i] != ';' && core[i] != '\r'
        && core[i] != '\n' && core[i] <= '\u{7f}' && core[i] != '"' && !is_space(core[i]) by {
        assert(is_base64(b[i]));
    }
    assert forall|i: int| 0 <= i < n.len() implies #[trigger] n[i] != ';' && n[i] != '\r' && n[i]
        != '\n' && !is_space(n[i]) by {
        if i < q1.len() {
            assert(n[i] == q1[i]);
        } else if i < q1.len() + core.len() {
            assert(n[i] == core[i - q1.len()]);
        } else {
            assert(n[i] == q2[i - q1.len() - core.len()]);
        }
    }
    let none = Seq::<char>::empty();
    assert(none + (w1 + n + w2) + none + rest =~= w1 + n + w2 + rest);
    law_value_stands_behind_its_key(head, "nonce"@, none, w1, n, w2, none, rest);
    lemma_trimmed_is_same(n, Class::Space);
    law_trimming_takes_both_ends(q1, core, q2, Class::Is('"'));
    is_ascii_chars_encode_utf8(core);
    assert(encode_utf8(core) =~= b) by {
        assert forall|i: int| 0 <= i < b.len() implies encode_utf8(core)[i] == b[i] by {
            assert(is_base64(b[i]));
            assert(core[i] as u8 == encode_utf8(core)[i]);
        }
    }
    law_base64_is_read_back(v);
    assert(v.take(16) + v.subrange(16, 32) =~= v.take(32));
}

} // verus!
