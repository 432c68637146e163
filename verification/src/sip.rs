//! The SIP messages: the REGISTER requests that are sent, and what is read out
//! of the answers.
use vstd::prelude::*;
use vstd::slice::slice_subrange;
use vstd::utf8::{
    encode_utf8, encode_utf8_valid_utf8, is_ascii_chars_encode_utf8, valid_utf8,
};
use crate::codec::{law_text_is_read_back, law_text_is_read_first, text_of, utf8_text};
use crate::number::{decimal, to_decimal};
use crate::text::{
    begins, chars, count_prefix, ends, find, found, is_space, lemma_find_from,
    law_first_occurrence_is_found,
    law_trimming_takes_both_ends, lemma_found_in_longer, lemma_found_there, lemma_prefix_len, lemma_prefix_len_unique, lemma_trimmed,
    occurs, prefix_len, string, trim, trimmed, trimmed_end, trimmed_start, Class,
};

verus! {

/// The home domain.
pub open spec fn home() -> Seq<char> {
    "ims.mnc001.mcc460.3gppnetwork.org"@
}

/// Gives the home domain.
pub fn home_domain() -> (r: String)
    ensures
        r@ == home(),
{
    "ims.mnc001.mcc460.3gppnetwork.org".to_owned()
}

/// A request that offers security associations, over UDP. `tag` tells one
/// request from another.
pub open spec fn plain_text(
    user: Seq<char>,
    realm: Seq<char>,
    ue_ip: Seq<char>,
    ue_send: u16,
    spi_c: u32,
    spi_s: u32,
    tag: u64,
) -> Seq<char> {
    let t = decimal(tag as nat);
    "REGISTER sip:"@ + realm + " SIP/2.0\r\nVia: SIP/2.0/UDP "@ + ue_ip + ":5063;branch=z9hG4bK"@ + t
        + "\r\nMax-Forwards: 70\r\nTo: <sip:"@ + user + "@"@ + realm + ">\r\nFrom: <sip:"@ + user
        + "@"@ + realm + ">;tag=ue"@ + t + "\r\nCall-ID: ims-"@ + t + "@"@ + ue_ip
        + "\r\nCSeq: 1 REGISTER\r\nContact: <sip:"@ + user + "@"@ + ue_ip
        + ":5063;transport=udp>\r\nSupported: sec-agree\r\nSecurity-Client: ipsec-3gpp;alg=hmac-sha-1-96;ealg=aes-cbc;prot=esp;mod=trans;spi-c="@
        + decimal(spi_c as nat) + ";spi-s="@ + decimal(spi_s as nat) + ";port-c="@ + decimal(
        ue_send as nat,
    ) + ";port-s=5063"@ + "\r\nContent-Length: 0\r\n\r\n"@
}

/// The tag that is taken from the clock: at most six digits.
pub open spec fn clock_tag(now: u64) -> u64 {
    now % 1_000_000
}

/// Writes the request that offers security associations, over UDP. `now` is
/// the clock's microseconds since the Unix epoch.
pub fn plain_register(
    user: &str,
    realm: &str,
    ue_ip: &str,
    ue_send: u16,
    spi_c: u32,
    spi_s: u32,
    now: u64,
) -> (r: String)
    ensures
        r@ == plain_text(user@, realm@, ue_ip@, ue_send, spi_c, spi_s, clock_tag(now)),
{
    let t: String = to_decimal(now % 1_000_000);
    let mut r: String = "REGISTER sip:".to_owned();
    r.append(realm);
    r.append(" SIP/2.0\r\nVia: SIP/2.0/UDP ");
    r.append(ue_ip);
    r.append(":5063;branch=z9hG4bK");
    r.append(&t);
    r.append("\r\nMax-Forwards: 70\r\nTo: <sip:");
    r.append(user);
    r.append("@");
    r.append(realm);
    r.append(">\r\nFrom: <sip:");
    r.append(user);
    r.append("@");
    r.append(realm);
    r.append(">;tag=ue");
    r.append(&t);
    r.append("\r\nCall-ID: ims-");
    r.append(&t);
    r.append("@");
    r.append(ue_ip);
    r.append("\r\nCSeq: 1 REGISTER\r\nContact: <sip:");
    r.append(user);
    r.append("@");
    r.append(ue_ip);
    r.append(
        ":5063;transport=udp>\r\nSupported: sec-agree\r\nSecurity-Client: ipsec-3gpp;alg=hmac-sha-1-96;ealg=aes-cbc;prot=esp;mod=trans;spi-c=",
    );
    r.append(&to_decimal(spi_c as u64));
    r.append(";spi-s=");
    r.append(&to_decimal(spi_s as u64));
    r.append(";port-c=");
    r.append(&to_decimal(ue_send as u64));
    r.append(";port-s=5063");
    r.append("\r\nContent-Length: 0\r\n\r\n");
    r
}

/// A point in time, as the system tells it.
#[verifier::external_type_specification]
#[verifier::external_body]
pub struct ExSystemTime(std::time::SystemTime);

/// `SystemTime::now` reads the system clock. Nothing is said of the result.
pub assume_specification[ std::time::SystemTime::now ]() -> (r: std::time::SystemTime)
;

/// Calls `SystemTime::duration_since` with the Unix epoch. Nothing is said of
/// the result, which is `None` for a time before the epoch.
#[verifier::external_body]
fn since_epoch(t: &std::time::SystemTime) -> (r: Option<std::time::Duration>) {
    t.duration_since(std::time::UNIX_EPOCH).ok()
}

/// `Duration::as_micros` counts the microseconds. Nothing is said of the result.
pub assume_specification[ std::time::Duration::as_micros ](d: &std::time::Duration) -> (r: u128)
;

/// The reading that a count of microseconds since the Unix epoch stands for:
/// the low sixty-four bits of the count, or zero for a time before the epoch.
pub open spec fn reading(micros: Option<u128>) -> u64 {
    match micros {
        Some(m) => (m % 0x1_0000_0000_0000_0000) as u64,
        None => 0,
    }
}

/// Cuts a count of microseconds since the Unix epoch down to a reading.
pub fn clock_reading(micros: Option<u128>) -> (r: u64)
    ensures
        r == reading(micros),
{
    match micros {
        Some(m) => {
            assert((m as u64) == (m % 0x1_0000_0000_0000_0000u128) as u64) by (bit_vector);
            m as u64
        },
        None => 0,
    }
}

/// Reads the system clock: `clock_reading` of what it shows. What it shows
/// depends on the time alone, so any value may come back.
fn clock_micros() -> (r: u64) {
    match since_epoch(&std::time::SystemTime::now()) {
        Some(d) => clock_reading(Some(d.as_micros())),
        None => clock_reading(None),
    }
}

/// Writes the request that offers security associations, over UDP, with a tag
/// of at most six digits that is taken from the clock.
pub fn build_plain_register(
    user: &str,
    realm: &str,
    _pcscf: &str,
    ue_ip: &str,
    ue_send: u16,
    _ue_recv: u16,
    _pcscf_send: u16,
    spi_c: u32,
    spi_s: u32,
) -> (r: String)
    ensures
        exists|now: u64|
            r@ == plain_text(
                user@,
                realm@,
                ue_ip@,
                ue_send,
                spi_c,
                spi_s,
                #[trigger] clock_tag(now),
            ),
{
    let now: u64 = clock_micros();
    let r: String = plain_register(user, realm, ue_ip, ue_send, spi_c, spi_s, now);
    assert(r@ == plain_text(user@, realm@, ue_ip@, ue_send, spi_c, spi_s, clock_tag(now)));
    r
}

/// The lines that both requests of a registration begin with, over TCP.
pub open spec fn head_text(ue_ip: Seq<char>, now: u64, cseq: Seq<char>) -> Seq<char> {
    let t = decimal(now as nat);
    "REGISTER sip:"@ + home() + " SIP/2.0\r\nVia: SIP/2.0/TCP ["@ + ue_ip
        + "]:5063;branch=z9hG4bK"@ + t + "\r\nFrom: <sip:ue@"@ + home() + ">;tag=ue"@ + t
        + "\r\nTo: <sip:ue@"@ + home() + ">\r\nCall-ID: ims-"@ + t + "@"@ + ue_ip + "\r\nCSeq: "@
        + cseq + " REGISTER\r\nContact: <sip:ue@"@ + ue_ip + ":5063;transport=tcp>;ob\r\n"@
}

/// The lines that both requests of a registration end with.
pub open spec fn tail_text() -> Seq<char> {
    "Supported: sec-agree\r\nMax-Forwards: 70\r\nContent-Length: 0\r\n\r\n"@
}

fn head(ue_ip: &str, now: u64, cseq: &str) -> (r: String)
    ensures
        r@ == head_text(ue_ip@, now, cseq@),
{
    let t: String = to_decimal(now);
    let realm: String = home_domain();
    let mut r: String = "REGISTER sip:".to_owned();
    r.append(&realm);
    r.append(" SIP/2.0\r\nVia: SIP/2.0/TCP [");
    r.append(ue_ip);
    r.append("]:5063;branch=z9hG4bK");
    r.append(&t);
    r.append("\r\nFrom: <sip:ue@");
    r.append(&realm);
    r.append(">;tag=ue");
    r.append(&t);
    r.append("\r\nTo: <sip:ue@");
    r.append(&realm);
    r.append(">\r\nCall-ID: ims-");
    r.append(&t);
    r.append("@");
    r.append(ue_ip);
    r.append("\r\nCSeq: ");
    r.append(cseq);
    r.append(" REGISTER\r\nContact: <sip:ue@");
    r.append(ue_ip);
    r.append(":5063;transport=tcp>;ob\r\n");
    r
}

/// The first request of a registration, in the clear: it offers no more than
/// to agree on security.
pub open spec fn initial_text(ue_ip: Seq<char>, now: u64) -> Seq<char> {
    head_text(ue_ip, now, "1"@) + tail_text()
}

/// Writes the first request of a registration.
pub fn initial_register(ue_ip: &str, now: u64) -> (r: String)
    ensures
        r@ == initial_text(ue_ip@, now),
{
    let mut r: String = head(ue_ip, now, "1");
    r.append("Supported: sec-agree\r\nMax-Forwards: 70\r\nContent-Length: 0\r\n\r\n");
    r
}

/// What the second request of a registration says to answer the challenge.
pub struct Answer {
    /// The challenge as it was received.
    pub nonce: String,
    /// The response to the challenge, in hexadecimal.
    pub response: String,
    /// What the server offered, to be repeated.
    pub security: String,
    /// The indexes of the security associations.
    pub spi_c: u32,
    pub spi_s: u32,
    /// The port that requests leave by.
    pub port_c: u16,
}

/// An answer with its text as sequences of characters.
pub struct AnswerView {
    pub nonce: Seq<char>,
    pub response: Seq<char>,
    pub security: Seq<char>,
    pub spi_c: u32,
    pub spi_s: u32,
    pub port_c: u16,
}

impl View for Answer {
    type V = AnswerView;

    open spec fn view(&self) -> AnswerView {
        AnswerView {
            nonce: self.nonce@,
            response: self.response@,
            security: self.security@,
            spi_c: self.spi_c,
            spi_s: self.spi_s,
            port_c: self.port_c,
        }
    }
}

/// The second request of a registration, which answers the challenge.
pub open spec fn protected_text(
    ue_ip: Seq<char>,
    pcscf: Seq<char>,
    now: u64,
    a: AnswerView,
) -> Seq<char> {
    head_text(ue_ip, now, "2"@) + "Authorization: Digest realm=\""@ + home()
        + "\",username=\"ue\",nonce=\""@ + a.nonce + "\",uri=\"sip:"@ + pcscf
        + "\",algorithm=AKAv1-MD5,response=\""@ + a.response
        + "\",qop=auth,cnonce=\"0123456789abcdef\",nc=00000001\r\nSecurity-Client: ipsec-3gpp; prot=esp; mod=trans; spi-c="@
        + decimal(a.spi_c as nat) + "; spi-s="@ + decimal(a.spi_s as nat) + "; port-c="@ + decimal(
        a.port_c as nat,
    ) + "; port-s=5063; alg=hmac-md5-96; ealg=null\r\nSecurity-Verify: "@ + a.security + "\r\n"@
        + tail_text()
}

/// Writes the second request of a registration.
pub fn protected_register(ue_ip: &str, pcscf: &str, now: u64, a: &Answer) -> (r: String)
    ensures
        r@ == protected_text(ue_ip@, pcscf@, now, a@),
{
    let mut r: String = head(ue_ip, now, "2");
    r.append("Authorization: Digest realm=\"");
    r.append(&home_domain());
    r.append("\",username=\"ue\",nonce=\"");
    r.append(&a.nonce);
    r.append("\",uri=\"sip:");
    r.append(pcscf);
    r.append("\",algorithm=AKAv1-MD5,response=\"");
    r.append(&a.response);
    r.append(
        "\",qop=auth,cnonce=\"0123456789abcdef\",nc=00000001\r\nSecurity-Client: ipsec-3gpp; prot=esp; mod=trans; spi-c=",
    );
    r.append(&to_decimal(a.spi_c as u64));
    r.append("; spi-s=");
    r.append(&to_decimal(a.spi_s as u64));
    r.append("; port-c=");
    r.append(&to_decimal(a.port_c as u64));
    r.append("; port-s=5063; alg=hmac-md5-96; ealg=null\r\nSecurity-Verify: ");
    r.append(&a.security);
    r.append("\r\n");
    r.append("Supported: sec-agree\r\nMax-Forwards: 70\r\nContent-Length: 0\r\n\r\n");
    r
}

/// The value behind the first `key=` in `s`, up to `;` or the end of the line,
/// without the quotes around it and then without the white space.
pub open spec fn value_of(s: Seq<char>, key: Seq<char>) -> Option<Seq<char>> {
    let k = key + "="@;
    match found(s, k) {
        Some(i) => {
            let t = s.skip((i + k.len()) as int);
            let v = t.take(prefix_len(t, Class::Value) as int);
            Some(trimmed(trimmed(v, Class::Is('"')), Class::Space))
        },
        None => None,
    }
}

/// Reads the value behind the first `key=` in a text.
pub fn extract_text(s: &str, key: &str) -> (r: Option<String>)
    ensures
        match r {
            Some(v) => value_of(s@, key@) == Some(v@),
            None => value_of(s@, key@) is None,
        },
{
    let cs: Vec<char> = chars(s);
    let mut name: String = key.to_owned();
    name.append("=");
    let k: Vec<char> = chars(&name);
    let len: usize = cs.len();
    match find(&cs, &k) {
        Some(i) => {
            let t: &[char] = slice_subrange(&cs, i + k.len(), len);
            assert(t@ =~= s@.skip(i + k@.len()));
            let n: usize = count_prefix(t, Class::Value);
            let v: &[char] = slice_subrange(t, 0, n);
            let u: &[char] = trim(v, Class::Is('"'));
            Some(string(trim(u, Class::Space)))
        },
        None => None,
    }
}

/// Reads the value behind the first `key=` in a message.
pub fn extract(body: &[u8], key: &str) -> (r: Option<Vec<u8>>)
    ensures
        match r {
            Some(v) => value_of(utf8_text(body@), key@) is Some && v@ == encode_utf8(
                value_of(utf8_text(body@), key@)->0,
            ),
            None => value_of(utf8_text(body@), key@) is None,
        },
{
    match extract_text(&text_of(body), key) {
        Some(v) => Some(v.as_str().as_bytes_vec()),
        None => None,
    }
}

/// Text that neither begins nor ends in `k` is not trimmed.
pub proof fn lemma_trimmed_is_same(s: Seq<char>, k: Class)
    requires
        s.len() == 0 || (!k.has(s[0]) && !k.has(s.last())),
    ensures
        trimmed(s, k) == s,
{
    assert(s.skip(0) =~= s);
}

/// Trimming takes off one character on each side of such a text.
proof fn lemma_trimmed_between(s: Seq<char>, c: char)
    requires
        s.len() > 0,
        s[0] != c,
        s.last() != c,
    ensures
        trimmed(seq![c] + s + seq![c], Class::Is(c)) == s,
{
    let k = Class::Is(c);
    let t = seq![c] + s + seq![c];
    lemma_prefix_len_unique(t, k, 1);
    let u = t.skip(1);
    assert(trimmed_start(t, k) == u);
    assert(u.drop_last() =~= s);
    assert(u.last() == c);
    assert(trimmed_end(u, k) == trimmed_end(s, k));
}

/// A value that a message holds between quotes is read back, if neither it nor
/// what stands before it holds what would end or hide it.
pub proof fn law_value_is_read_back(
    head: Seq<char>,
    key: Seq<char>,
    v: Seq<char>,
    rest: Seq<char>,
)
    requires
        v.len() > 0,
        forall|i: int| 0 <= i < v.len() ==> Class::Value.has(#[trigger] v[i]),
        v[0] != '"' && !is_space(v[0]),
        v.last() != '"' && !is_space(v.last()),
        rest.len() > 0 ==> !Class::Value.has(rest[0]),
        found(
            head + (key + "="@) + (seq!['"'] + v + seq!['"']) + rest,
            key + "="@,
        ) == Some(head.len()),
    ensures
        value_of(
            head + (key + "="@) + (seq!['"'] + v + seq!['"']) + rest,
            key,
        ) == Some(v),
{
    let k = key + "="@;
    let q = seq!['"'] + v + seq!['"'];
    let s = head + k + q + rest;
    let t = s.skip((head.len() + k.len()) as int);
    assert(t =~= q + rest);
    assert forall|i: int| 0 <= i < q.len() implies Class::Value.has(#[trigger] t[i]) by {
        if 0 < i && i < q.len() - 1 {
            assert(t[i] == v[i - 1]);
        }
    }
    lemma_prefix_len_unique(t, Class::Value, q.len());
    assert(t.take(q.len() as int) =~= q);
    lemma_trimmed_between(v, '"');
    lemma_trimmed_is_same(v, Class::Space);
}

/// A value ends before the end of its line or of its parameter, and begins and
/// ends with no white space. Its bytes are UTF-8.
pub proof fn law_value_is_clean(s: Seq<char>, key: Seq<char>)
    ensures
        value_of(s, key) matches Some(v) ==> {
            &&& forall|i: int|
                0 <= i < v.len() ==> #[trigger] v[i] != ';' && v[i] != '\r' && v[i] != '\n'
            &&& v.len() > 0 ==> !is_space(v[0]) && !is_space(v.last())
            &&& valid_utf8(encode_utf8(v))
            &&& utf8_text(encode_utf8(v)) == v
        },
{
    let k = key + "="@;
    if let Some(i) = found(s, k) {
        let t = s.skip((i + k.len()) as int);
        lemma_prefix_len(t, Class::Value);
        let raw = t.take(prefix_len(t, Class::Value) as int);
        let bare = trimmed(raw, Class::Is('"'));
        let v = trimmed(bare, Class::Space);
        let a = lemma_trimmed(raw, Class::Is('"'));
        let b = lemma_trimmed(bare, Class::Space);
        assert forall|j: int| 0 <= j < v.len() implies #[trigger] v[j] != ';' && v[j] != '\r'
            && v[j] != '\n' by {
            assert(v[j] == bare[b.0 + j]);
            assert(bare[b.0 + j] == raw[a.0 + b.0 + j]);
            assert(Class::Value.has(t[a.0 + b.0 + j]));
        }
        encode_utf8_valid_utf8(v);
        law_text_is_read_back(v);
    }
}

/// `s` holds a value for `key` and what ends it.
pub open spec fn holds_whole_value(s: Seq<char>, key: Seq<char>) -> bool {
    let k = key + "="@;
    found(s, k) matches Some(i) && {
        let t = s.skip((i + k.len()) as int);
        prefix_len(t, Class::Value) < t.len()
    }
}

/// Text behind the end of a value does not change it.
pub proof fn law_added_text_does_not_count(s: Seq<char>, key: Seq<char>, y: Seq<char>)
    requires
        holds_whole_value(s, key),
    ensures
        value_of(s + y, key) == value_of(s, key),
{
    let k = key + "="@;
    let i = found(s, k)->0;
    lemma_found_in_longer(s, y, k);
    lemma_find_from(s, k, 0);
    let t = s.skip((i + k.len()) as int);
    let u = (s + y).skip((i + k.len()) as int);
    assert(u =~= t + y);
    let n = prefix_len(t, Class::Value);
    lemma_prefix_len(t, Class::Value);
    assert forall|j: int| 0 <= j < n implies Class::Value.has(#[trigger] u[j]) by {
        assert(u[j] == t[j]);
    }
    assert(u[n as int] == t[n as int]);
    lemma_prefix_len_unique(u, Class::Value, n);
    assert(u.take(n as int) =~= t.take(n as int));
}

/// Bytes behind the end of a value do not change what is read, be they UTF-8
/// or not.
pub proof fn law_added_bytes_do_not_count(s: Seq<char>, key: Seq<char>, x: Seq<u8>)
    requires
        holds_whole_value(s, key),
    ensures
        value_of(utf8_text(encode_utf8(s) + x), key) == value_of(s, key),
{
    law_text_is_read_first(s, x);
    let t = utf8_text(encode_utf8(s) + x);
    let y = t.skip(s.len() as int);
    assert(t =~= s + y);
    law_added_text_does_not_count(s, key, y);
}

/// What an answer says.
#[derive(Debug, Clone, Copy, PartialEq, Eq, Structural)]
pub enum Verdict {
    /// The registration stands.
    Accepted,
    /// The client has to answer a challenge.
    Challenged,
    /// Anything else.
    Refused,
}

/// What an answer says, by its first line.
pub open spec fn verdict(reply: Seq<u8>) -> Verdict {
    if begins(reply, encode_utf8("SIP/2.0 200"@)) {
        Verdict::Accepted
    } else if begins(reply, encode_utf8("SIP/2.0 401"@)) {
        Verdict::Challenged
    } else {
        Verdict::Refused
    }
}

fn bytes_start_with(s: &[u8], pat: &[u8]) -> (r: bool)
    ensures
        r == begins(s@, pat@),
{
    let n: usize = pat.len();
    if s.len() < n {
        return false;
    }
    let mut i: usize = 0;
    while i < n
        invariant
            i <= n,
            n == pat@.len(),
            n <= s@.len(),
            forall|j: int| 0 <= j < i ==> s@[j] == #[trigger] pat@[j],
        decreases n - i,
    {
        if s[i] != pat[i] {
            assert(s@.take(n as int)[i as int] != pat@[i as int]);
            return false;
        }
        i = i + 1;
    }
    assert(s@.take(n as int) =~= pat@);
    true
}

/// Reads what an answer says.
pub fn classify(reply: &[u8]) -> (r: Verdict)
    ensures
        r == verdict(reply@),
{
    if bytes_start_with(reply, "SIP/2.0 200".as_bytes()) {
        Verdict::Accepted
    } else if bytes_start_with(reply, "SIP/2.0 401".as_bytes()) {
        Verdict::Challenged
    } else {
        Verdict::Refused
    }
}

/// What a text begins with, a longer text begins with.
broadcast proof fn lemma_begins_longer(a: Seq<char>, b: Seq<char>, pat: Seq<char>)
    requires
        begins(a, pat),
    ensures
        #[trigger] begins(a + b, pat),
{
    assert((a + b).take(pat.len() as int) =~= a.take(pat.len() as int));
}

/// What a text ends with, it ends with after another text.
proof fn lemma_ends_longer(a: Seq<char>, b: Seq<char>, pat: Seq<char>)
    requires
        ends(b, pat),
    ensures
        ends(a + b, pat),
{
    assert((a + b).skip((a + b).len() - pat.len()) =~= b.skip(b.len() - pat.len()));
}

/// The request that offers security associations is a REGISTER request and
/// ends with an empty line.
pub proof fn law_plain_request_is_framed(
    user: Seq<char>,
    realm: Seq<char>,
    ue_ip: Seq<char>,
    ue_send: u16,
    spi_c: u32,
    spi_s: u32,
    tag: u64,
)
    ensures
        begins(plain_text(user, realm, ue_ip, ue_send, spi_c, spi_s, tag), "REGISTER sip:"@),
        ends(plain_text(user, realm, ue_ip, ue_send, spi_c, spi_s, tag), "\r\n\r\n"@),
{
    broadcast use lemma_begins_longer;

    let h = "REGISTER sip:"@;
    let p = plain_text(user, realm, ue_ip, ue_send, spi_c, spi_s, tag);
    let last = "\r\nContent-Length: 0\r\n\r\n"@;
    assert(h.take(h.len() as int) =~= h);
    assert(begins(h, h));
    assert(begins(p, h));
    reveal_strlit("\r\n\r\n");
    reveal_strlit("\r\nContent-Length: 0\r\n\r\n");
    assert(last.skip(last.len() - 4) =~= "\r\n\r\n"@);
    assert(p.take(p.len() - last.len()) + last =~= p);
    lemma_ends_longer(p.take(p.len() - last.len()), last, "\r\n\r\n"@);
}

proof fn lemma_head_and_tail(ue_ip: Seq<char>, now: u64, cseq: Seq<char>)
    ensures
        begins(head_text(ue_ip, now, cseq), "REGISTER sip:"@),
        ends(tail_text(), "\r\n\r\n"@),
{
    broadcast use lemma_begins_longer;

    let h = "REGISTER sip:"@;
    assert(h.take(h.len() as int) =~= h);
    assert(begins(h, h));
    reveal_strlit("\r\n\r\n");
    reveal_strlit("Supported: sec-agree\r\nMax-Forwards: 70\r\nContent-Length: 0\r\n\r\n");
    assert(tail_text().skip(tail_text().len() - 4) =~= "\r\n\r\n"@);
}

/// The first request of a registration is a REGISTER request and ends with an
/// empty line.
pub proof fn law_initial_request_is_framed(ue_ip: Seq<char>, now: u64)
    ensures
        begins(initial_text(ue_ip, now), "REGISTER sip:"@),
        ends(initial_text(ue_ip, now), "\r\n\r\n"@),
{
    lemma_head_and_tail(ue_ip, now, "1"@);
    lemma_begins_longer(head_text(ue_ip, now, "1"@), tail_text(), "REGISTER sip:"@);
    lemma_ends_longer(head_text(ue_ip, now, "1"@), tail_text(), "\r\n\r\n"@);
}

/// The second request of a registration is a REGISTER request and ends with an
/// empty line.
pub proof fn law_protected_request_is_framed(
    ue_ip: Seq<char>,
    pcscf: Seq<char>,
    now: u64,
    a: AnswerView,
)
    ensures
        begins(protected_text(ue_ip, pcscf, now, a), "REGISTER sip:"@),
        ends(protected_text(ue_ip, pcscf, now, a), "\r\n\r\n"@),
{
    broadcast use lemma_begins_longer;

    let q = protected_text(ue_ip, pcscf, now, a);
    lemma_head_and_tail(ue_ip, now, "2"@);
    assert(begins(q, "REGISTER sip:"@));
    assert(q.take(q.len() - tail_text().len()) + tail_text() =~= q);
    lemma_ends_longer(q.take(q.len() - tail_text().len()), tail_text(), "\r\n\r\n"@);
}

/// A value is what stands behind the first `key=` of a text, up to the first
/// `;`, carriage return or line feed, or the end: without the quotes around it,
/// and then without the white space. Where there is no `key=`, there is none.
pub proof fn law_value_stands_behind_its_key(
    head: Seq<char>,
    key: Seq<char>,
    q1: Seq<char>,
    w1: Seq<char>,
    v: Seq<char>,
    w2: Seq<char>,
    q2: Seq<char>,
    rest: Seq<char>,
)
    requires
        forall|i: int| 0 <= i < q1.len() ==> #[trigger] q1[i] == '"',
        forall|i: int| 0 <= i < q2.len() ==> #[trigger] q2[i] == '"',
        forall|i: int|
            0 <= i < w1.len() ==> is_space(#[trigger] w1[i]) && w1[i] != '\r' && w1[i] != '\n',
        forall|i: int|
            0 <= i < w2.len() ==> is_space(#[trigger] w2[i]) && w2[i] != '\r' && w2[i] != '\n',
        forall|i: int|
            0 <= i < v.len() ==> #[trigger] v[i] != ';' && v[i] != '\r' && v[i] != '\n',
        v.len() > 0 ==> !is_space(v[0]) && !is_space(v.last()),
        v.len() > 0 && w1.len() == 0 ==> v[0] != '"',
        v.len() > 0 && w2.len() == 0 ==> v.last() != '"',
        rest.len() > 0 ==> rest[0] == ';' || rest[0] == '\r' || rest[0] == '\n',
        forall|a: Seq<char>, b: Seq<char>|
            head + (key + seq!['=']) + (q1 + (w1 + v + w2) + q2 + rest) == #[trigger] (a + (key
                + seq!['=']) + b) ==> head.len() <= a.len(),
    ensures
        value_of(head + (key + seq!['=']) + (q1 + (w1 + v + w2) + q2 + rest), key) == Some(v),
{
    let k = key + seq!['='];
    reveal_strlit("=");
    assert("="@ =~= seq!['=']);
    let core = w1 + v + w2;
    let raw = q1 + core + q2;
    let t = raw + rest;
    let s = head + k + t;
    lemma_found_there(head, k, t);
    assert(s.skip((head.len() + k.len()) as int) =~= t);
    assert forall|i: int| 0 <= i < core.len() implies Class::Value.has(#[trigger] core[i]) by {
        if i < w1.len() {
            assert(core[i] == w1[i]);
        } else if i < w1.len() + v.len() {
            assert(core[i] == v[i - w1.len()]);
        } else {
            assert(core[i] == w2[i - w1.len() - v.len()]);
        }
    }
    assert forall|i: int| 0 <= i < raw.len() implies Class::Value.has(#[trigger] t[i]) by {
        if i < q1.len() {
            assert(t[i] == q1[i]);
        } else if i < q1.len() + core.len() {
            assert(t[i] == core[i - q1.len()]);
        } else {
            assert(t[i] == q2[i - q1.len() - core.len()]);
        }
    }
    lemma_prefix_len_unique(t, Class::Value, raw.len());
    assert(t.take(raw.len() as int) =~= raw);
    if core.len() > 0 {
        if w1.len() > 0 {
            assert(core[0] == w1[0]);
        } else if v.len() > 0 {
            assert(core[0] == v[0]);
        } else {
            assert(core[0] == w2[0]);
        }
        if w2.len() > 0 {
            assert(core.last() == w2[w2.len() - 1]);
        } else if v.len() > 0 {
            assert(core.last() == v[v.len() - 1]);
        } else {
            assert(core.last() == w1[w1.len() - 1]);
        }
    }
    law_trimming_takes_both_ends(q1, core, q2, Class::Is('"'));
    law_trimming_takes_both_ends(w1, v, w2, Class::Space);
}

/// A text in which `key=` does not occur holds no value for the key; any other
/// text holds one.
pub proof fn law_value_needs_its_key(s: Seq<char>, key: Seq<char>)
    ensures
        value_of(s, key) is Some <==> occurs(s, key + seq!['=']),
{
    reveal_strlit("=");
    assert("="@ =~= seq!['=']);
    law_first_occurrence_is_found(s, key + seq!['=']);
}

/// The first eleven bytes of an answer that accepts: `SIP/2.0 200`.
pub open spec fn is_accepting(reply: Seq<u8>) -> bool {
    reply.len() >= 11 && reply.take(11) == seq![
        0x53u8, 0x49u8, 0x50u8, 0x2fu8, 0x32u8, 0x2eu8, 0x30u8, 0x20u8, 0x32u8, 0x30u8, 0x30u8,
    ]
}

/// The first eleven bytes of an answer that challenges: `SIP/2.0 401`.
pub open spec fn is_challenging(reply: Seq<u8>) -> bool {
    reply.len() >= 11 && reply.take(11) == seq![
        0x53u8, 0x49u8, 0x50u8, 0x2fu8, 0x32u8, 0x2eu8, 0x30u8, 0x20u8, 0x34u8, 0x30u8, 0x31u8,
    ]
}

/// An answer accepts or challenges exactly if its first eleven bytes say so,
/// and refuses otherwise.
pub proof fn law_answers_are_told_apart_by_their_bytes(reply: Seq<u8>)
    ensures
        verdict(reply) == Verdict::Accepted <==> is_accepting(reply),
        verdict(reply) == Verdict::Challenged <==> is_challenging(reply),
        verdict(reply) == Verdict::Refused <==> !is_accepting(reply) && !is_challenging(reply),
{
    let ok = "SIP/2.0 200"@;
    let no = "SIP/2.0 401"@;
    reveal_strlit("SIP/2.0 200");
    reveal_strlit("SIP/2.0 401");
    is_ascii_chars_encode_utf8(ok);
    is_ascii_chars_encode_utf8(no);
    let a = seq![
        0x53u8, 0x49u8, 0x50u8, 0x2fu8, 0x32u8, 0x2eu8, 0x30u8, 0x20u8, 0x32u8, 0x30u8, 0x30u8,
    ];
    let c = seq![
        0x53u8, 0x49u8, 0x50u8, 0x2fu8, 0x32u8, 0x2eu8, 0x30u8, 0x20u8, 0x34u8, 0x30u8, 0x31u8,
    ];
    assert forall|i: int| 0 <= i < 11 implies encode_utf8(ok)[i] == a[i] by {
        assert(ok[i] as u8 == encode_utf8(ok)[i]);
    }
    assert forall|i: int| 0 <= i < 11 implies encode_utf8(no)[i] == c[i] by {
        assert(no[i] as u8 == encode_utf8(no)[i]);
    }
    assert(encode_utf8(ok) =~= a);
    assert(encode_utf8(no) =~= c);
    assert(a[8] != c[8]);
}

/// A line of a message, with its end.
pub open spec fn line(s: Seq<char>) -> Seq<char> {
    s + "\r\n"@
}

broadcast proof fn lemma_concat_is_associative(a: Seq<char>, b: Seq<char>, c: Seq<char>)
    ensures
        #[trigger] (a + b + c) == a + (b + c),
{
    assert(a + b + c =~= a + (b + c));
}

proof fn lemma_literals_of_the_head()
    ensures
        " SIP/2.0\r\nVia: SIP/2.0/TCP ["@ == " SIP/2.0"@ + "\r\n"@ + "Via: SIP/2.0/TCP ["@,
        "\r\nFrom: <sip:ue@"@ == "\r\n"@ + "From: <sip:ue@"@,
        "\r\nTo: <sip:ue@"@ == "\r\n"@ + "To: <sip:ue@"@,
        ">\r\nCall-ID: ims-"@ == ">"@ + "\r\n"@ + "Call-ID: ims-"@,
        "\r\nCSeq: "@ == "\r\n"@ + "CSeq: "@,
        " REGISTER\r\nContact: <sip:ue@"@ == " REGISTER"@ + "\r\n"@ + "Contact: <sip:ue@"@,
        ":5063;transport=tcp>;ob\r\n"@ == ":5063;transport=tcp>;ob"@ + "\r\n"@,
{
    assert(" SIP/2.0\r\nVia: SIP/2.0/TCP ["@ =~= " SIP/2.0"@ + "\r\n"@ + "Via: SIP/2.0/TCP ["@) by {
        reveal_strlit(" SIP/2.0\r\nVia: SIP/2.0/TCP [");
        reveal_strlit(" SIP/2.0");
        reveal_strlit("\r\n");
        reveal_strlit("Via: SIP/2.0/TCP [");
    }
    assert("\r\nFrom: <sip:ue@"@ =~= "\r\n"@ + "From: <sip:ue@"@) by {
        reveal_strlit("\r\nFrom: <sip:ue@");
        reveal_strlit("\r\n");
        reveal_strlit("From: <sip:ue@");
    }
    assert("\r\nTo: <sip:ue@"@ =~= "\r\n"@ + "To: <sip:ue@"@) by {
        reveal_strlit("\r\nTo: <sip:ue@");
        reveal_strlit("\r\n");
        reveal_strlit("To: <sip:ue@");
    }
    assert(">\r\nCall-ID: ims-"@ =~= ">"@ + "\r\n"@ + "Call-ID: ims-"@) by {
        reveal_strlit(">\r\nCall-ID: ims-");
        reveal_strlit(">");
        reveal_strlit("\r\n");
        reveal_strlit("Call-ID: ims-");
    }
    assert("\r\nCSeq: "@ =~= "\r\n"@ + "CSeq: "@) by {
        reveal_strlit("\r\nCSeq: ");
        reveal_strlit("\r\n");
        reveal_strlit("CSeq: ");
    }
    assert(" REGISTER\r\nContact: <sip:ue@"@ =~= " REGISTER"@ + "\r\n"@ + "Contact: <sip:ue@"@) by {
        reveal_strlit(" REGISTER\r\nContact: <sip:ue@");
        reveal_strlit(" REGISTER");
        reveal_strlit("\r\n");
        reveal_strlit("Contact: <sip:ue@");
    }
    assert(":5063;transport=tcp>;ob\r\n"@ =~= ":5063;transport=tcp>;ob"@ + "\r\n"@) by {
        reveal_strlit(":5063;transport=tcp>;ob\r\n");
        reveal_strlit(":5063;transport=tcp>;ob");
        reveal_strlit("\r\n");
    }
}

#[verifier::spinoff_prover]
#[verifier::rlimit(60)]
proof fn lemma_head_front_lines(ue_ip: Seq<char>, t: Seq<char>, domain: Seq<char>)
    ensures
        "REGISTER sip:"@ + domain + " SIP/2.0\r\nVia: SIP/2.0/TCP ["@ + ue_ip
            + "]:5063;branch=z9hG4bK"@ + t + "\r\nFrom: <sip:ue@"@ + domain + ">;tag=ue"@ + t
            + "\r\nTo: <sip:ue@"@ == line("REGISTER sip:"@ + domain + " SIP/2.0"@) + line(
            "Via: SIP/2.0/TCP ["@ + ue_ip + "]:5063;branch=z9hG4bK"@ + t,
        ) + line("From: <sip:ue@"@ + domain + ">;tag=ue"@ + t) + "To: <sip:ue@"@,
{
    broadcast use lemma_concat_is_associative;

    lemma_literals_of_the_head();
}

#[verifier::spinoff_prover]
#[verifier::rlimit(60)]
proof fn lemma_head_back_lines(
    front: Seq<char>,
    ue_ip: Seq<char>,
    t: Seq<char>,
    domain: Seq<char>,
    cseq: Seq<char>,
)
    ensures
        front + "To: <sip:ue@"@ + domain + ">\r\nCall-ID: ims-"@ + t + "@"@ + ue_ip
            + "\r\nCSeq: "@ + cseq + " REGISTER\r\nContact: <sip:ue@"@ + ue_ip
            + ":5063;transport=tcp>;ob\r\n"@ == front + line("To: <sip:ue@"@ + domain + ">"@)
            + line("Call-ID: ims-"@ + t + "@"@ + ue_ip) + line("CSeq: "@ + cseq + " REGISTER"@)
            + line("Contact: <sip:ue@"@ + ue_ip + ":5063;transport=tcp>;ob"@),
{
    broadcast use lemma_concat_is_associative;

    lemma_literals_of_the_head();
}

proof fn lemma_head_lines(ue_ip: Seq<char>, now: u64, cseq: Seq<char>)
    ensures
        ({
            let domain = "ims.mnc001.mcc460.3gppnetwork.org"@;
            let t = decimal(now as nat);
            head_text(ue_ip, now, cseq) == line("REGISTER sip:"@ + domain + " SIP/2.0"@) + line(
                "Via: SIP/2.0/TCP ["@ + ue_ip + "]:5063;branch=z9hG4bK"@ + t,
            ) + line("From: <sip:ue@"@ + domain + ">;tag=ue"@ + t) + line(
                "To: <sip:ue@"@ + domain + ">"@,
            ) + line("Call-ID: ims-"@ + t + "@"@ + ue_ip) + line("CSeq: "@ + cseq + " REGISTER"@)
                + line("Contact: <sip:ue@"@ + ue_ip + ":5063;transport=tcp>;ob"@)
        }),
{
    let domain = "ims.mnc001.mcc460.3gppnetwork.org"@;
    let t = decimal(now as nat);
    lemma_head_front_lines(ue_ip, t, domain);
    lemma_head_back_lines(
        line("REGISTER sip:"@ + domain + " SIP/2.0"@) + line(
            "Via: SIP/2.0/TCP ["@ + ue_ip + "]:5063;branch=z9hG4bK"@ + t,
        ) + line("From: <sip:ue@"@ + domain + ">;tag=ue"@ + t),
        ue_ip,
        t,
        domain,
        cseq,
    );
}

proof fn lemma_literals_of_the_requests()
    ensures
        "CSeq: 1 REGISTER"@ == "CSeq: "@ + "1"@ + " REGISTER"@,
        "CSeq: 2 REGISTER"@ == "CSeq: "@ + "2"@ + " REGISTER"@,
        "Supported: sec-agree\r\nMax-Forwards: 70\r\nContent-Length: 0\r\n\r\n"@ == "Supported: sec-agree"@ + "\r\n"@ + "Max-Forwards: 70"@ + "\r\n"@ + "Content-Length: 0"@ + "\r\n"@ + "\r\n"@,
{
    assert("CSeq: 1 REGISTER"@ =~= "CSeq: "@ + "1"@ + " REGISTER"@) by {
        reveal_strlit("CSeq: 1 REGISTER");
        reveal_strlit("CSeq: ");
        reveal_strlit("1");
        reveal_strlit(" REGISTER");
    }
    assert("CSeq: 2 REGISTER"@ =~= "CSeq: "@ + "2"@ + " REGISTER"@) by {
        reveal_strlit("CSeq: 2 REGISTER");
        reveal_strlit("CSeq: ");
        reveal_strlit("2");
        reveal_strlit(" REGISTER");
    }
    assert("Supported: sec-agree\r\nMax-Forwards: 70\r\nContent-Length: 0\r\n\r\n"@ =~= "Supported: sec-agree"@ + "\r\n"@ + "Max-Forwards: 70"@ + "\r\n"@ + "Content-Length: 0"@ + "\r\n"@ + "\r\n"@) by {
        reveal_strlit("Supported: sec-agree\r\nMax-Forwards: 70\r\nContent-Length: 0\r\n\r\n");
        reveal_strlit("Supported: sec-agree");
        reveal_strlit("\r\n");
        reveal_strlit("Max-Forwards: 70");
        reveal_strlit("Content-Length: 0");
    }
}

#[verifier::spinoff_prover]
#[verifier::rlimit(60)]
proof fn lemma_tail_lines(front: Seq<char>)
    ensures
        front + tail_text() == front + line("Supported: sec-agree"@) + line("Max-Forwards: 70"@)
            + line("Content-Length: 0"@) + "\r\n"@,
{
    broadcast use lemma_concat_is_associative;

    lemma_literals_of_the_requests();
}

/// The first request of a registration, line by line. It names the local
/// address and the time, and offers no more than to agree on security.
pub proof fn law_lines_of_the_first_request(ue_ip: Seq<char>, now: u64)
    ensures
        ({
            let domain = "ims.mnc001.mcc460.3gppnetwork.org"@;
            let t = decimal(now as nat);
            initial_text(ue_ip, now) == line("REGISTER sip:"@ + domain + " SIP/2.0"@) + line(
                "Via: SIP/2.0/TCP ["@ + ue_ip + "]:5063;branch=z9hG4bK"@ + t,
            ) + line("From: <sip:ue@"@ + domain + ">;tag=ue"@ + t) + line(
                "To: <sip:ue@"@ + domain + ">"@,
            ) + line("Call-ID: ims-"@ + t + "@"@ + ue_ip) + line("CSeq: 1 REGISTER"@) + line(
                "Contact: <sip:ue@"@ + ue_ip + ":5063;transport=tcp>;ob"@,
            ) + line("Supported: sec-agree"@) + line("Max-Forwards: 70"@) + line(
                "Content-Length: 0"@,
            ) + "\r\n"@
        }),
{
    lemma_head_lines(ue_ip, now, "1"@);
    lemma_literals_of_the_requests();
    lemma_tail_lines(head_text(ue_ip, now, "1"@));
}

proof fn lemma_literals_of_the_second_request()
    ensures
        "\",qop=auth,cnonce=\"0123456789abcdef\",nc=00000001\r\nSecurity-Client: ipsec-3gpp; prot=esp; mod=trans; spi-c="@ == "\",qop=auth,cnonce=\"0123456789abcdef\",nc=00000001"@ + "\r\n"@ + "Security-Client: ipsec-3gpp; prot=esp; mod=trans; spi-c="@,
        "; port-s=5063; alg=hmac-md5-96; ealg=null\r\nSecurity-Verify: "@ == "; port-s=5063; alg=hmac-md5-96; ealg=null"@ + "\r\n"@ + "Security-Verify: "@,
{
    assert("\",qop=auth,cnonce=\"0123456789abcdef\",nc=00000001\r\nSecurity-Client: ipsec-3gpp; prot=esp; mod=trans; spi-c="@ =~= "\",qop=auth,cnonce=\"0123456789abcdef\",nc=00000001"@ + "\r\n"@ + "Security-Client: ipsec-3gpp; prot=esp; mod=trans; spi-c="@) by {
        reveal_strlit("\",qop=auth,cnonce=\"0123456789abcdef\",nc=00000001\r\nSecurity-Client: ipsec-3gpp; prot=esp; mod=trans; spi-c=");
        reveal_strlit("\",qop=auth,cnonce=\"0123456789abcdef\",nc=00000001");
        reveal_strlit("\r\n");
        reveal_strlit("Security-Client: ipsec-3gpp; prot=esp; mod=trans; spi-c=");
    }
    assert("; port-s=5063; alg=hmac-md5-96; ealg=null\r\nSecurity-Verify: "@ =~= "; port-s=5063; alg=hmac-md5-96; ealg=null"@ + "\r\n"@ + "Security-Verify: "@) by {
        reveal_strlit("; port-s=5063; alg=hmac-md5-96; ealg=null\r\nSecurity-Verify: ");
        reveal_strlit("; port-s=5063; alg=hmac-md5-96; ealg=null");
        reveal_strlit("\r\n");
        reveal_strlit("Security-Verify: ");
    }
}

#[verifier::spinoff_prover]
#[verifier::rlimit(60)]
proof fn lemma_answer_lines(front: Seq<char>, pcscf: Seq<char>, a: AnswerView)
    ensures
        front + "Authorization: Digest realm=\""@ + home() + "\",username=\"ue\",nonce=\""@ + a.nonce
            + "\",uri=\"sip:"@ + pcscf + "\",algorithm=AKAv1-MD5,response=\""@ + a.response
            + "\",qop=auth,cnonce=\"0123456789abcdef\",nc=00000001\r\nSecurity-Client: ipsec-3gpp; prot=esp; mod=trans; spi-c="@
            + decimal(a.spi_c as nat) + "; spi-s="@ + decimal(a.spi_s as nat) + "; port-c="@
            + decimal(a.port_c as nat)
            + "; port-s=5063; alg=hmac-md5-96; ealg=null\r\nSecurity-Verify: "@ + a.security
            + "\r\n"@ == front + line(
            "Authorization: Digest realm=\""@ + home() + "\",username=\"ue\",nonce=\""@ + a.nonce
                + "\",uri=\"sip:"@ + pcscf + "\",algorithm=AKAv1-MD5,response=\""@ + a.response
                + "\",qop=auth,cnonce=\"0123456789abcdef\",nc=00000001"@,
        ) + line(
            "Security-Client: ipsec-3gpp; prot=esp; mod=trans; spi-c="@ + decimal(a.spi_c as nat)
                + "; spi-s="@ + decimal(a.spi_s as nat) + "; port-c="@ + decimal(a.port_c as nat)
                + "; port-s=5063; alg=hmac-md5-96; ealg=null"@,
        ) + line("Security-Verify: "@ + a.security),
{
    broadcast use lemma_concat_is_associative;

    lemma_literals_of_the_second_request();
}

/// The second request of a registration, line by line. It names the nonce, the
/// response, the P-CSCF, both indexes and the port that requests leave by, and
/// repeats what the server offered.
pub proof fn law_lines_of_the_second_request(
    ue_ip: Seq<char>,
    pcscf: Seq<char>,
    now: u64,
    a: AnswerView,
)
    ensures
        ({
            let domain = "ims.mnc001.mcc460.3gppnetwork.org"@;
            let t = decimal(now as nat);
            protected_text(ue_ip, pcscf, now, a) == line("REGISTER sip:"@ + domain + " SIP/2.0"@)
                + line("Via: SIP/2.0/TCP ["@ + ue_ip + "]:5063;branch=z9hG4bK"@ + t) + line(
                "From: <sip:ue@"@ + domain + ">;tag=ue"@ + t,
            ) + line("To: <sip:ue@"@ + domain + ">"@) + line("Call-ID: ims-"@ + t + "@"@ + ue_ip)
                + line("CSeq: 2 REGISTER"@) + line(
                "Contact: <sip:ue@"@ + ue_ip + ":5063;transport=tcp>;ob"@,
            ) + line(
                "Authorization: Digest realm=\""@ + domain + "\",username=\"ue\",nonce=\""@ + a.nonce
                    + "\",uri=\"sip:"@ + pcscf + "\",algorithm=AKAv1-MD5,response=\""@ + a.response
                    + "\",qop=auth,cnonce=\"0123456789abcdef\",nc=00000001"@,
            ) + line(
                "Security-Client: ipsec-3gpp; prot=esp; mod=trans; spi-c="@ + decimal(a.spi_c as nat)
                    + "; spi-s="@ + decimal(a.spi_s as nat) + "; port-c="@ + decimal(
                    a.port_c as nat,
                ) + "; port-s=5063; alg=hmac-md5-96; ealg=null"@,
            ) + line("Security-Verify: "@ + a.security) + line("Supported: sec-agree"@) + line(
                "Max-Forwards: 70"@,
            ) + line("Content-Length: 0"@) + "\r\n"@
        }),
{
    let front = head_text(ue_ip, now, "2"@);
    lemma_head_lines(ue_ip, now, "2"@);
    lemma_literals_of_the_requests();
    lemma_answer_lines(front, pcscf, a);
    lemma_tail_lines(
        front + line(
            "Authorization: Digest realm=\""@ + home() + "\",username=\"ue\",nonce=\""@ + a.nonce
                + "\",uri=\"sip:"@ + pcscf + "\",algorithm=AKAv1-MD5,response=\""@ + a.response
                + "\",qop=auth,cnonce=\"0123456789abcdef\",nc=00000001"@,
        ) + line(
            "Security-Client: ipsec-3gpp; prot=esp; mod=trans; spi-c="@ + decimal(a.spi_c as nat)
                + "; spi-s="@ + decimal(a.spi_s as nat) + "; port-c="@ + decimal(a.port_c as nat)
                + "; port-s=5063; alg=hmac-md5-96; ealg=null"@,
        ) + line("Security-Verify: "@ + a.security),
    );
}

proof fn lemma_literals_of_the_plain_request()
    ensures
        " SIP/2.0\r\nVia: SIP/2.0/UDP "@ == " SIP/2.0"@ + "\r\n"@ + "Via: SIP/2.0/UDP "@,
        "\r\nMax-Forwards: 70\r\nTo: <sip:"@ == "\r\n"@ + "Max-Forwards: 70"@ + "\r\n"@ + "To: <sip:"@,
        ">\r\nFrom: <sip:"@ == ">"@ + "\r\n"@ + "From: <sip:"@,
        "\r\nCall-ID: ims-"@ == "\r\n"@ + "Call-ID: ims-"@,
        "\r\nCSeq: 1 REGISTER\r\nContact: <sip:"@ == "\r\n"@ + "CSeq: 1 REGISTER"@ + "\r\n"@ + "Contact: <sip:"@,
        ":5063;transport=udp>\r\nSupported: sec-agree\r\nSecurity-Client: ipsec-3gpp;alg=hmac-sha-1-96;ealg=aes-cbc;prot=esp;mod=trans;spi-c="@ == ":5063;transport=udp>"@ + "\r\n"@ + "Supported: sec-agree"@ + "\r\n"@ + "Security-Client: ipsec-3gpp;alg=hmac-sha-1-96;ealg=aes-cbc;prot=esp;mod=trans;spi-c="@,
        "\r\nContent-Length: 0\r\n\r\n"@ == "\r\n"@ + "Content-Length: 0"@ + "\r\n"@ + "\r\n"@,
{
    assert(" SIP/2.0\r\nVia: SIP/2.0/UDP "@ =~= " SIP/2.0"@ + "\r\n"@ + "Via: SIP/2.0/UDP "@) by {
        reveal_strlit(" SIP/2.0\r\nVia: SIP/2.0/UDP ");
        reveal_strlit(" SIP/2.0");
        reveal_strlit("\r\n");
        reveal_strlit("Via: SIP/2.0/UDP ");
    }
    assert("\r\nMax-Forwards: 70\r\nTo: <sip:"@ =~= "\r\n"@ + "Max-Forwards: 70"@ + "\r\n"@ + "To: <sip:"@) by {
        reveal_strlit("\r\nMax-Forwards: 70\r\nTo: <sip:");
        reveal_strlit("\r\n");
        reveal_strlit("Max-Forwards: 70");
        reveal_strlit("To: <sip:");
    }
    assert(">\r\nFrom: <sip:"@ =~= ">"@ + "\r\n"@ + "From: <sip:"@) by {
        reveal_strlit(">\r\nFrom: <sip:");
        reveal_strlit(">");
        reveal_strlit("\r\n");
        reveal_strlit("From: <sip:");
    }
    assert("\r\nCall-ID: ims-"@ =~= "\r\n"@ + "Call-ID: ims-"@) by {
        reveal_strlit("\r\nCall-ID: ims-");
        reveal_strlit("\r\n");
        reveal_strlit("Call-ID: ims-");
    }
    assert("\r\nCSeq: 1 REGISTER\r\nContact: <sip:"@ =~= "\r\n"@ + "CSeq: 1 REGISTER"@ + "\r\n"@ + "Contact: <sip:"@) by {
        reveal_strlit("\r\nCSeq: 1 REGISTER\r\nContact: <sip:");
        reveal_strlit("\r\n");
        reveal_strlit("CSeq: 1 REGISTER");
        reveal_strlit("Contact: <sip:");
    }
    assert(":5063;transport=udp>\r\nSupported: sec-agree\r\nSecurity-Client: ipsec-3gpp;alg=hmac-sha-1-96;ealg=aes-cbc;prot=esp;mod=trans;spi-c="@ =~= ":5063;transport=udp>"@ + "\r\n"@ + "Supported: sec-agree"@ + "\r\n"@ + "Security-Client: ipsec-3gpp;alg=hmac-sha-1-96;ealg=aes-cbc;prot=esp;mod=trans;spi-c="@) by {
        reveal_strlit(":5063;transport=udp>\r\nSupported: sec-agree\r\nSecurity-Client: ipsec-3gpp;alg=hmac-sha-1-96;ealg=aes-cbc;prot=esp;mod=trans;spi-c=");
        reveal_strlit(":5063;transport=udp>");
        reveal_strlit("\r\n");
        reveal_strlit("Supported: sec-agree");
        reveal_strlit("Security-Client: ipsec-3gpp;alg=hmac-sha-1-96;ealg=aes-cbc;prot=esp;mod=trans;spi-c=");
    }
    assert("\r\nContent-Length: 0\r\n\r\n"@ =~= "\r\n"@ + "Content-Length: 0"@ + "\r\n"@ + "\r\n"@) by {
        reveal_strlit("\r\nContent-Length: 0\r\n\r\n");
        reveal_strlit("\r\n");
        reveal_strlit("Content-Length: 0");
    }
}

#[verifier::spinoff_prover]
#[verifier::rlimit(60)]
proof fn lemma_plain_front_lines(user: Seq<char>, realm: Seq<char>, ue_ip: Seq<char>, t: Seq<char>)
    ensures
        "REGISTER sip:"@ + realm + " SIP/2.0\r\nVia: SIP/2.0/UDP "@ + ue_ip
            + ":5063;branch=z9hG4bK"@ + t + "\r\nMax-Forwards: 70\r\nTo: <sip:"@ + user + "@"@
            + realm + ">\r\nFrom: <sip:"@ + user + "@"@ + realm + ">;tag=ue"@ + t
            + "\r\nCall-ID: ims-"@ == line("REGISTER sip:"@ + realm + " SIP/2.0"@) + line(
            "Via: SIP/2.0/UDP "@ + ue_ip + ":5063;branch=z9hG4bK"@ + t,
        ) + line("Max-Forwards: 70"@) + line("To: <sip:"@ + user + "@"@ + realm + ">"@) + line(
            "From: <sip:"@ + user + "@"@ + realm + ">;tag=ue"@ + t,
        ) + "Call-ID: ims-"@,
{
    broadcast use lemma_concat_is_associative;

    lemma_literals_of_the_plain_request();
}

#[verifier::spinoff_prover]
#[verifier::rlimit(60)]
proof fn lemma_plain_back_lines(
    front: Seq<char>,
    user: Seq<char>,
    ue_ip: Seq<char>,
    t: Seq<char>,
    c: Seq<char>,
    s: Seq<char>,
    port: Seq<char>,
)
    ensures
        front + "Call-ID: ims-"@ + t + "@"@ + ue_ip + "\r\nCSeq: 1 REGISTER\r\nContact: <sip:"@
            + user + "@"@ + ue_ip
            + ":5063;transport=udp>\r\nSupported: sec-agree\r\nSecurity-Client: ipsec-3gpp;alg=hmac-sha-1-96;ealg=aes-cbc;prot=esp;mod=trans;spi-c="@
            + c + ";spi-s="@ + s + ";port-c="@ + port + ";port-s=5063"@
            + "\r\nContent-Length: 0\r\n\r\n"@ == front + line("Call-ID: ims-"@ + t + "@"@ + ue_ip)
            + line("CSeq: 1 REGISTER"@) + line(
            "Contact: <sip:"@ + user + "@"@ + ue_ip + ":5063;transport=udp>"@,
        ) + line("Supported: sec-agree"@) + line(
            "Security-Client: ipsec-3gpp;alg=hmac-sha-1-96;ealg=aes-cbc;prot=esp;mod=trans;spi-c="@ + c
                + ";spi-s="@ + s + ";port-c="@ + port + ";port-s=5063"@,
        ) + line("Content-Length: 0"@) + "\r\n"@,
{
    broadcast use lemma_concat_is_associative;

    lemma_literals_of_the_plain_request();
}

/// The request that offers security associations, line by line.
pub proof fn law_lines_of_the_plain_request(
    user: Seq<char>,
    realm: Seq<char>,
    ue_ip: Seq<char>,
    ue_send: u16,
    spi_c: u32,
    spi_s: u32,
    tag: u64,
)
    ensures
        ({
            let t = decimal(tag as nat);
            plain_text(user, realm, ue_ip, ue_send, spi_c, spi_s, tag) == line(
                "REGISTER sip:"@ + realm + " SIP/2.0"@,
            ) + line("Via: SIP/2.0/UDP "@ + ue_ip + ":5063;branch=z9hG4bK"@ + t) + line(
                "Max-Forwards: 70"@,
            ) + line("To: <sip:"@ + user + "@"@ + realm + ">"@) + line(
                "From: <sip:"@ + user + "@"@ + realm + ">;tag=ue"@ + t,
            ) + line("Call-ID: ims-"@ + t + "@"@ + ue_ip) + line("CSeq: 1 REGISTER"@) + line(
                "Contact: <sip:"@ + user + "@"@ + ue_ip + ":5063;transport=udp>"@,
            ) + line("Supported: sec-agree"@) + line(
                "Security-Client: ipsec-3gpp;alg=hmac-sha-1-96;ealg=aes-cbc;prot=esp;mod=trans;spi-c="@
                    + decimal(spi_c as nat) + ";spi-s="@ + decimal(spi_s as nat) + ";port-c="@
                    + decimal(ue_send as nat) + ";port-s=5063"@,
            ) + line("Content-Length: 0"@) + "\r\n"@
        }),
{
    let t = decimal(tag as nat);
    lemma_plain_front_lines(user, realm, ue_ip, t);
    lemma_plain_back_lines(
        line("REGISTER sip:"@ + realm + " SIP/2.0"@) + line(
            "Via: SIP/2.0/UDP "@ + ue_ip + ":5063;branch=z9hG4bK"@ + t,
        ) + line("Max-Forwards: 70"@) + line("To: <sip:"@ + user + "@"@ + realm + ">"@) + line(
            "From: <sip:"@ + user + "@"@ + realm + ">;tag=ue"@ + t,
        ),
        user,
        ue_ip,
        t,
        decimal(spi_c as nat),
        decimal(spi_s as nat),
        decimal(ue_send as nat),
    );
}

/// The tag of a request is what the clock's reading leaves over whole seconds:
/// its microseconds.
pub proof fn law_tag_is_the_microseconds(seconds: nat, micros: nat, now: u64)
    requires
        micros < 1_000_000,
        now == seconds * 1_000_000 + micros,
    ensures
        clock_tag(now) == micros,
{
}

/// A clock before the epoch reads zero; another reads its microseconds, which
/// begin again at zero every 2^64.
pub proof fn law_readings_begin_again(rounds: nat, rest: u64, micros: u128)
    requires
        micros == rounds * 0x1_0000_0000_0000_0000 + rest,
    ensures
        reading(Some(micros)) == rest,
        reading(None) == 0,
{
}

} // verus!
