//! Byte encodings: UTF-8, hexadecimal and Base64.
use vstd::prelude::*;
use vstd::utf8::{
    decode_first_scalar, decode_utf8, encode_utf8, pop_first_scalar, valid_first_scalar, valid_utf8,
};
use base64::Engine;
use crate::number::{decimal, hex_digit, lower_hex, to_decimal};
use crate::text::begins;

verus! {

// ---------------------------------------------------------------- UTF-8

/// The characters before the first malformed sequence.
pub open spec fn well_formed(bytes: Seq<u8>) -> Seq<char>
    decreases bytes.len(),
{
    if bytes.len() > 0 && valid_first_scalar(bytes) {
        seq![decode_first_scalar(bytes) as char] + well_formed(pop_first_scalar(bytes))
    } else {
        seq![]
    }
}

/// What `String::from_utf8_lossy` makes of bytes that are not UTF-8, from
/// their first malformed sequence on.
pub uninterp spec fn utf8_repaired(bytes: Seq<u8>) -> Seq<char>;

/// The text behind bytes: decoded where they are UTF-8; otherwise decoded up
/// to the first malformed sequence, and repaired from there on.
pub open spec fn utf8_text(bytes: Seq<u8>) -> Seq<char> {
    if valid_utf8(bytes) {
        decode_utf8(bytes)
    } else {
        well_formed(bytes) + utf8_repaired(bytes)
    }
}

/// Calls `String::from_utf8_lossy`. Bytes that are UTF-8 are decoded as they
/// are. Of others, what stands before the first malformed sequence is decoded
/// as it is; what is given from there on has a name only.
#[verifier::external_body]
fn from_utf8_lossy(bytes: &[u8]) -> (r: String)
    ensures
        valid_utf8(bytes@) ==> r@ == decode_utf8(bytes@),
        !valid_utf8(bytes@) ==> r@ == well_formed(bytes@) + utf8_repaired(bytes@),
{
    String::from_utf8_lossy(bytes).into_owned()
}

/// Reads bytes as text.
pub fn text_of(bytes: &[u8]) -> (r: String)
    ensures
        r@ == utf8_text(bytes@),
{
    from_utf8_lossy(bytes)
}

proof fn lemma_well_formed(a: Seq<u8>, x: Seq<u8>)
    requires
        valid_utf8(a),
    ensures
        well_formed(a + x) == decode_utf8(a) + well_formed(x),
    decreases a.len(),
{
    if a.len() == 0 {
        assert(a + x =~= x);
        assert(decode_utf8(a) + well_formed(x) =~= well_formed(x));
    } else {
        assert(valid_first_scalar(a + x));
        assert(decode_first_scalar(a + x) == decode_first_scalar(a));
        assert(pop_first_scalar(a + x) =~= pop_first_scalar(a) + x);
        lemma_well_formed(pop_first_scalar(a), x);
        assert(well_formed(a + x) =~= decode_utf8(a) + well_formed(x));
    }
}

/// Text that was written as UTF-8 is what is read first, whatever bytes follow.
pub proof fn law_text_is_read_first(s: Seq<char>, x: Seq<u8>)
    ensures
        begins(utf8_text(encode_utf8(s) + x), s),
{
    let a = encode_utf8(s);
    vstd::utf8::encode_utf8_valid_utf8(s);
    vstd::utf8::encode_utf8_decode_utf8(s);
    lemma_well_formed(a, x);
    if valid_utf8(a + x) {
        lemma_well_formed(a + x, seq![]);
        assert(a + x + Seq::<u8>::empty() =~= a + x);
        assert(well_formed(a + x) =~= decode_utf8(a + x));
    }
    let t = utf8_text(a + x);
    assert(t.take(s.len() as int) =~= s);
}

/// Text that was written as UTF-8 is read back.
pub proof fn law_text_is_read_back(s: Seq<char>)
    ensures
        utf8_text(encode_utf8(s)) == s,
{
    vstd::utf8::encode_utf8_valid_utf8(s);
    vstd::utf8::encode_utf8_decode_utf8(s);
}

// ---------------------------------------------------------------- hexadecimal

/// Why hexadecimal text could not be decoded.
#[derive(Debug, Clone, Copy, PartialEq, Eq, Structural)]
pub enum HexError {
    /// A byte that is no hexadecimal digit, and where it stands.
    InvalidHexCharacter { c: char, index: usize },
    /// The text has an odd number of bytes.
    OddLength,
    /// The text does not fill a buffer of a fixed size.
    InvalidStringLength,
}

/// The value of a hexadecimal digit of either case.
pub open spec fn hex_value(b: u8) -> Option<u8> {
    if 0x30 <= b <= 0x39 {
        Some((b - 0x30) as u8)
    } else if 0x41 <= b <= 0x46 {
        Some((b - 0x37) as u8)
    } else if 0x61 <= b <= 0x66 {
        Some((b - 0x57) as u8)
    } else {
        None
    }
}

/// How many bytes at the start of `s` are hexadecimal digits, without a gap.
pub open spec fn hex_digits(s: Seq<u8>) -> nat
    decreases s.len(),
{
    if s.len() > 0 && hex_value(s[0]) is Some {
        1 + hex_digits(s.skip(1))
    } else {
        0
    }
}

/// The bytes that hexadecimal text stands for. An odd length is reported
/// first, then the first byte that is no digit.
pub open spec fn hex_decoded(s: Seq<u8>) -> Result<Seq<u8>, HexError> {
    let n = hex_digits(s);
    if s.len() % 2 != 0 {
        Err(HexError::OddLength)
    } else if n < s.len() {
        Err(HexError::InvalidHexCharacter { c: s[n as int] as char, index: n as usize })
    } else {
        Ok(
            Seq::new(
                s.len() / 2,
                |i: int| (hex_value(s[2 * i])->0 * 16 + hex_value(s[2 * i + 1])->0) as u8,
            ),
        )
    }
}

/// Calls `hex::decode`. An odd length is refused; otherwise the first byte
/// that is no hexadecimal digit is reported with its place; otherwise each
/// pair of digits, of either case, gives one byte.
#[verifier::external_body]
pub(crate) fn hex_decode(s: &[u8]) -> (r: Result<Vec<u8>, HexError>)
    ensures
        match r {
            Ok(v) => hex_decoded(s@) == Ok::<Seq<u8>, HexError>(v@),
            Err(e) => hex_decoded(s@) == Err::<Seq<u8>, HexError>(e),
        },
{
    match hex::decode(s) {
        Ok(v) => Ok(v),
        Err(hex::FromHexError::InvalidHexCharacter { c, index }) => Err(
            HexError::InvalidHexCharacter { c, index },
        ),
        Err(hex::FromHexError::OddLength) => Err(HexError::OddLength),
        Err(hex::FromHexError::InvalidStringLength) => Err(HexError::InvalidStringLength),
    }
}

/// What the message of `hex::FromHexError` says of a byte that is no digit.
pub uninterp spec fn bad_digit_text(c: char, index: int) -> Seq<char>;

/// `c` is shown as it is between single quotes.
pub open spec fn is_plain(c: char) -> bool {
    0x20 <= c as u32 <= 0x7e && c != '\'' && c != '\\'
}

impl HexError {
    /// The error's message.
    pub open spec fn text(self) -> Seq<char> {
        match self {
            HexError::InvalidHexCharacter { c, index } => if is_plain(c) {
                "Invalid character '"@ + seq![c] + "' at position "@ + decimal(index as nat)
            } else {
                bad_digit_text(c, index as int)
            },
            HexError::OddLength => "Odd number of digits"@,
            HexError::InvalidStringLength => "Invalid string length"@,
        }
    }

    /// Gives the error's message.
    pub fn message(&self) -> (r: String)
        ensures
            r@ == self.text(),
    {
        hex_error_text(self)
    }
}

/// Calls `to_string` of `hex::FromHexError`. A printable ASCII character that
/// needs no escape is shown between single quotes; what is shown of any other
/// character has a name only.
#[verifier::external_body]
fn hex_error_text(e: &HexError) -> (r: String)
    ensures
        match *e {
            HexError::InvalidHexCharacter { c, index } => if is_plain(c) {
                r@ == "Invalid character '"@ + seq![c] + "' at position "@ + decimal(index as nat)
            } else {
                r@ == bad_digit_text(c, index as int)
            },
            HexError::OddLength => r@ == "Odd number of digits"@,
            HexError::InvalidStringLength => r@ == "Invalid string length"@,
        },
{
    match *e {
        HexError::InvalidHexCharacter { c, index } => hex::FromHexError::InvalidHexCharacter {
            c,
            index,
        },
        HexError::OddLength => hex::FromHexError::OddLength,
        HexError::InvalidStringLength => hex::FromHexError::InvalidStringLength,
    }.to_string()
}

proof fn lemma_hex_digits_all(s: Seq<u8>)
    requires
        forall|i: int| 0 <= i < s.len() ==> hex_value(#[trigger] s[i]) is Some,
    ensures
        hex_digits(s) == s.len(),
    decreases s.len(),
{
    if s.len() > 0 {
        assert forall|i: int| 0 <= i < s.skip(1).len() implies hex_value(
            #[trigger] s.skip(1)[i],
        ) is Some by {
            assert(s.skip(1)[i] == s[i + 1]);
        }
        assert(hex_value(s[0]) is Some);
        lemma_hex_digits_all(s.skip(1));
    }
}

/// Bytes that were written in lower case hexadecimal are read back.
pub proof fn law_hex_is_read_back(b: Seq<u8>)
    ensures
        hex_decoded(encode_utf8(lower_hex(b))) == Ok::<Seq<u8>, HexError>(b),
{
    let t = lower_hex(b);
    assert forall|i: int| 0 <= i < t.len() implies (#[trigger] t[i] as u32) < 128 by {
    }
    vstd::utf8::is_ascii_chars_encode_utf8(t);
    let s = encode_utf8(t);
    assert forall|i: int| 0 <= i < s.len() implies hex_value(#[trigger] s[i]) is Some by {
        assert(s[i] == t[i] as u8);
    }
    lemma_hex_digits_all(s);
    assert forall|i: int| 0 <= i < b.len() implies hex_value(s[2 * i])->0 * 16 + hex_value(
        s[2 * i + 1],
    )->0 == #[trigger] b[i] by {
        assert(s[2 * i] == t[2 * i] as u8);
        assert(s[2 * i + 1] == t[2 * i + 1] as u8);
        assert(t[2 * i] == hex_digit(b[i] as nat / 16));
        assert(t[2 * i + 1] == hex_digit(b[i] as nat % 16));
    }
    assert(hex_decoded(s)->Ok_0 =~= b);
}

// ---------------------------------------------------------------- Base64

/// Why Base64 text could not be decoded.
#[derive(Debug, Clone, Copy, PartialEq, Eq, Structural)]
pub enum Base64Error {
    /// A byte outside the alphabet, and where it stands.
    InvalidByte { index: usize, byte: u8 },
    /// The number of symbols is invalid.
    InvalidLength { len: usize },
    /// The last symbol holds bits that stand for nothing.
    InvalidLastSymbol { index: usize, byte: u8 },
    /// The padding is missing or wrong.
    InvalidPadding,
}

impl Base64Error {
    /// The error's message.
    pub open spec fn text(self) -> Seq<char> {
        match self {
            Base64Error::InvalidByte { index, byte } => "Invalid symbol "@ + decimal(byte as nat)
                + ", offset "@ + decimal(index as nat) + "."@,
            Base64Error::InvalidLength { len } => "Invalid input length: "@ + decimal(len as nat),
            Base64Error::InvalidLastSymbol { index, byte } => "Invalid last symbol "@ + decimal(
                byte as nat,
            ) + ", offset "@ + decimal(index as nat) + "."@,
            Base64Error::InvalidPadding => "Invalid padding"@,
        }
    }

    /// Gives the error's message.
    pub fn message(&self) -> (r: String)
        ensures
            r@ == self.text(),
    {
        match *self {
            Base64Error::InvalidByte { index, byte } => {
                let mut r: String = "Invalid symbol ".to_owned();
                r.append(&to_decimal(byte as u64));
                r.append(", offset ");
                r.append(&to_decimal(index as u64));
                r.append(".");
                r
            },
            Base64Error::InvalidLength { len } => {
                let mut r: String = "Invalid input length: ".to_owned();
                r.append(&to_decimal(len as u64));
                r
            },
            Base64Error::InvalidLastSymbol { index, byte } => {
                let mut r: String = "Invalid last symbol ".to_owned();
                r.append(&to_decimal(byte as u64));
                r.append(", offset ");
                r.append(&to_decimal(index as u64));
                r.append(".");
                r
            },
            Base64Error::InvalidPadding => "Invalid padding".to_owned(),
        }
    }
}

/// The symbol for a value below sixty-four in the standard alphabet.
pub open spec fn base64_symbol(n: int) -> u8 {
    if n < 26 {
        (0x41 + n) as u8
    } else if n < 52 {
        (0x47 + n) as u8
    } else if n < 62 {
        (n - 4) as u8
    } else if n == 62 {
        0x2b
    } else {
        0x2f
    }
}

/// The byte at `i`, or zero after the end.
pub open spec fn byte_or_zero(v: Seq<u8>, i: int) -> int {
    if i < v.len() {
        v[i] as int
    } else {
        0
    }
}

/// `v` in Base64 with the standard alphabet: three bytes make four symbols,
/// and `=` stands for each symbol that no byte reaches.
pub open spec fn base64_text(v: Seq<u8>) -> Seq<u8>
    decreases v.len(),
{
    if v.len() == 0 {
        seq![]
    } else {
        let n = byte_or_zero(v, 0) * 0x10000 + byte_or_zero(v, 1) * 0x100 + byte_or_zero(v, 2);
        let quad = seq![
            base64_symbol(n / 0x40000),
            base64_symbol(n / 0x1000 % 0x40),
            if v.len() > 1 {
                base64_symbol(n / 0x40 % 0x40)
            } else {
                0x3d
            },
            if v.len() > 2 {
                base64_symbol(n % 0x40)
            } else {
                0x3d
            },
        ];
        if v.len() <= 3 {
            quad
        } else {
            quad + base64_text(v.skip(3))
        }
    }
}

/// What `base64` reports of text that is no Base64.
pub uninterp spec fn base64_failure(s: Seq<u8>) -> Base64Error;

/// The bytes that Base64 text stands for.
pub open spec fn base64_decoded(s: Seq<u8>) -> Result<Seq<u8>, Base64Error> {
    if exists|v: Seq<u8>| s == #[trigger] base64_text(v) {
        Ok(choose|v: Seq<u8>| s == #[trigger] base64_text(v))
    } else {
        Err(base64_failure(s))
    }
}

/// Calls `decode` of the engine `base64::engine::general_purpose::STANDARD`.
/// It gives back the bytes whose padded encoding the text is, and refuses any
/// other text; which error that is has a name only.
#[verifier::external_body]
fn base64_decode(s: &[u8]) -> (r: Result<Vec<u8>, Base64Error>)
    ensures
        match r {
            Ok(v) => s@ == base64_text(v@),
            Err(e) => e == base64_failure(s@) && forall|v: Seq<u8>|
                s@ != #[trigger] base64_text(v),
        },
{
    match base64::engine::general_purpose::STANDARD.decode(s) {
        Ok(v) => Ok(v),
        Err(base64::DecodeError::InvalidByte(index, byte)) => Err(
            Base64Error::InvalidByte { index, byte },
        ),
        Err(base64::DecodeError::InvalidLength(len)) => Err(Base64Error::InvalidLength { len }),
        Err(base64::DecodeError::InvalidLastSymbol(index, byte)) => Err(
            Base64Error::InvalidLastSymbol { index, byte },
        ),
        Err(base64::DecodeError::InvalidPadding) => Err(Base64Error::InvalidPadding),
    }
}

/// Decodes Base64 text.
pub fn from_base64(s: &[u8]) -> (r: Result<Vec<u8>, Base64Error>)
    ensures
        match r {
            Ok(v) => base64_decoded(s@) == Ok::<Seq<u8>, Base64Error>(v@),
            Err(e) => base64_decoded(s@) == Err::<Seq<u8>, Base64Error>(e),
        },
{
    let r: Result<Vec<u8>, Base64Error> = base64_decode(s);
    proof {
        if r is Ok {
            law_base64_is_read_back(r->Ok_0@);
        }
    }
    r
}

proof fn lemma_base64_symbol(m: int, n: int)
    requires
        0 <= m < 64,
        0 <= n < 64,
    ensures
        base64_symbol(m) != 0x3d,
        base64_symbol(m) == base64_symbol(n) ==> m == n,
{
}

proof fn lemma_base64_number(m: int, n: int)
    requires
        0 <= m < 0x1000000,
        0 <= n < 0x1000000,
        m / 0x40000 == n / 0x40000,
        m / 0x1000 % 0x40 == n / 0x1000 % 0x40,
        m / 0x40 % 0x40 == n / 0x40 % 0x40,
        m % 0x40 == n % 0x40,
    ensures
        m == n,
{
}

/// The number behind the first four symbols of a Base64 text.
spec fn base64_number(v: Seq<u8>) -> int {
    byte_or_zero(v, 0) * 0x10000 + byte_or_zero(v, 1) * 0x100 + byte_or_zero(v, 2)
}

proof fn lemma_base64_quad(v: Seq<u8>)
    requires
        v.len() > 0,
    ensures
        ({
            let s = base64_text(v);
            let n = base64_number(v);
            &&& s.len() >= 4
            &&& 0 <= n < 0x1000000
            &&& s[0] == base64_symbol(n / 0x40000)
            &&& s[1] == base64_symbol(n / 0x1000 % 0x40)
            &&& v.len() > 1 ==> s[2] == base64_symbol(n / 0x40 % 0x40)
            &&& v.len() <= 1 ==> s[2] == 0x3d && n / 0x40 % 0x40 == 0
            &&& v.len() > 2 ==> s[3] == base64_symbol(n % 0x40)
            &&& v.len() <= 2 ==> s[3] == 0x3d && n % 0x40 == 0
            &&& v.len() > 3 ==> s.skip(4) == base64_text(v.skip(3)) && s.len() > 4
            &&& v.len() <= 3 ==> s.len() == 4
        }),
{
    reveal_with_fuel(base64_text, 2);
    if v.len() > 3 {
        assert(base64_text(v).skip(4) =~= base64_text(v.skip(3)));
    }
}

/// Two byte sequences with the same Base64 text are the same.
pub proof fn law_base64_is_injective(u: Seq<u8>, v: Seq<u8>)
    requires
        base64_text(u) == base64_text(v),
    ensures
        u == v,
    decreases u.len(),
{
    if u.len() == 0 || v.len() == 0 {
        if u.len() > 0 {
            lemma_base64_quad(u);
        }
        if v.len() > 0 {
            lemma_base64_quad(v);
        }
        assert(u =~= v);
    } else {
        let m = base64_number(u);
        let n = base64_number(v);
        lemma_base64_quad(u);
        lemma_base64_quad(v);
        lemma_base64_symbol(m / 0x40000, n / 0x40000);
        lemma_base64_symbol(m / 0x1000 % 0x40, n / 0x1000 % 0x40);
        lemma_base64_symbol(m / 0x40 % 0x40, n / 0x40 % 0x40);
        lemma_base64_symbol(n / 0x40 % 0x40, m / 0x40 % 0x40);
        lemma_base64_symbol(m % 0x40, n % 0x40);
        lemma_base64_symbol(n % 0x40, m % 0x40);
        lemma_base64_number(m, n);
        assert(byte_or_zero(u, 0) == byte_or_zero(v, 0));
        assert(byte_or_zero(u, 1) == byte_or_zero(v, 1));
        assert(byte_or_zero(u, 2) == byte_or_zero(v, 2));
        if u.len() > 3 {
            law_base64_is_injective(u.skip(3), v.skip(3));
            assert(u.skip(3).len() == v.skip(3).len());
            assert forall|i: int| 3 <= i < u.len() implies u[i] == v[i] by {
                assert(u[i] == u.skip(3)[i - 3]);
                assert(v[i] == v.skip(3)[i - 3]);
            }
        }
        assert(u =~= v);
    }
}

/// Bytes that were written in Base64 are read back.
pub proof fn law_base64_is_read_back(v: Seq<u8>)
    ensures
        base64_decoded(base64_text(v)) == Ok::<Seq<u8>, Base64Error>(v),
{
    let s = base64_text(v);
    let w = choose|w: Seq<u8>| s == #[trigger] base64_text(w);
    assert(s == base64_text(v));
    law_base64_is_injective(w, v);
}

/// A hexadecimal digit of either case.
pub open spec fn is_hex_digit(b: u8) -> bool {
    0x30 <= b <= 0x39 || 0x41 <= b <= 0x46 || 0x61 <= b <= 0x66
}

/// A hexadecimal digit in lower case.
pub open spec fn in_lower_case(b: u8) -> u8 {
    if 0x41 <= b <= 0x46 {
        (b + 0x20) as u8
    } else {
        b
    }
}

proof fn lemma_hex_digits(s: Seq<u8>)
    ensures
        hex_digits(s) <= s.len(),
        forall|i: int| 0 <= i < hex_digits(s) ==> is_hex_digit(#[trigger] s[i]),
        hex_digits(s) < s.len() ==> !is_hex_digit(s[hex_digits(s) as int]),
    decreases s.len(),
{
    if s.len() > 0 && hex_value(s[0]) is Some {
        let t = s.skip(1);
        lemma_hex_digits(t);
        assert forall|i: int| 0 <= i < hex_digits(s) implies is_hex_digit(#[trigger] s[i]) by {
            if i > 0 {
                assert(s[i] == t[i - 1]);
            }
        }
        if hex_digits(t) < t.len() {
            assert(t[hex_digits(t) as int] == s[hex_digits(s) as int]);
        }
    }
}

/// Hexadecimal text is read exactly if it has an even number of bytes, all of
/// them digits of either case: writing what was read gives the text back in
/// lower case. An odd number is reported before a byte that is no digit, and of
/// such bytes the first one, with its place.
pub proof fn law_hex_is_read_digit_by_digit(s: Seq<u8>)
    requires
        s.len() <= usize::MAX,
    ensures
        match hex_decoded(s) {
            Ok(b) => {
                &&& s.len() == 2 * b.len()
                &&& forall|i: int| 0 <= i < s.len() ==> is_hex_digit(#[trigger] s[i])
                &&& forall|i: int|
                    0 <= i < s.len() ==> #[trigger] lower_hex(b)[i] == in_lower_case(s[i]) as char
            },
            Err(HexError::OddLength) => s.len() % 2 == 1,
            Err(HexError::InvalidHexCharacter { c, index }) => {
                &&& s.len() % 2 == 0
                &&& index < s.len()
                &&& c == s[index as int] as char
                &&& !is_hex_digit(s[index as int])
                &&& forall|i: int| 0 <= i < index ==> is_hex_digit(#[trigger] s[i])
            },
            Err(HexError::InvalidStringLength) => false,
        },
{
    lemma_hex_digits(s);
    if let Ok(b) = hex_decoded(s) {
        assert forall|i: int| 0 <= i < s.len() implies #[trigger] lower_hex(b)[i] == in_lower_case(
            s[i],
        ) as char by {
            let j = i / 2;
            assert(is_hex_digit(s[2 * j]));
            assert(is_hex_digit(s[2 * j + 1]));
            lemma_hex_pair(s[2 * j], s[2 * j + 1], b[j]);
            assert(i == 2 * j || i == 2 * j + 1);
        }
    }
}

proof fn lemma_hex_pair(high: u8, low: u8, b: u8)
    requires
        is_hex_digit(high),
        is_hex_digit(low),
        b == hex_value(high)->0 * 16 + hex_value(low)->0,
    ensures
        hex_digit(b as nat / 16) == in_lower_case(high) as char,
        hex_digit(b as nat % 16) == in_lower_case(low) as char,
{
    assert(b as nat / 16 == hex_value(high)->0);
    assert(b as nat % 16 == hex_value(low)->0);
}

} // verus!
