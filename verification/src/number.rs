//! Numbers as text and as bytes.
use vstd::prelude::*;
use vstd::slice::slice_subrange;

verus! {

/// The decimal digit for a value below ten.
pub open spec fn digit(d: nat) -> char {
    (0x30 + d) as char
}

/// `n` in decimal, without leading zeros.
pub open spec fn decimal(n: nat) -> Seq<char>
    decreases n,
{
    if n < 10 {
        seq![digit(n)]
    } else {
        decimal(n / 10).push(digit(n % 10))
    }
}

/// Writes `n` in decimal.
pub fn to_decimal(n: u64) -> (r: String)
    ensures
        r@ == decimal(n as nat),
    decreases n,
{
    let mut r: String = if n < 10 { String::new() } else { to_decimal(n / 10) };
    let d: u8 = (n % 10) as u8;
    r.push((0x30 + d) as char);
    assert(r@ =~= decimal(n as nat));
    r
}

/// `c` is a decimal digit.
pub open spec fn is_digit(c: char) -> bool {
    0x30 <= c as u32 <= 0x39
}

/// The number that a sequence of digits stands for.
pub open spec fn digits_value(s: Seq<char>) -> nat
    decreases s.len(),
{
    if s.len() == 0 {
        0
    } else {
        (digits_value(s.drop_last()) * 10 + (s.last() as u32 - 0x30)) as nat
    }
}

/// `s` holds nothing but digits.
pub open spec fn all_digits(s: Seq<char>) -> bool {
    forall|i: int| 0 <= i < s.len() ==> is_digit(#[trigger] s[i])
}

/// `s` without a `+` at its start.
pub open spec fn unsigned(s: Seq<char>) -> Seq<char> {
    if s.len() > 0 && s[0] == '+' {
        s.skip(1)
    } else {
        s
    }
}

/// The port number that `s` stands for: an optional `+`, then digits with a
/// value below 65536.
pub open spec fn port_value(s: Seq<char>) -> Option<u16> {
    let d = unsigned(s);
    if d.len() > 0 && all_digits(d) && digits_value(d) <= u16::MAX {
        Some(digits_value(d) as u16)
    } else {
        None
    }
}

/// More digits make no smaller number.
proof fn lemma_digits_value_grows(s: Seq<char>, i: int)
    requires
        0 <= i <= s.len(),
        all_digits(s),
    ensures
        digits_value(s.take(i)) <= digits_value(s),
    decreases s.len(),
{
    if i < s.len() {
        lemma_digits_value_grows(s.drop_last(), i);
        assert(s.drop_last().take(i) =~= s.take(i));
        assert(is_digit(s[s.len() - 1]));
    } else {
        assert(s.take(i) =~= s);
    }
}

/// Reads a port number.
pub fn parse_port(s: &[char]) -> (r: Option<u16>)
    ensures
        r == port_value(s@),
{
    let start: usize = if s.len() > 0 && s[0] == '+' { 1 } else { 0 };
    let d: &[char] = slice_subrange(s, start, s.len());
    assert(d@ =~= unsigned(s@));
    let len: usize = d.len();
    if len == 0 {
        return None;
    }
    let mut v: u32 = 0;
    let mut i: usize = 0;
    while i < len
        invariant
            i <= len,
            0 < len,
            len == d@.len(),
            d@ == unsigned(s@),
            v <= 0xffff,
            v == digits_value(d@.take(i as int)),
            forall|j: int| 0 <= j < i ==> is_digit(#[trigger] d@[j]),
        decreases len - i,
    {
        let n: u32 = d[i] as u32;
        if n < 0x30 || n > 0x39 {
            assert(!is_digit(d@[i as int]));
            return None;
        }
        v = v * 10 + (n - 0x30);
        assert(d@.take(i + 1).drop_last() =~= d@.take(i as int));
        if v > 0xffff {
            proof {
                if all_digits(d@) {
                    lemma_digits_value_grows(d@, i + 1);
                }
            }
            return None;
        }
        i = i + 1;
    }
    assert(d@.take(len as int) =~= d@);
    Some(v as u16)
}

proof fn lemma_decimal(n: nat)
    ensures
        decimal(n).len() > 0,
        all_digits(decimal(n)),
        digits_value(decimal(n)) == n,
    decreases n,
{
    if n >= 10 {
        lemma_decimal(n / 10);
        assert(decimal(n).drop_last() =~= decimal(n / 10));
    } else {
        assert(decimal(n).drop_last() =~= Seq::<char>::empty());
        assert(digits_value(Seq::<char>::empty()) == 0);
        assert(decimal(n).last() == digit(n));
    }
}

/// A port number that was written in decimal is read back.
pub proof fn law_port_is_read_back(n: u16)
    ensures
        port_value(decimal(n as nat)) == Some(n),
{
    lemma_decimal(n as nat);
    let s = decimal(n as nat);
    assert(is_digit(s[0]));
}

/// Two numbers with the same decimal text are the same number.
pub proof fn law_decimal_is_injective(m: nat, n: nat)
    requires
        decimal(m) == decimal(n),
    ensures
        m == n,
{
    lemma_decimal(m);
    lemma_decimal(n);
}

/// The lower case hexadecimal digit for a value below sixteen.
pub open spec fn hex_digit(d: nat) -> char {
    if d < 10 {
        (0x30 + d) as char
    } else {
        (0x57 + d) as char
    }
}

/// Bytes as lower case hexadecimal text, two digits for each byte.
pub open spec fn lower_hex(b: Seq<u8>) -> Seq<char> {
    Seq::new(
        2 * b.len(),
        |i: int|
            if i % 2 == 0 {
                hex_digit(b[i / 2] as nat / 16)
            } else {
                hex_digit(b[i / 2] as nat % 16)
            },
    )
}

fn push_hex_digit(s: &mut String, d: u8)
    requires
        d < 16,
    ensures
        final(s)@ == old(s)@.push(hex_digit(d as nat)),
{
    if d < 10 {
        s.push((0x30 + d) as char);
    } else {
        s.push((0x57 + d) as char);
    }
}

/// Writes bytes in lower case hexadecimal.
pub fn to_lower_hex(b: &[u8]) -> (r: String)
    ensures
        r@ == lower_hex(b@),
{
    let mut r: String = String::new();
    let len: usize = b.len();
    let mut i: usize = 0;
    while i < len
        invariant
            i <= len,
            len == b@.len(),
            r@ == lower_hex(b@.take(i as int)),
        decreases len - i,
    {
        push_hex_digit(&mut r, b[i] / 16);
        push_hex_digit(&mut r, b[i] % 16);
        i = i + 1;
        assert(r@ =~= lower_hex(b@.take(i as int)));
    }
    assert(b@.take(len as int) =~= b@);
    r
}

/// The four bytes of `x`, most significant first.
pub open spec fn be_bytes(x: u32) -> Seq<u8> {
    seq![
        (x / 0x1000000) as u8,
        (x / 0x10000 % 0x100) as u8,
        (x / 0x100 % 0x100) as u8,
        (x % 0x100) as u8,
    ]
}

/// Puts the four bytes of `x` at the end of `v`, most significant first.
pub fn push_be(v: &mut Vec<u8>, x: u32)
    ensures
        final(v)@ == old(v)@ + be_bytes(x),
{
    v.push((x / 0x1000000) as u8);
    v.push((x / 0x10000 % 0x100) as u8);
    v.push((x / 0x100 % 0x100) as u8);
    v.push((x % 0x100) as u8);
    assert(v@ =~= old(v)@ + be_bytes(x));
}

/// The four bytes tell which number they came from.
pub proof fn law_be_bytes_is_injective(x: u32, y: u32)
    requires
        be_bytes(x) == be_bytes(y),
    ensures
        x == y,
{
    assert(be_bytes(x)[0] == be_bytes(y)[0]);
    assert(be_bytes(x)[1] == be_bytes(y)[1]);
    assert(be_bytes(x)[2] == be_bytes(y)[2]);
    assert(be_bytes(x)[3] == be_bytes(y)[3]);
}

/// Puts bytes at the end of `v`.
pub fn push_bytes(v: &mut Vec<u8>, b: &[u8])
    ensures
        final(v)@ == old(v)@ + b@,
{
    v.extend_from_slice(b);
    assert(v@ =~= old(v)@ + b@);
}

/// Decimal text has one digit for a number below ten; ten times a number and a
/// digit put that digit behind it.
pub proof fn law_decimal_digits(n: nat, d: nat)
    requires
        d < 10,
    ensures
        decimal(d) == seq![(0x30 + d) as char],
        n > 0 ==> decimal(10 * n + d) == decimal(n) + seq![(0x30 + d) as char],
{
    if n > 0 {
        let m = 10 * n + d;
        assert(m / 10 == n && m % 10 == d);
        assert(decimal(m) =~= decimal(n) + seq![(0x30 + d) as char]);
    }
}

proof fn lemma_leading_zeros(z: Seq<char>, s: Seq<char>)
    requires
        forall|i: int| 0 <= i < z.len() ==> #[trigger] z[i] == '0',
    ensures
        digits_value(z + s) == digits_value(s),
    decreases z.len() + s.len(),
{
    if s.len() > 0 {
        assert((z + s).drop_last() =~= z + s.drop_last());
        assert((z + s).last() == s.last());
        lemma_leading_zeros(z, s.drop_last());
    } else if z.len() > 0 {
        assert((z + s).drop_last() =~= z.drop_last() + s);
        assert((z + s).last() == z[z.len() - 1]);
        lemma_leading_zeros(z.drop_last(), s);
    } else {
        assert(z + s =~= s);
    }
}

/// Decimal text is a port number, whatever zeros and whether or not a `+` stand
/// before it, exactly if it is below 65536.
pub proof fn law_decimal_text_is_a_port(plus: bool, z: Seq<char>, n: nat)
    requires
        forall|i: int| 0 <= i < z.len() ==> #[trigger] z[i] == '0',
    ensures
        port_value(
            (if plus {
                seq!['+']
            } else {
                seq![]
            }) + z + decimal(n),
        ) == (if n < 65536 {
            Some(n as u16)
        } else {
            None
        }),
{
    let d = z + decimal(n);
    let s = (if plus {
        seq!['+']
    } else {
        seq![]
    }) + z + decimal(n);
    lemma_decimal(n);
    lemma_leading_zeros(z, decimal(n));
    assert forall|i: int| 0 <= i < d.len() implies is_digit(#[trigger] d[i]) by {
        if i < z.len() {
            assert(d[i] == z[i]);
        } else {
            assert(d[i] == decimal(n)[i - z.len()]);
        }
    }
    assert(is_digit(d[0]));
    if plus {
        assert(s.skip(1) =~= d);
    } else {
        assert(s =~= d);
    }
    assert(unsigned(s) =~= d);
}

proof fn lemma_digit(c: char)
    ensures
        is_digit(c) <==> '0' <= c && c <= '9',
{
}

/// Text that is empty, or a bare `+`, is no port number, and neither is text
/// that holds anything but digits behind an optional `+`.
pub proof fn law_other_text_is_no_port(s: Seq<char>, i: int)
    requires
        0 <= i < s.len(),
        s[i] < '0' || s[i] > '9',
        i > 0 || s[i] != '+',
    ensures
        port_value(s) is None,
        port_value(seq![]) is None,
        port_value(seq!['+']) is None,
{
    let d = unsigned(s);
    lemma_digit(s[i]);
    if s[0] == '+' {
        assert(d[i - 1] == s[i]);
    }
    let plus = seq!['+'];
    assert(unsigned(plus) =~= Seq::<char>::empty());
}

/// The value that a lower case hexadecimal digit has.
pub open spec fn nibble(c: char) -> int {
    if '0' <= c && c <= '9' {
        c as u32 - 0x30
    } else {
        c as u32 - 0x57
    }
}

/// Hexadecimal text has two digits or letters `a` to `f` for each byte, the
/// upper half first.
pub proof fn law_two_digits_for_each_byte(b: Seq<u8>)
    ensures
        lower_hex(b).len() == 2 * b.len(),
        forall|i: int|
            0 <= i < lower_hex(b).len() ==> ({
                let c = #[trigger] lower_hex(b)[i];
                ('0' <= c && c <= '9') || ('a' <= c && c <= 'f')
            }),
        forall|i: int|
            0 <= i < b.len() ==> #[trigger] b[i] == 16 * nibble(lower_hex(b)[2 * i]) + nibble(
                lower_hex(b)[2 * i + 1],
            ),
{
    assert forall|i: int| 0 <= i < b.len() implies #[trigger] b[i] == 16 * nibble(
        lower_hex(b)[2 * i],
    ) + nibble(lower_hex(b)[2 * i + 1]) by {
        assert(lower_hex(b)[2 * i] == hex_digit(b[i] as nat / 16));
        assert(lower_hex(b)[2 * i + 1] == hex_digit(b[i] as nat % 16));
    }
}

/// The four bytes are the number's digits to the base 256, the highest first.
pub proof fn law_bytes_of_a_number(x: u32)
    ensures
        be_bytes(x).len() == 4,
        x == be_bytes(x)[0] * 0x1000000 + be_bytes(x)[1] * 0x10000 + be_bytes(x)[2] * 0x100
            + be_bytes(x)[3],
{
}

} // verus!
