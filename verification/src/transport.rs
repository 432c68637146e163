//! How the bytes of an answer are gathered.
use vstd::prelude::*;
use vstd::utf8::{encode_utf8, is_ascii_chars_encode_utf8};
use crate::number::push_bytes;
use crate::text::{begins, ends};

verus! {

/// What an attempt to read brought.
pub enum Read {
    /// The time is over.
    Expired,
    /// Some bytes.
    Data(Vec<u8>),
    /// Nothing.
    Nothing,
    /// A failure.
    Failed,
}

/// What an attempt to read brought, with bytes as a sequence.
pub enum ReadView {
    Expired,
    Data(Seq<u8>),
    Nothing,
    Failed,
}

impl View for Read {
    type V = ReadView;

    open spec fn view(&self) -> ReadView {
        match self {
            Read::Expired => ReadView::Expired,
            Read::Data(v) => ReadView::Data(v@),
            Read::Nothing => ReadView::Nothing,
            Read::Failed => ReadView::Failed,
        }
    }
}

/// What is done after an attempt to read.
#[derive(Debug, Clone, Copy, PartialEq, Eq, Structural)]
pub enum Then {
    /// Read again.
    Again,
    /// Read again after so many milliseconds.
    Pause(u64),
    /// Take what has been gathered.
    Take,
}

/// The bytes that have been gathered after an attempt to read.
pub open spec fn gathered(got: Seq<u8>, read: ReadView) -> Seq<u8> {
    match read {
        ReadView::Data(d) => got + d,
        _ => got,
    }
}

/// What has been gathered is a whole message, or too long to go on.
pub open spec fn is_full(got: Seq<u8>) -> bool {
    ends(got, encode_utf8("\r\n\r\n"@)) || got.len() >= 8192
}

/// What is done after an attempt to read. Data ends the reading when it
/// completes a message; a failure or the end of the time always does.
pub open spec fn what_then(got: Seq<u8>, read: ReadView) -> Then {
    match read {
        ReadView::Expired | ReadView::Failed => Then::Take,
        ReadView::Data(d) => if is_full(got + d) {
            Then::Take
        } else {
            Then::Again
        },
        ReadView::Nothing => if got.len() >= 8192 {
            Then::Take
        } else {
            Then::Pause(50)
        },
    }
}

fn bytes_end_with(s: &[u8], pat: &[u8]) -> (r: bool)
    ensures
        r == ends(s@, pat@),
{
    let n: usize = pat.len();
    let len: usize = s.len();
    if len < n {
        return false;
    }
    let mut i: usize = 0;
    while i < n
        invariant
            i <= n,
            n == pat@.len(),
            len == s@.len(),
            n <= len,
            forall|j: int| 0 <= j < i ==> s@[len - n + j] == #[trigger] pat@[j],
        decreases n - i,
    {
        if s[len - n + i] != pat[i] {
            assert(s@.skip(len - n)[i as int] != pat@[i as int]);
            return false;
        }
        i = i + 1;
    }
    assert(s@.skip(len - n) =~= pat@);
    true
}

/// Gathers what an attempt to read brought, and tells what is done next.
pub fn gather(got: &mut Vec<u8>, read: Read) -> (r: Then)
    ensures
        final(got)@ == gathered(old(got)@, read@),
        r == what_then(old(got)@, read@),
{
    match read {
        Read::Expired => Then::Take,
        Read::Failed => Then::Take,
        Read::Data(d) => {
            push_bytes(got, &d);
            if bytes_end_with(got, "\r\n\r\n".as_bytes()) || got.len() >= 8192 {
                Then::Take
            } else {
                Then::Again
            }
        },
        Read::Nothing => if got.len() >= 8192 {
            Then::Take
        } else {
            Then::Pause(50)
        },
    }
}

/// Reading goes on only over an answer that is neither whole nor too long.
pub proof fn law_reading_stops_at_a_whole_answer(got: Seq<u8>, read: ReadView)
    requires
        !is_full(got),
        what_then(got, read) != Then::Take,
    ensures
        !is_full(gathered(got, read)),
{
}

/// What has been gathered is never lost.
pub proof fn law_gathering_only_adds(got: Seq<u8>, read: ReadView)
    ensures
        got.len() <= gathered(got, read).len(),
        gathered(got, read).take(got.len() as int) == got,
{
    assert(gathered(got, read).take(got.len() as int) =~= got);
}

/// What a list of attempts brought, all of it, in order.
pub open spec fn brought(reads: Seq<ReadView>) -> Seq<u8>
    decreases reads.len(),
{
    if reads.len() == 0 {
        seq![]
    } else {
        (match reads[0] {
            ReadView::Data(d) => d,
            _ => seq![],
        }) + brought(reads.skip(1))
    }
}

/// What is gathered over a list of attempts: each adds what it brought, and
/// the first after which nothing more is read is the last.
pub open spec fn collected(got: Seq<u8>, reads: Seq<ReadView>) -> Seq<u8>
    decreases reads.len(),
{
    if reads.len() == 0 {
        got
    } else if what_then(got, reads[0]) == Then::Take {
        gathered(got, reads[0])
    } else {
        collected(gathered(got, reads[0]), reads.skip(1))
    }
}

/// No attempt brings more than `n` bytes.
pub open spec fn at_most(reads: Seq<ReadView>, n: nat) -> bool {
    forall|i: int|
        0 <= i < reads.len() ==> (#[trigger] reads[i] matches ReadView::Data(d) ==> d.len() <= n)
}

proof fn lemma_collected(got: Seq<u8>, reads: Seq<ReadView>, n: nat)
    requires
        got.len() <= 8191,
        at_most(reads, n),
    ensures
        begins(got + brought(reads), collected(got, reads)),
        collected(got, reads).len() <= 8191 + n,
    decreases reads.len(),
{
    let all = got + brought(reads);
    if reads.len() == 0 {
        assert(all.take(got.len() as int) =~= got);
    } else {
        let next = gathered(got, reads[0]);
        let rest = reads.skip(1);
        assert(reads[0] matches ReadView::Data(d) ==> d.len() <= n);
        assert(all =~= next + brought(rest));
        if what_then(got, reads[0]) == Then::Take {
            assert(all.take(next.len() as int) =~= next);
        } else {
            assert forall|i: int| 0 <= i < rest.len() implies (#[trigger] rest[i] matches
                ReadView::Data(d) ==> d.len() <= n) by {
                assert(rest[i] == reads[i + 1]);
            }
            lemma_collected(next, rest, n);
        }
    }
}

/// What is gathered is the beginning of what the attempts brought: nothing is
/// lost, repeated or put in another order. It is at most one attempt longer
/// than the longest answer over which reading goes on.
pub proof fn law_answer_is_a_prefix_of_the_stream(reads: Seq<ReadView>, n: nat)
    requires
        at_most(reads, n),
    ensures
        begins(brought(reads), collected(seq![], reads)),
        collected(seq![], reads).len() <= 8191 + n,
{
    lemma_collected(seq![], reads, n);
    assert(Seq::<u8>::empty() + brought(reads) =~= brought(reads));
}

/// Where reading goes on to the end of the list, everything is gathered.
pub proof fn law_nothing_is_left_out(got: Seq<u8>, reads: Seq<ReadView>)
    requires
        goes_on(got, reads),
    ensures
        collected(got, reads) == got + brought(reads),
    decreases reads.len(),
{
    if reads.len() == 0 {
        assert(got + brought(reads) =~= got);
    } else {
        let next = gathered(got, reads[0]);
        law_nothing_is_left_out(next, reads.skip(1));
        assert(got + brought(reads) =~= next + brought(reads.skip(1)));
    }
}

/// Reading goes on after every attempt of a list.
pub open spec fn goes_on(got: Seq<u8>, reads: Seq<ReadView>) -> bool
    decreases reads.len(),
{
    reads.len() > 0 ==> what_then(got, reads[0]) != Then::Take && goes_on(
        gathered(got, reads[0]),
        reads.skip(1),
    )
}

proof fn lemma_blank_line()
    ensures
        encode_utf8("\r\n\r\n"@) == seq![0x0du8, 0x0au8, 0x0du8, 0x0au8],
{
    let s = "\r\n\r\n"@;
    reveal_strlit("\r\n\r\n");
    is_ascii_chars_encode_utf8(s);
    assert forall|i: int| 0 <= i < 4 implies encode_utf8(s)[i] == s[i] as u8 by {
        assert(s[i] as u8 == encode_utf8(s)[i]);
    }
    assert(encode_utf8(s) =~= seq![0x0du8, 0x0au8, 0x0du8, 0x0au8]);
}

/// After some bytes, reading stops exactly if all that was gathered ends with
/// the bytes of an empty line, or has come to 8192 bytes. After an attempt that
/// brought nothing it stops only at 8192 bytes, and pauses otherwise. The end of
/// the time and a failure always stop it.
pub proof fn law_reading_stops_at_an_empty_line(got: Seq<u8>, d: Seq<u8>)
    ensures
        ({
            let all = got + d;
            let n = all.len() as int;
            what_then(got, ReadView::Data(d)) == if n >= 8192 || (n >= 4 && all[n - 4] == 13 && all[n
                - 3] == 10 && all[n - 2] == 13 && all[n - 1] == 10) {
                Then::Take
            } else {
                Then::Again
            }
        }),
        what_then(got, ReadView::Nothing) == if got.len() >= 8192 {
            Then::Take
        } else {
            Then::Pause(50)
        },
        what_then(got, ReadView::Expired) == Then::Take,
        what_then(got, ReadView::Failed) == Then::Take,
{
    let all = got + d;
    let n = all.len() as int;
    let pat = seq![0x0du8, 0x0au8, 0x0du8, 0x0au8];
    lemma_blank_line();
    if n >= 4 {
        let t = all.skip(n - 4);
        assert(t[0] == all[n - 4] && t[1] == all[n - 3] && t[2] == all[n - 2] && t[3] == all[n - 1]);
        if all[n - 4] == 13 && all[n - 3] == 10 && all[n - 2] == 13 && all[n - 1] == 10 {
            assert(t =~= pat);
        }
    }
}

/// An attempt adds the bytes that it brought behind those that are there, and
/// nothing else.
pub proof fn law_gathering_adds_what_came(got: Seq<u8>, d: Seq<u8>)
    ensures
        gathered(got, ReadView::Data(d)) == got + d,
        gathered(got, ReadView::Nothing) == got,
        gathered(got, ReadView::Expired) == got,
        gathered(got, ReadView::Failed) == got,
{
}

} // verus!
