//! Text as a sequence of characters: lines, words, searching and trimming.
//!
//! Strings are taken apart on slices of `char`; every function here says what
//! it computes on the sequence of characters behind the slice.
use vstd::prelude::*;
use vstd::slice::slice_subrange;

verus! {

/// Unicode's `White_Space` property.
pub open spec fn is_space(c: char) -> bool {
    let n = c as u32;
    ||| 0x09 <= n <= 0x0d
    ||| n == 0x20
    ||| n == 0x85
    ||| n == 0xa0
    ||| n == 0x1680
    ||| 0x2000 <= n <= 0x200a
    ||| n == 0x2028
    ||| n == 0x2029
    ||| n == 0x202f
    ||| n == 0x205f
    ||| n == 0x3000
}

/// Tells whether `c` has the `White_Space` property.
pub fn space(c: char) -> (r: bool)
    ensures
        r == is_space(c),
{
    let n: u32 = c as u32;
    (0x09 <= n && n <= 0x0d) || n == 0x20 || n == 0x85 || n == 0xa0 || n == 0x1680 || (0x2000 <= n
        && n <= 0x200a) || n == 0x2028 || n == 0x2029 || n == 0x202f || n == 0x205f || n == 0x3000
}

/// A set of characters that a scan runs over.
#[derive(Clone, Copy)]
pub enum Class {
    /// White space.
    Space,
    /// Anything but white space.
    NotSpace,
    /// One character.
    Is(char),
    /// Anything but one character.
    IsNot(char),
    /// What the value of a header parameter may hold: anything but `;`, CR and LF.
    Value,
}

impl Class {
    pub open spec fn has(self, c: char) -> bool {
        match self {
            Class::Space => is_space(c),
            Class::NotSpace => !is_space(c),
            Class::Is(d) => c == d,
            Class::IsNot(d) => c != d,
            Class::Value => c != ';' && c != '\r' && c != '\n',
        }
    }

    /// Tells whether `c` is in the class.
    pub fn contains(self, c: char) -> (r: bool)
        ensures
            r == self.has(c),
    {
        match self {
            Class::Space => space(c),
            Class::NotSpace => !space(c),
            Class::Is(d) => c == d,
            Class::IsNot(d) => c != d,
            Class::Value => c != ';' && c != '\r' && c != '\n',
        }
    }
}

/// How many characters at the start of `s` are in `k`, without a gap.
pub open spec fn prefix_len(s: Seq<char>, k: Class) -> nat
    decreases s.len(),
{
    if s.len() > 0 && k.has(s[0]) {
        1 + prefix_len(s.skip(1), k)
    } else {
        0
    }
}

pub proof fn lemma_prefix_len(s: Seq<char>, k: Class)
    ensures
        prefix_len(s, k) <= s.len(),
        forall|i: int| 0 <= i < prefix_len(s, k) ==> k.has(#[trigger] s[i]),
        prefix_len(s, k) < s.len() ==> !k.has(s[prefix_len(s, k) as int]),
    decreases s.len(),
{
    if s.len() > 0 && k.has(s[0]) {
        let t = s.skip(1);
        lemma_prefix_len(t, k);
        assert forall|i: int| 0 <= i < prefix_len(s, k) implies k.has(#[trigger] s[i]) by {
            if i > 0 {
                assert(s[i] == t[i - 1]);
            }
        }
    }
}

/// The prefix length is the only place where a run of `k` can end.
pub proof fn lemma_prefix_len_unique(s: Seq<char>, k: Class, n: nat)
    requires
        n <= s.len(),
        forall|i: int| 0 <= i < n ==> k.has(#[trigger] s[i]),
        n < s.len() ==> !k.has(s[n as int]),
    ensures
        prefix_len(s, k) == n,
{
    lemma_prefix_len(s, k);
    let p = prefix_len(s, k);
    if p < n {
        assert(k.has(s[p as int]));
    }
    if n < p {
        assert(k.has(s[n as int]));
    }
}

/// Measures the run of `k` at the start of `s`.
pub fn count_prefix(s: &[char], k: Class) -> (n: usize)
    ensures
        n == prefix_len(s@, k),
        n <= s@.len(),
{
    let len: usize = s.len();
    let mut i: usize = 0;
    while i < len && k.contains(s[i])
        invariant
            i <= len,
            len == s@.len(),
            forall|j: int| 0 <= j < i ==> k.has(#[trigger] s@[j]),
        ensures
            i <= len,
            forall|j: int| 0 <= j < i ==> k.has(#[trigger] s@[j]),
            i < len ==> !k.has(s@[i as int]),
        decreases len - i,
    {
        i = i + 1;
    }
    proof {
        lemma_prefix_len_unique(s@, k, i as nat);
    }
    i
}

/// `s` without the run of `k` at its start.
pub open spec fn trimmed_start(s: Seq<char>, k: Class) -> Seq<char> {
    s.skip(prefix_len(s, k) as int)
}

/// `s` without the run of `k` at its end.
pub open spec fn trimmed_end(s: Seq<char>, k: Class) -> Seq<char>
    decreases s.len(),
{
    if s.len() > 0 && k.has(s.last()) {
        trimmed_end(s.drop_last(), k)
    } else {
        s
    }
}

/// `s` without the runs of `k` at both ends.
pub open spec fn trimmed(s: Seq<char>, k: Class) -> Seq<char> {
    trimmed_end(trimmed_start(s, k), k)
}

/// Cuts the runs of `k` off both ends of `s`.
pub fn trim(s: &[char], k: Class) -> (r: &[char])
    ensures
        r@ == trimmed(s@, k),
{
    let start: usize = count_prefix(s, k);
    let len: usize = s.len();
    let mut end: usize = len;
    let ghost t = s@.skip(start as int);
    proof {
        assert(s@.subrange(start as int, end as int) =~= t);
    }
    while end > start && k.contains(s[end - 1])
        invariant
            start <= end <= len,
            len == s@.len(),
            trimmed_end(s@.subrange(start as int, end as int), k) == trimmed_end(t, k),
        ensures
            start <= end <= len,
            s@.subrange(start as int, end as int) == trimmed_end(t, k),
        decreases end,
    {
        proof {
            let u = s@.subrange(start as int, end as int);
            assert(u.drop_last() =~= s@.subrange(start as int, end - 1));
            assert(u.last() == s@[end - 1]);
        }
        end = end - 1;
    }
    slice_subrange(s, start, end)
}

/// `pat` stands in `s` at `i`.
pub open spec fn is_at(s: Seq<char>, pat: Seq<char>, i: int) -> bool {
    0 <= i && i + pat.len() <= s.len() && s.subrange(i, i + pat.len()) == pat
}

/// The first place at or after `i` where `pat` stands in `s`.
pub open spec fn find_from(s: Seq<char>, pat: Seq<char>, i: nat) -> Option<nat>
    decreases s.len() + 1 - i,
{
    if i + pat.len() > s.len() {
        None
    } else if is_at(s, pat, i as int) {
        Some(i)
    } else {
        find_from(s, pat, i + 1)
    }
}

/// The first place where `pat` stands in `s`.
pub open spec fn found(s: Seq<char>, pat: Seq<char>) -> Option<nat> {
    find_from(s, pat, 0)
}

/// `pat` stands in `s`.
pub open spec fn has_text(s: Seq<char>, pat: Seq<char>) -> bool {
    found(s, pat) is Some
}

/// What is found stands in the text, and nowhere before.
pub proof fn lemma_find_from(s: Seq<char>, pat: Seq<char>, i: nat)
    ensures
        match find_from(s, pat, i) {
            Some(n) => {
                &&& i <= n
                &&& is_at(s, pat, n as int)
                &&& forall|j: int| i <= j < n ==> !#[trigger] is_at(s, pat, j)
            },
            None => forall|j: int| i <= j ==> !#[trigger] is_at(s, pat, j),
        },
    decreases s.len() + 1 - i,
{
    if i + pat.len() <= s.len() && !is_at(s, pat, i as int) {
        lemma_find_from(s, pat, i + 1);
    }
}

/// Tells whether `pat` stands in `s` at `i`.
pub fn stands_at(s: &[char], pat: &[char], i: usize) -> (r: bool)
    requires
        i + pat@.len() <= s@.len(),
    ensures
        r == is_at(s@, pat@, i as int),
{
    let n: usize = pat.len();
    let len: usize = s.len();
    let mut j: usize = 0;
    while j < n
        invariant
            j <= n,
            n == pat@.len(),
            len == s@.len(),
            i + n <= len,
            forall|m: int| 0 <= m < j ==> s@[i + m] == #[trigger] pat@[m],
        decreases n - j,
    {
        if s[i + j] != pat[j] {
            assert(s@.subrange(i as int, i + pat@.len())[j as int] != pat@[j as int]);
            return false;
        }
        j = j + 1;
    }
    assert(s@.subrange(i as int, i + pat@.len()) =~= pat@);
    true
}

/// Finds the first place where `pat` stands in `s`.
pub fn find(s: &[char], pat: &[char]) -> (r: Option<usize>)
    ensures
        match r {
            Some(i) => found(s@, pat@) == Some(i as nat) && i + pat@.len() <= s@.len(),
            None => found(s@, pat@) is None,
        },
{
    let len: usize = s.len();
    let n: usize = pat.len();
    if n > len {
        return None;
    }
    let mut i: usize = 0;
    while i <= len - n
        invariant
            n <= len,
            i <= len - n + 1,
            len == s@.len(),
            n == pat@.len(),
            find_from(s@, pat@, i as nat) == found(s@, pat@),
        decreases len - n + 1 - i,
    {
        if stands_at(s, pat, i) {
            return Some(i);
        }
        if i == len - n {
            assert(find_from(s@, pat@, (i + 1) as nat) is None);
            return None;
        }
        i = i + 1;
    }
    None
}

/// Tells whether `pat` stands in `s`.
pub fn contains(s: &[char], pat: &[char]) -> (r: bool)
    ensures
        r == has_text(s@, pat@),
{
    find(s, pat).is_some()
}

/// `pat` stands at the start of `s`.
pub open spec fn begins<T>(s: Seq<T>, pat: Seq<T>) -> bool {
    pat.len() <= s.len() && s.take(pat.len() as int) == pat
}

/// `pat` stands at the end of `s`.
pub open spec fn ends<T>(s: Seq<T>, pat: Seq<T>) -> bool {
    pat.len() <= s.len() && s.skip(s.len() - pat.len()) == pat
}

/// Tells whether `pat` stands at the start of `s`.
pub fn starts_with(s: &[char], pat: &[char]) -> (r: bool)
    ensures
        r == begins(s@, pat@),
{
    pat.len() <= s.len() && stands_at(s, pat, 0)
}

/// Tells whether `pat` stands at the end of `s`.
pub fn ends_with(s: &[char], pat: &[char]) -> (r: bool)
    ensures
        r == ends(s@, pat@),
{
    pat.len() <= s.len() && stands_at(s, pat, s.len() - pat.len())
}

/// The texts behind a sequence of character vectors.
pub open spec fn views(v: Seq<Vec<char>>) -> Seq<Seq<char>> {
    Seq::new(v.len(), |i: int| v[i]@)
}

/// The end of a line without the carriage return before the line feed.
pub open spec fn without_cr(s: Seq<char>) -> Seq<char> {
    if s.len() > 0 && s.last() == '\r' {
        s.drop_last()
    } else {
        s
    }
}

/// The lines of `s`: each ends at a line feed, or at a carriage return that a
/// line feed follows; what follows the last line feed is a line if it is not empty.
pub open spec fn lines(s: Seq<char>) -> Seq<Seq<char>>
    decreases s.len(),
{
    let n = prefix_len(s, Class::IsNot('\n'));
    if s.len() == 0 {
        seq![]
    } else if n < s.len() {
        seq![without_cr(s.take(n as int))] + lines(s.skip(n as int + 1))
    } else {
        seq![s]
    }
}

/// The characters of a string, one by one.
pub fn chars(s: &str) -> (r: Vec<char>)
    ensures
        r@ == s@,
{
    let mut r: Vec<char> = Vec::new();
    for c in it: s.chars()
        invariant
            it.seq() == s@,
            r@ == s@.take(it.index() as int),
    {
        r.push(c);
    }
    assert(r@ =~= s@);
    r
}

/// `String::push` puts one character at the end of the string.
pub assume_specification[ String::push ](s: &mut String, c: char)
    ensures
        final(s)@ == old(s)@.push(c),
;

/// The string that holds the given characters.
pub fn string(s: &[char]) -> (r: String)
    ensures
        r@ == s@,
{
    let mut r: String = String::new();
    let len: usize = s.len();
    let mut i: usize = 0;
    while i < len
        invariant
            i <= len,
            len == s@.len(),
            r@ == s@.take(i as int),
        decreases len - i,
    {
        r.push(s[i]);
        i = i + 1;
        assert(s@.take(i as int) =~= s@.take(i - 1).push(s@[i - 1]));
    }
    assert(r@ =~= s@);
    r
}

/// Copies the characters of a slice into a vector.
pub fn to_chars(s: &[char]) -> (r: Vec<char>)
    ensures
        r@ == s@,
{
    let mut r: Vec<char> = Vec::new();
    r.extend_from_slice(s);
    assert(r@ =~= s@);
    r
}

/// Splits `s` into its lines.
pub fn split_lines(s: &[char]) -> (r: Vec<Vec<char>>)
    ensures
        views(r@) == lines(s@),
{
    let mut r: Vec<Vec<char>> = Vec::new();
    let len: usize = s.len();
    let mut at: usize = 0;
    proof {
        assert(s@.skip(0) =~= s@);
        assert(views(r@) + lines(s@) =~= lines(s@));
    }
    while at < len
        invariant
            at <= len,
            len == s@.len(),
            views(r@) + lines(s@.skip(at as int)) == lines(s@),
        decreases len - at,
    {
        let rest: &[char] = slice_subrange(s, at, len);
        assert(rest@ =~= s@.skip(at as int));
        let n: usize = count_prefix(rest, Class::IsNot('\n'));
        let ghost before = r@;
        if n < rest.len() {
            let end: usize = if n > 0 && rest[n - 1] == '\r' { n - 1 } else { n };
            let line: Vec<char> = to_chars(slice_subrange(rest, 0, end));
            proof {
                assert(line@ =~= without_cr(rest@.take(n as int)));
                assert(rest@.skip(n + 1) =~= s@.skip(at + n + 1));
            }
            r.push(line);
            proof {
                assert(views(r@) =~= views(before).push(line@));
                assert(views(r@) + lines(s@.skip(at + n + 1)) =~= views(before) + (seq![line@]
                    + lines(s@.skip(at + n + 1))));
            }
            at = at + n + 1;
        } else {
            let line: Vec<char> = to_chars(rest);
            r.push(line);
            proof {
                assert(views(r@) =~= views(before).push(line@));
                assert(s@.skip(len as int) =~= Seq::<char>::empty());
                assert(views(r@) + lines(s@.skip(len as int)) =~= views(before) + seq![line@]);
            }
            at = len;
        }
    }
    proof {
        assert(s@.skip(len as int) =~= Seq::<char>::empty());
        assert(views(r@) + lines(s@.skip(at as int)) =~= views(r@));
    }
    r
}

/// The words of `s`: its longest runs of characters that are not white space.
pub open spec fn words(s: Seq<char>) -> Seq<Seq<char>>
    decreases s.len(),
{
    let t = trimmed_start(s, Class::Space);
    let n = prefix_len(t, Class::NotSpace);
    if t.len() == 0 {
        seq![]
    } else {
        proof {
            lemma_prefix_len(s, Class::Space);
            lemma_prefix_len(t, Class::NotSpace);
        }
        seq![t.take(n as int)] + words(t.skip(n as int))
    }
}

/// Splits `s` into its words.
pub fn split_words(s: &[char]) -> (r: Vec<Vec<char>>)
    ensures
        views(r@) == words(s@),
{
    let mut r: Vec<Vec<char>> = Vec::new();
    let len: usize = s.len();
    let mut at: usize = 0;
    proof {
        assert(s@.skip(0) =~= s@);
        assert(views(r@) + words(s@) =~= words(s@));
    }
    loop
        invariant
            at <= len,
            len == s@.len(),
            views(r@) + words(s@.skip(at as int)) == words(s@),
        decreases len - at,
    {
        let rest: &[char] = slice_subrange(s, at, len);
        assert(rest@ =~= s@.skip(at as int));
        let gap: usize = count_prefix(rest, Class::Space);
        let tail: &[char] = slice_subrange(rest, gap, rest.len());
        proof {
            assert(tail@ =~= trimmed_start(rest@, Class::Space));
            lemma_prefix_len(rest@, Class::Space);
        }
        if tail.len() == 0 {
            assert(views(r@) + words(rest@) =~= views(r@));
            return r;
        }
        let n: usize = count_prefix(tail, Class::NotSpace);
        proof {
            lemma_prefix_len(tail@, Class::NotSpace);
        }
        let word: Vec<char> = to_chars(slice_subrange(tail, 0, n));
        let ghost before = r@;
        r.push(word);
        proof {
            assert(tail@.skip(n as int) =~= s@.skip(at + gap + n));
            assert(word@ =~= tail@.take(n as int));
            assert(views(r@) =~= views(before).push(word@));
            assert(views(r@) + words(s@.skip(at + gap + n)) =~= views(before) + (seq![word@]
                + words(s@.skip(at + gap + n))));
        }
        at = at + gap + n;
    }
}

/// `s` is one word: not empty, and without white space.
pub open spec fn is_word(s: Seq<char>) -> bool {
    s.len() > 0 && forall|i: int| 0 <= i < s.len() ==> !is_space(#[trigger] s[i])
}

/// Every word is a word.
pub proof fn lemma_words(s: Seq<char>)
    ensures
        forall|k: int| 0 <= k < words(s).len() ==> is_word(#[trigger] words(s)[k]),
    decreases s.len(),
{
    let t = trimmed_start(s, Class::Space);
    lemma_prefix_len(s, Class::Space);
    if t.len() > 0 {
        let n = prefix_len(t, Class::NotSpace);
        lemma_prefix_len(t, Class::NotSpace);
        let w = t.take(n as int);
        assert(t[0] == s[prefix_len(s, Class::Space) as int]);
        assert forall|i: int| 0 <= i < w.len() implies !is_space(#[trigger] w[i]) by {
            assert(Class::NotSpace.has(t[i]));
        }
        assert(is_word(w));
        lemma_words(t.skip(n as int));
        assert forall|k: int| 0 <= k < words(s).len() implies is_word(#[trigger] words(s)[k]) by {
            if k > 0 {
                assert(words(s)[k] == words(t.skip(n as int))[k - 1]);
            }
        }
    }
}

/// The first word is what stands between white space, and the other words are
/// those behind it.
pub proof fn lemma_first_word(lead: Seq<char>, w: Seq<char>, rest: Seq<char>)
    requires
        forall|i: int| 0 <= i < lead.len() ==> is_space(#[trigger] lead[i]),
        is_word(w),
        rest.len() > 0 ==> is_space(rest[0]),
    ensures
        words(lead + w + rest) == seq![w] + words(rest),
{
    let s = lead + w + rest;
    assert forall|i: int| 0 <= i < lead.len() implies Class::Space.has(#[trigger] s[i]) by {
        assert(s[i] == lead[i]);
    }
    assert(s[lead.len() as int] == w[0]);
    lemma_prefix_len_unique(s, Class::Space, lead.len());
    let t = trimmed_start(s, Class::Space);
    assert(t =~= w + rest);
    assert forall|i: int| 0 <= i < w.len() implies Class::NotSpace.has(#[trigger] t[i]) by {
        assert(t[i] == w[i]);
    }
    lemma_prefix_len_unique(t, Class::NotSpace, w.len());
    assert(t.take(w.len() as int) =~= w);
    assert(t.skip(w.len() as int) =~= rest);
}

/// The first line of a text that begins with `head` begins with it too, if
/// `head` holds no line feed and does not end in a carriage return.
pub proof fn lemma_first_line(head: Seq<char>, rest: Seq<char>) -> (tail: Seq<char>)
    requires
        head.len() > 0,
        head.last() != '\r',
        forall|i: int| 0 <= i < head.len() ==> #[trigger] head[i] != '\n',
    ensures
        lines(head + rest).len() > 0,
        lines(head + rest)[0] == head + tail,
        tail.len() <= rest.len(),
        rest.take(tail.len() as int) == tail,
{
    let s = head + rest;
    let k = Class::IsNot('\n');
    let m = prefix_len(rest, k);
    lemma_prefix_len(rest, k);
    let n = head.len() + m;
    assert forall|i: int| 0 <= i < n implies k.has(#[trigger] s[i]) by {
        if i < head.len() {
            assert(s[i] == head[i]);
        } else {
            assert(s[i] == rest[i - head.len()]);
        }
    }
    if n < s.len() {
        assert(s[n as int] == rest[m as int]);
    }
    lemma_prefix_len_unique(s, k, n);
    let line = s.take(n as int);
    if n < s.len() {
        if m > 0 && rest[m - 1] == '\r' {
            let tail = rest.take(m - 1);
            assert(line.last() == rest[m - 1]);
            assert(without_cr(line) =~= head + tail);
            assert(rest.take(tail.len() as int) =~= tail);
            tail
        } else {
            let tail = rest.take(m as int);
            if m > 0 {
                assert(line.last() == rest[m - 1]);
            } else {
                assert(line.last() == head.last());
            }
            assert(without_cr(line) =~= head + tail);
            assert(rest.take(tail.len() as int) =~= tail);
            tail
        }
    } else {
        assert(rest.take(rest.len() as int) =~= rest);
        rest
    }
}

/// Trimming leaves a part of the text that neither begins nor ends with what
/// was trimmed.
pub proof fn lemma_trimmed(s: Seq<char>, k: Class) -> (r: (int, int))
    ensures
        0 <= r.0 <= r.1 <= s.len(),
        trimmed(s, k) == s.subrange(r.0, r.1),
        trimmed(s, k).len() > 0 ==> !k.has(trimmed(s, k)[0]) && !k.has(trimmed(s, k).last()),
{
    lemma_prefix_len(s, k);
    let n = prefix_len(s, k) as int;
    let t = trimmed_start(s, k);
    let m = lemma_trimmed_end(t, k);
    assert(trimmed(s, k) =~= s.subrange(n, n + m));
    if m > 0 {
        assert(trimmed(s, k)[0] == s[n]);
    }
    (n, n + m)
}

proof fn lemma_trimmed_end(s: Seq<char>, k: Class) -> (m: int)
    ensures
        0 <= m <= s.len(),
        trimmed_end(s, k) == s.take(m),
        m > 0 ==> !k.has(trimmed_end(s, k).last()),
    decreases s.len(),
{
    if s.len() > 0 && k.has(s.last()) {
        let m = lemma_trimmed_end(s.drop_last(), k);
        assert(s.drop_last().take(m) =~= s.take(m));
        m
    } else {
        assert(s.take(s.len() as int) =~= s);
        s.len() as int
    }
}

/// What is found in a text is found at the same place in a longer one.
pub proof fn lemma_found_in_longer(s: Seq<char>, y: Seq<char>, pat: Seq<char>)
    requires
        found(s, pat) is Some,
    ensures
        found(s + y, pat) == found(s, pat),
{
    lemma_find_from(s, pat, 0);
    lemma_find_from(s + y, pat, 0);
    let n = found(s, pat)->0;
    assert forall|j: int| 0 <= j && j + pat.len() <= s.len() implies is_at(s, pat, j) == is_at(
        s + y,
        pat,
        j,
    ) by {
        assert(s.subrange(j, j + pat.len()) =~= (s + y).subrange(j, j + pat.len()));
    }
    assert(is_at(s + y, pat, n as int));
    let m = found(s + y, pat)->0;
    if m < n {
        assert(is_at(s, pat, m as int));
    }
}

/// What stands between the first `c` and the next one, or the end: nothing
/// where `s` holds no `c`.
pub open spec fn second_field(s: Seq<char>, c: char) -> Option<Seq<char>> {
    let n = prefix_len(s, Class::IsNot(c));
    if n < s.len() {
        let t = s.skip(n as int + 1);
        Some(t.take(prefix_len(t, Class::IsNot(c)) as int))
    } else {
        None
    }
}

/// Takes the second of the fields that `c` divides `s` into.
pub fn field_after(s: &[char], c: char) -> (r: Option<&[char]>)
    ensures
        match r {
            Some(f) => second_field(s@, c) == Some(f@),
            None => second_field(s@, c) is None,
        },
{
    let n: usize = count_prefix(s, Class::IsNot(c));
    if n < s.len() {
        let t: &[char] = slice_subrange(s, n + 1, s.len());
        assert(t@ =~= s@.skip(n + 1));
        let m: usize = count_prefix(t, Class::IsNot(c));
        Some(slice_subrange(t, 0, m))
    } else {
        None
    }
}

/// `s` without the characters equal to `c`.
pub open spec fn without(s: Seq<char>, c: char) -> Seq<char>
    decreases s.len(),
{
    if s.len() == 0 {
        seq![]
    } else if s.last() == c {
        without(s.drop_last(), c)
    } else {
        without(s.drop_last(), c).push(s.last())
    }
}

/// Leaves out the characters equal to `c`.
pub fn remove(s: &[char], c: char) -> (r: Vec<char>)
    ensures
        r@ == without(s@, c),
{
    let mut r: Vec<char> = Vec::new();
    let len: usize = s.len();
    let mut i: usize = 0;
    while i < len
        invariant
            i <= len,
            len == s@.len(),
            r@ == without(s@.take(i as int), c),
        decreases len - i,
    {
        if s[i] != c {
            r.push(s[i]);
        }
        i = i + 1;
        assert(s@.take(i as int).drop_last() =~= s@.take(i - 1));
    }
    assert(s@.take(len as int) =~= s@);
    r
}

/// Tells whether two texts are the same.
pub fn same(a: &[char], b: &[char]) -> (r: bool)
    ensures
        r == (a@ == b@),
{
    if a.len() != b.len() {
        return false;
    }
    assert(a@.subrange(0, b@.len() as int) =~= a@);
    stands_at(a, b, 0)
}

// ---------------------------------------------------------------- laws

/// `s` is some text, then `pat`, then some text.
pub open spec fn occurs(s: Seq<char>, pat: Seq<char>) -> bool {
    exists|a: Seq<char>, b: Seq<char>| s == #[trigger] (a + pat + b)
}

/// Searching finds a text exactly where it occurs, and finds its first place:
/// what stands before that place and the text has no earlier one.
pub proof fn law_first_occurrence_is_found(s: Seq<char>, pat: Seq<char>)
    ensures
        has_text(s, pat) <==> occurs(s, pat),
        match found(s, pat) {
            Some(n) => {
                &&& n + pat.len() <= s.len()
                &&& s == s.take(n as int) + pat + s.skip(n as int + pat.len())
                &&& forall|a: Seq<char>, b: Seq<char>| s == #[trigger] (a + pat + b) ==> n <= a.len()
            },
            None => forall|a: Seq<char>, b: Seq<char>| s != #[trigger] (a + pat + b),
        },
{
    lemma_find_from(s, pat, 0);
    assert forall|a: Seq<char>, b: Seq<char>| s == #[trigger] (a + pat + b) implies is_at(
        s,
        pat,
        a.len() as int,
    ) by {
        assert(s.subrange(a.len() as int, a.len() + pat.len() as int) =~= pat);
    }
    if let Some(n) = found(s, pat) {
        let a = s.take(n as int);
        let b = s.skip(n as int + pat.len());
        assert(is_at(s, pat, n as int));
        assert(s =~= a + s.subrange(n as int, n + pat.len() as int) + b);
    }
}

/// Where a text stands whole, and nowhere earlier, it is found.
pub proof fn lemma_found_there(head: Seq<char>, pat: Seq<char>, rest: Seq<char>)
    requires
        forall|a: Seq<char>, b: Seq<char>|
            head + pat + rest == #[trigger] (a + pat + b) ==> head.len() <= a.len(),
    ensures
        found(head + pat + rest, pat) == Some(head.len()),
{
    let s = head + pat + rest;
    law_first_occurrence_is_found(s, pat);
    assert(s == head + pat + rest);
    assert(occurs(s, pat));
    let n = found(s, pat)->0;
    assert(s == s.take(n as int) + pat + s.skip(n as int + pat.len()));
}

/// A line ends at a line feed; a carriage return just before it belongs to the
/// line's end. What follows the last line feed is a line unless it is empty.
pub proof fn law_lines_end_at_line_feeds(a: Seq<char>, b: Seq<char>)
    requires
        forall|i: int| 0 <= i < a.len() ==> #[trigger] a[i] != '\n',
    ensures
        lines(Seq::<char>::empty()) == Seq::<Seq<char>>::empty(),
        a.len() > 0 ==> lines(a) == seq![a],
        (a.len() == 0 || a.last() != '\r') ==> lines(a + seq!['\n'] + b) == seq![a] + lines(b),
        lines(a + seq!['\r', '\n'] + b) == seq![a] + lines(b),
{
    let k = Class::IsNot('\n');
    assert forall|i: int| 0 <= i < a.len() implies k.has(#[trigger] a[i]) by {}
    lemma_prefix_len_unique(a, k, a.len());
    if a.len() == 0 || a.last() != '\r' {
        let s = a + seq!['\n'] + b;
        assert forall|i: int| 0 <= i < a.len() implies k.has(#[trigger] s[i]) by {
            assert(s[i] == a[i]);
        }
        lemma_prefix_len_unique(s, k, a.len());
        assert(s.take(a.len() as int) =~= a);
        assert(s.skip(a.len() as int + 1) =~= b);
    }
    let s = a + seq!['\r', '\n'] + b;
    let n = a.len() + 1;
    assert forall|i: int| 0 <= i < n implies k.has(#[trigger] s[i]) by {
        if i < a.len() {
            assert(s[i] == a[i]);
        }
    }
    lemma_prefix_len_unique(s, k, n);
    assert(s.take(n as int).drop_last() =~= a);
    assert(s.take(n as int).last() == '\r');
    assert(s.skip(n as int + 1) =~= b);
}

/// White space holds no word; a word between white space is the first word, and
/// the other words are those behind it.
pub proof fn law_words_stand_between_white_space(lead: Seq<char>, w: Seq<char>, rest: Seq<char>)
    requires
        forall|i: int| 0 <= i < lead.len() ==> is_space(#[trigger] lead[i]),
        w.len() > 0,
        forall|i: int| 0 <= i < w.len() ==> !is_space(#[trigger] w[i]),
        rest.len() > 0 ==> is_space(rest[0]),
    ensures
        words(lead) == Seq::<Seq<char>>::empty(),
        words(lead + w + rest) == seq![w] + words(rest),
{
    lemma_first_word(lead, w, rest);
    assert forall|i: int| 0 <= i < lead.len() implies Class::Space.has(#[trigger] lead[i]) by {}
    lemma_prefix_len_unique(lead, Class::Space, lead.len());
    assert(trimmed_start(lead, Class::Space).len() == 0);
}

/// The characters that are white space: tab to carriage return, space, and the
/// spaces and separators beyond ASCII.
pub proof fn law_white_space(c: char)
    ensures
        (c as u32) < 128 ==> (is_space(c) <==> c == ' ' || c == '\t' || c == '\n' || c == '\r'
            || c == '\u{b}' || c == '\u{c}'),
        (c as u32) >= 128 ==> (is_space(c) <==> c == '\u{85}' || c == '\u{a0}' || c == '\u{1680}'
            || ('\u{2000}' <= c && c <= '\u{200a}') || c == '\u{2028}' || c == '\u{2029}' || c
            == '\u{202f}' || c == '\u{205f}' || c == '\u{3000}'),
{
}

/// Trimming takes the longest runs off both ends and nothing else.
pub proof fn law_trimming_takes_both_ends(a: Seq<char>, core: Seq<char>, b: Seq<char>, k: Class)
    requires
        forall|i: int| 0 <= i < a.len() ==> k.has(#[trigger] a[i]),
        forall|i: int| 0 <= i < b.len() ==> k.has(#[trigger] b[i]),
        core.len() > 0 ==> !k.has(core[0]) && !k.has(core.last()),
    ensures
        trimmed(a + core + b, k) == core,
{
    let s = a + core + b;
    if core.len() > 0 {
        assert forall|i: int| 0 <= i < a.len() implies k.has(#[trigger] s[i]) by {
            assert(s[i] == a[i]);
        }
        assert(s[a.len() as int] == core[0]);
        lemma_prefix_len_unique(s, k, a.len());
        assert(trimmed_start(s, k) =~= core + b);
        lemma_trimmed_run(core, b, k);
    } else {
        assert forall|i: int| 0 <= i < s.len() implies k.has(#[trigger] s[i]) by {
            if i < a.len() {
                assert(s[i] == a[i]);
            } else {
                assert(s[i] == b[i - a.len()]);
            }
        }
        lemma_prefix_len_unique(s, k, s.len());
        assert(trimmed_start(s, k) =~= Seq::<char>::empty());
        assert(core =~= Seq::<char>::empty());
    }
}

proof fn lemma_trimmed_run(core: Seq<char>, b: Seq<char>, k: Class)
    requires
        core.len() > 0,
        !k.has(core.last()),
        forall|i: int| 0 <= i < b.len() ==> k.has(#[trigger] b[i]),
    ensures
        trimmed_end(core + b, k) == core,
    decreases b.len(),
{
    let s = core + b;
    if b.len() > 0 {
        assert(s.last() == b[b.len() - 1]);
        assert(s.drop_last() =~= core + b.drop_last());
        lemma_trimmed_run(core, b.drop_last(), k);
    } else {
        assert(s =~= core);
    }
}

/// The second field stands between the first separator and the next one, or
/// the end.
pub proof fn law_second_field(a: Seq<char>, c: char, f: Seq<char>, rest: Seq<char>)
    requires
        forall|i: int| 0 <= i < a.len() ==> #[trigger] a[i] != c,
        forall|i: int| 0 <= i < f.len() ==> #[trigger] f[i] != c,
        rest.len() > 0 ==> rest[0] == c,
    ensures
        second_field(a, c) is None,
        second_field(a + seq![c] + f + rest, c) == Some(f),
{
    let k = Class::IsNot(c);
    assert forall|i: int| 0 <= i < a.len() implies k.has(#[trigger] a[i]) by {}
    lemma_prefix_len_unique(a, k, a.len());
    let s = a + seq![c] + f + rest;
    assert forall|i: int| 0 <= i < a.len() implies k.has(#[trigger] s[i]) by {
        assert(s[i] == a[i]);
    }
    assert(s[a.len() as int] == c);
    lemma_prefix_len_unique(s, k, a.len());
    let t = s.skip(a.len() as int + 1);
    assert(t =~= f + rest);
    assert forall|i: int| 0 <= i < f.len() implies k.has(#[trigger] t[i]) by {
        assert(t[i] == f[i]);
    }
    lemma_prefix_len_unique(t, k, f.len());
    assert(t.take(f.len() as int) =~= f);
}

/// Leaving characters out treats every part of a text alike: a part without
/// the character stays, and the character goes.
pub proof fn law_removal(a: Seq<char>, c: char, b: Seq<char>)
    requires
        forall|i: int| 0 <= i < b.len() ==> #[trigger] b[i] != c,
    ensures
        without(b, c) == b,
        without(a + seq![c] + b, c) == without(a, c) + b,
        !without(a, c).contains(c),
    decreases a.len() + b.len(),
{
    if b.len() > 0 {
        let d = b.drop_last();
        assert forall|i: int| 0 <= i < d.len() implies #[trigger] d[i] != c by {
            assert(d[i] == b[i]);
        }
        assert(b[b.len() - 1] != c);
        law_removal(a, c, d);
        let s = a + seq![c] + b;
        assert(s.drop_last() =~= a + seq![c] + d);
        assert(s.last() == b.last());
        assert(d.push(b.last()) =~= b);
        assert((without(a, c) + d).push(b.last()) =~= without(a, c) + b);
    } else {
        let s = a + seq![c] + b;
        assert(s.drop_last() =~= a);
        assert(b =~= Seq::<char>::empty());
        assert(without(a, c) + b =~= without(a, c));
        if a.len() > 0 {
            law_removal(a.drop_last(), c, b);
            if a.last() != c {
                let w = without(a.drop_last(), c);
                assert forall|i: int| 0 <= i < w.push(a.last()).len() implies w.push(a.last())[i]
                    != c by {
                    if i < w.len() {
                        assert(w.contains(w[i]));
                    }
                }
            }
        }
    }
}

/// The lines of two texts, the first of which ends with a line, are those of
/// the first and then those of the second.
pub proof fn law_lines_of_two_texts(a: Seq<char>, b: Seq<char>)
    requires
        a.len() > 0 ==> a.last() == '\n',
    ensures
        lines(a + b) == lines(a) + lines(b),
    decreases a.len(),
{
    if a.len() == 0 {
        assert(a + b =~= b);
        assert(lines(a) + lines(b) =~= lines(b));
    } else {
        let k = Class::IsNot('\n');
        let s = a + b;
        let n = prefix_len(a, k);
        lemma_prefix_len(a, k);
        if n == a.len() {
            assert(k.has(a[n - 1]));
        }
        assert forall|i: int| 0 <= i < n implies k.has(#[trigger] s[i]) by {
            assert(s[i] == a[i]);
        }
        assert(s[n as int] == a[n as int]);
        lemma_prefix_len_unique(s, k, n);
        let t = a.skip(n as int + 1);
        assert(s.take(n as int) =~= a.take(n as int));
        assert(s.skip(n as int + 1) =~= t + b);
        if t.len() > 0 {
            assert(t.last() == a.last());
        }
        law_lines_of_two_texts(t, b);
        let l = seq![without_cr(a.take(n as int))];
        assert(lines(a) + lines(b) =~= l + (lines(t) + lines(b)));
    }
}

} // verus!
