//! What is read out of the tools' output: the P-CSCF, the local address, the
//! subscriber's identity and the application on the card.
use vstd::prelude::*;
use vstd::slice::slice_subrange;
use vstd::utf8::encode_utf8;
use crate::codec::{hex_decoded, law_hex_is_read_back, HexError};
use crate::command::text_result;
use crate::error::{Error, ErrorView};
use crate::number::{hex_digit, lower_hex};
use crate::text::{
    begins, chars, contains, count_prefix, field_after, find, found, has_text, is_space, is_word,
    law_first_occurrence_is_found, law_second_field, law_trimming_takes_both_ends, lemma_find_from,
    lemma_first_word, lemma_found_there, lemma_prefix_len, lemma_prefix_len_unique, lemma_words, lines,
    occurs, prefix_len, remove, second_field, split_lines, split_words, starts_with,
    string, to_chars, trim, trimmed, views, without, words, Class,
};

verus! {

/// What is looked for in the lines of a tool's output.
#[derive(Clone, Copy)]
pub enum Rule {
    /// The destination of the P-CSCF's route.
    Pcscf,
    /// The global address of the IMS interface.
    LocalAddress,
    /// The identifier of the application on the card.
    Aid,
    /// The subscriber's identity.
    Imsi,
    /// The authentication key of a security association.
    Key,
}

/// The first word of `s`.
pub open spec fn first_word(s: Seq<char>) -> Option<Seq<char>> {
    if words(s).len() > 0 {
        Some(words(s)[0])
    } else {
        None
    }
}

/// What follows the first `mark` in `s`, up to the next one.
pub open spec fn after_mark(s: Seq<char>, mark: Seq<char>) -> Option<Seq<char>> {
    match found(s, mark) {
        Some(i) => {
            let t = s.skip((i + mark.len()) as int);
            match found(t, mark) {
                Some(j) => Some(t.take(j as int)),
                None => Some(t),
            }
        },
        None => None,
    }
}

/// `w` without `0x` or `0X` at its start.
pub open spec fn without_0x(w: Seq<char>) -> Seq<char> {
    if begins(w, "0x"@) || begins(w, "0X"@) {
        w.skip(2)
    } else {
        w
    }
}

impl Rule {
    /// What a line holds of what is looked for.
    pub open spec fn picks(self, line: Seq<char>) -> Option<Seq<char>> {
        match self {
            Rule::Pcscf => if has_text(line, "dev wwan1"@) && has_text(line, "2408:8142"@) {
                match first_word(line) {
                    Some(w) => Some(w),
                    None => Some(seq![]),
                }
            } else {
                None
            },
            Rule::LocalAddress => if has_text(line, "scope global"@) && has_text(line, "nodad"@)
                && words(line).len() > 1 {
                let w = words(line)[1];
                Some(w.take(prefix_len(w, Class::IsNot('/')) as int))
            } else {
                None
            },
            Rule::Aid => if has_text(line, "A0:"@) {
                Some(without(trimmed(trimmed(line, Class::Space), Class::Is('`')), ' '))
            } else {
                None
            },
            Rule::Imsi => match second_field(line, ':') {
                Some(f) => if trimmed(f, Class::Space).len() > 0 {
                    Some(trimmed(f, Class::Space))
                } else {
                    None
                },
                None => None,
            },
            Rule::Key => match after_mark(line, "hmac(md5)"@) {
                Some(t) => match first_word(t) {
                    Some(w) => Some(without_0x(w)),
                    None => None,
                },
                None => None,
            },
        }
    }

    /// What the first line that holds it says.
    pub open spec fn first_pick(self, ls: Seq<Seq<char>>) -> Option<Seq<char>>
        decreases ls.len(),
    {
        if ls.len() == 0 {
            None
        } else if self.picks(ls[0]) is Some {
            self.picks(ls[0])
        } else {
            self.first_pick(ls.skip(1))
        }
    }

    /// What is found in a text.
    pub open spec fn found_in(self, s: Seq<char>) -> Option<Seq<char>> {
        self.first_pick(lines(s))
    }

    /// Takes what is looked for out of a line.
    pub fn pick(self, line: &[char]) -> (r: Option<Vec<char>>)
        ensures
            match r {
                Some(v) => self.picks(line@) == Some(v@),
                None => self.picks(line@) is None,
            },
    {
        match self {
            Rule::Pcscf => pick_pcscf(line),
            Rule::LocalAddress => pick_local_address(line),
            Rule::Aid => {
                if contains(line, &chars("A0:")) {
                    let t: &[char] = trim(line, Class::Space);
                    Some(remove(trim(t, Class::Is('`')), ' '))
                } else {
                    None
                }
            },
            Rule::Imsi => match field_after(line, ':') {
                Some(f) => {
                    let t: &[char] = trim(f, Class::Space);
                    if t.len() > 0 {
                        Some(to_chars(t))
                    } else {
                        None
                    }
                },
                None => None,
            },
            Rule::Key => pick_key(line),
        }
    }

    /// Looks for it in the lines of a text.
    pub fn search(self, s: &str) -> (r: Option<String>)
        ensures
            match r {
                Some(v) => self.found_in(s@) == Some(v@),
                None => self.found_in(s@) is None,
            },
    {
        let ls: Vec<Vec<char>> = split_lines(&chars(s));
        let ghost all = lines(s@);
        let len: usize = ls.len();
        let mut i: usize = 0;
        assert(all.skip(0) =~= all);
        while i < len
            invariant
                i <= len,
                len == ls@.len(),
                all == views(ls@),
                all == lines(s@),
                self.first_pick(all.skip(i as int)) == self.found_in(s@),
            decreases len - i,
        {
            proof {
                assert(all.skip(i as int)[0] == ls@[i as int]@);
                assert(all.skip(i as int).skip(1) =~= all.skip(i + 1));
            }
            match self.pick(&ls[i]) {
                Some(v) => {
                    return Some(string(&v));
                },
                None => {
                    i = i + 1;
                },
            }
        }
        assert(all.skip(len as int).len() == 0);
        None
    }
}

fn pick_pcscf(line: &[char]) -> (r: Option<Vec<char>>)
    ensures
        match r {
            Some(v) => Rule::Pcscf.picks(line@) == Some(v@),
            None => Rule::Pcscf.picks(line@) is None,
        },
{
    if contains(line, &chars("dev wwan1")) && contains(line, &chars("2408:8142")) {
        let ws: Vec<Vec<char>> = split_words(line);
        if ws.len() > 0 {
            assert(views(ws@)[0] == ws@[0]@);
            Some(to_chars(&ws[0]))
        } else {
            Some(Vec::new())
        }
    } else {
        None
    }
}

fn pick_local_address(line: &[char]) -> (r: Option<Vec<char>>)
    ensures
        match r {
            Some(v) => Rule::LocalAddress.picks(line@) == Some(v@),
            None => Rule::LocalAddress.picks(line@) is None,
        },
{
    if contains(line, &chars("scope global")) && contains(line, &chars("nodad")) {
        let ws: Vec<Vec<char>> = split_words(line);
        if ws.len() > 1 {
            assert(views(ws@)[1] == ws@[1]@);
            let n: usize = count_prefix(&ws[1], Class::IsNot('/'));
            Some(to_chars(slice_subrange(&ws[1], 0, n)))
        } else {
            None
        }
    } else {
        None
    }
}

fn pick_key(line: &[char]) -> (r: Option<Vec<char>>)
    ensures
        match r {
            Some(v) => Rule::Key.picks(line@) == Some(v@),
            None => Rule::Key.picks(line@) is None,
        },
{
    let mark: Vec<char> = chars("hmac(md5)");
    let len: usize = line.len();
    match find(line, &mark) {
        Some(i) => {
            let t: &[char] = slice_subrange(line, i + mark.len(), len);
            assert(t@ =~= line@.skip(i + mark@.len()));
            let end: usize = match find(t, &mark) {
                Some(j) => j,
                None => t.len(),
            };
            let ghost u = after_mark(line@, "hmac(md5)"@)->0;
            let v: &[char] = slice_subrange(t, 0, end);
            assert(v@ =~= u);
            let ws: Vec<Vec<char>> = split_words(v);
            if ws.len() == 0 {
                return None;
            }
            let w: &Vec<char> = &ws[0];
            assert(views(ws@)[0] == w@);
            proof {
                reveal_strlit("0x");
                reveal_strlit("0X");
            }
            if starts_with(w, &chars("0x")) || starts_with(w, &chars("0X")) {
                let k: Vec<char> = to_chars(slice_subrange(w, 2, w.len()));
                assert(k@ =~= w@.skip(2));
                Some(k)
            } else {
                Some(to_chars(w))
            }
        },
        None => None,
    }
}

impl Rule {
    /// The error where it is not found.
    pub open spec fn missing(self) -> ErrorView {
        match self {
            Rule::Pcscf => ErrorView::NoPcscf,
            Rule::LocalAddress => ErrorView::NoLocalAddress,
            Rule::Aid => ErrorView::NoAid,
            Rule::Imsi => ErrorView::NoImsi,
            Rule::Key => ErrorView::NoKey,
        }
    }

    /// What a command's output gives: an error of the command stands, and so
    /// does what is found.
    pub open spec fn sought(self, output: Result<Seq<char>, ErrorView>) -> Result<
        Seq<char>,
        ErrorView,
    > {
        match output {
            Err(e) => Err(e),
            Ok(s) => match self.found_in(s) {
                Some(v) => Ok(v),
                None => Err(self.missing()),
            },
        }
    }

    /// Looks for it in a command's output.
    pub fn seek(self, output: Result<String, Error>) -> (r: Result<String, Error>)
        ensures
            text_result(r) == self.sought(text_result(output)),
    {
        let s: String = match output {
            Ok(s) => s,
            Err(e) => {
                return Err(e);
            },
        };
        match self.search(&s) {
            Some(v) => Ok(v),
            None => Err(
                match self {
                    Rule::Pcscf => Error::NoPcscf,
                    Rule::LocalAddress => Error::NoLocalAddress,
                    Rule::Aid => Error::NoAid,
                    Rule::Imsi => Error::NoImsi,
                    Rule::Key => Error::NoKey,
                },
            ),
        }
    }
}

/// Finds the P-CSCF in the table of routes.
pub fn discover_pcscf(routes: Result<String, Error>) -> (r: Result<String, Error>)
    ensures
        text_result(r) == Rule::Pcscf.sought(text_result(routes)),
{
    Rule::Pcscf.seek(routes)
}

/// Finds the local address in the list of addresses.
pub fn local_ip(addresses: Result<String, Error>) -> (r: Result<String, Error>)
    ensures
        text_result(r) == Rule::LocalAddress.sought(text_result(addresses)),
{
    Rule::LocalAddress.seek(addresses)
}

/// Finds the application's identifier in the card status.
pub fn read_usim_aid(status: Result<String, Error>) -> (r: Result<String, Error>)
    ensures
        text_result(r) == Rule::Aid.sought(text_result(status)),
{
    Rule::Aid.seek(status)
}

/// Finds the subscriber's identity in the modem's answer.
pub fn read_imsi(answer: Result<String, Error>) -> (r: Result<String, Error>)
    ensures
        text_result(r) == Rule::Imsi.sought(text_result(answer)),
{
    Rule::Imsi.seek(answer)
}

/// What is known of the card.
#[derive(Debug)]
pub struct UsimInfo {
    pub imsi: String,
    pub aid: String,
}

/// What is known of the card, as sequences of characters.
pub struct UsimView {
    pub imsi: Seq<char>,
    pub aid: Seq<char>,
}

impl View for UsimInfo {
    type V = UsimView;

    open spec fn view(&self) -> UsimView {
        UsimView { imsi: self.imsi@, aid: self.aid@ }
    }
}

impl Default for UsimInfo {
    fn default() -> (r: Self)
        ensures
            r@ == (UsimView { imsi: seq![], aid: seq![] }),
    {
        UsimInfo { imsi: String::new(), aid: String::new() }
    }
}

/// The identity that is shown: `?` where the modem gave none.
pub open spec fn shown_imsi(answer: Result<Seq<char>, ErrorView>) -> Seq<char> {
    match Rule::Imsi.sought(answer) {
        Ok(v) => v,
        Err(_) => "?"@,
    }
}

/// The application that is shown: nothing where the modem named none.
pub open spec fn shown_aid(status: Result<Seq<char>, ErrorView>) -> Seq<char> {
    match Rule::Aid.sought(status) {
        Ok(v) => v,
        Err(_) => seq![],
    }
}

/// Reads the identity that is shown out of the modem's answer.
pub fn probe_imsi(answer: Result<String, Error>) -> (r: String)
    ensures
        r@ == shown_imsi(text_result(answer)),
{
    match read_imsi(answer) {
        Ok(v) => v,
        Err(_) => "?".to_owned(),
    }
}

/// Reads the application that is shown out of the card status.
pub fn probe_aid(status: Result<String, Error>) -> (r: String)
    ensures
        r@ == shown_aid(text_result(status)),
{
    match read_usim_aid(status) {
        Ok(v) => v,
        Err(_) => String::new(),
    }
}

/// Puts together what is known of the card. It never fails: what could not be
/// read is shown as `?` or left empty.
pub fn usim_probe(answer: Result<String, Error>, status: Result<String, Error>) -> (r: Result<
    UsimInfo,
    Error,
>)
    ensures
        r matches Ok(u) && u@ == (UsimView {
            imsi: shown_imsi(text_result(answer)),
            aid: shown_aid(text_result(status)),
        }),
{
    Ok(UsimInfo { imsi: probe_imsi(answer), aid: probe_aid(status) })
}

/// What is found stands in one line, and no line before that one holds any.
pub proof fn law_first_line_wins(rule: Rule, s: Seq<char>)
    ensures
        match rule.found_in(s) {
            Some(v) => exists|i: int|
                {
                    &&& 0 <= i < lines(s).len()
                    &&& rule.picks(#[trigger] lines(s)[i]) == Some(v)
                    &&& forall|j: int| 0 <= j < i ==> rule.picks(#[trigger] lines(s)[j]) is None
                },
            None => forall|j: int|
                0 <= j < lines(s).len() ==> rule.picks(#[trigger] lines(s)[j]) is None,
        },
{
    lemma_first_pick(rule, lines(s));
}

proof fn lemma_first_pick(rule: Rule, ls: Seq<Seq<char>>)
    ensures
        match rule.first_pick(ls) {
            Some(v) => exists|i: int|
                {
                    &&& 0 <= i < ls.len()
                    &&& rule.picks(#[trigger] ls[i]) == Some(v)
                    &&& forall|j: int| 0 <= j < i ==> rule.picks(#[trigger] ls[j]) is None
                },
            None => forall|j: int| 0 <= j < ls.len() ==> rule.picks(#[trigger] ls[j]) is None,
        },
    decreases ls.len(),
{
    if ls.len() > 0 {
        if rule.picks(ls[0]) is None {
            let t = ls.skip(1);
            lemma_first_pick(rule, t);
            assert forall|j: int| 1 <= j < ls.len() implies ls[j] == t[j - 1] by {}
            if rule.first_pick(t) is Some {
                let v = rule.first_pick(t)->0;
                let i = choose|i: int|
                    {
                        &&& 0 <= i < t.len()
                        &&& rule.picks(#[trigger] t[i]) == Some(v)
                        &&& forall|j: int| 0 <= j < i ==> rule.picks(#[trigger] t[j]) is None
                    };
                assert(ls[i + 1] == t[i]);
                assert forall|j: int| 0 <= j < i + 1 implies rule.picks(
                    #[trigger] ls[j],
                ) is None by {
                    if j > 0 {
                        assert(ls[j] == t[j - 1]);
                    }
                }
            } else {
                assert forall|j: int| 0 <= j < ls.len() implies rule.picks(
                    #[trigger] ls[j],
                ) is None by {
                    if j > 0 {
                        assert(ls[j] == t[j - 1]);
                    }
                }
            }
        }
    }
}

/// The P-CSCF that is found is one word: never empty, without white space.
pub proof fn law_pcscf_is_a_word(table: Seq<char>)
    ensures
        Rule::Pcscf.sought(Ok(table)) matches Ok(v) ==> is_word(v),
{
    law_first_line_wins(Rule::Pcscf, table);
    if let Some(v) = Rule::Pcscf.found_in(table) {
        let i = choose|i: int|
            {
                &&& 0 <= i < lines(table).len()
                &&& Rule::Pcscf.picks(#[trigger] lines(table)[i]) == Some(v)
                &&& forall|j: int|
                    0 <= j < i ==> Rule::Pcscf.picks(#[trigger] lines(table)[j]) is None
            };
        let l = lines(table)[i];
        lemma_words(l);
        if words(l).len() == 0 {
            reveal_strlit("dev wwan1");
            lemma_find_from(l, "dev wwan1"@, 0);
            let n = found(l, "dev wwan1"@)->0;
            lemma_prefix_len(l, Class::Space);
            assert(prefix_len(l, Class::Space) == l.len());
            assert(l.subrange(n as int, (n + "dev wwan1"@.len()) as int)[0] == 'd');
            assert(l[n as int] == 'd');
            assert(Class::Space.has(l[n as int]));
        }
        assert(words(l)[0] == v);
    }
}

/// The local address that is found holds neither white space nor a prefix length.
pub proof fn law_local_address_is_bare(list: Seq<char>)
    ensures
        Rule::LocalAddress.sought(Ok(list)) matches Ok(v) ==> forall|k: int|
            0 <= k < v.len() ==> !is_space(#[trigger] v[k]) && v[k] != '/',
{
    law_first_line_wins(Rule::LocalAddress, list);
    if let Some(v) = Rule::LocalAddress.found_in(list) {
        let i = choose|i: int|
            {
                &&& 0 <= i < lines(list).len()
                &&& Rule::LocalAddress.picks(#[trigger] lines(list)[i]) == Some(v)
                &&& forall|j: int|
                    0 <= j < i ==> Rule::LocalAddress.picks(#[trigger] lines(list)[j]) is None
            };
        let l = lines(list)[i];
        lemma_words(l);
        let w = words(l)[1];
        lemma_prefix_len(w, Class::IsNot('/'));
        assert forall|k: int| 0 <= k < v.len() implies !is_space(#[trigger] v[k]) && v[k]
            != '/' by {
            assert(v[k] == w[k]);
            assert(Class::IsNot('/').has(w[k]));
        }
    }
}

/// A line that holds a key in hexadecimal, with or without `0x` before it,
/// gives the key back.
pub proof fn law_key_is_read_back(line: Seq<char>, t: Seq<char>, prefix: Seq<char>, key: Seq<u8>)
    requires
        after_mark(line, "hmac(md5)"@) == Some(t),
        prefix == "0x"@ || prefix == "0X"@ || prefix.len() == 0,
        first_word(t) == Some(prefix + lower_hex(key)),
    ensures
        Rule::Key.picks(line) == Some(lower_hex(key)),
        hex_decoded(encode_utf8(lower_hex(key))) == Ok::<Seq<u8>, HexError>(key),
{
    let h = lower_hex(key);
    let w = prefix + h;
    reveal_strlit("0x");
    reveal_strlit("0X");
    if prefix.len() == 0 {
        assert(w =~= h);
        if begins(w, "0x"@) || begins(w, "0X"@) {
            assert(w.take(2)[1] == w[1]);
            assert(h[1] == hex_digit(key[0] as nat % 16));
        }
    } else {
        assert(w.take(2) =~= prefix);
        assert(w.skip(2) =~= h);
    }
    law_hex_is_read_back(key);
}

/// The identity that is shown is never empty.
pub proof fn law_shown_imsi_is_not_empty(answer: Result<Seq<char>, ErrorView>)
    ensures
        shown_imsi(answer).len() > 0,
{
    reveal_strlit("?");
    if let Ok(s) = answer {
        law_first_line_wins(Rule::Imsi, s);
    }
}

/// A line of the table that leads to the P-CSCF: both texts occur in it.
pub open spec fn is_pcscf_route(line: Seq<char>) -> bool {
    occurs(line, "dev wwan1"@) && occurs(line, "2408:8142"@)
}

/// The P-CSCF is the first word of the first line in which both `dev wwan1` and
/// `2408:8142` occur. It is found exactly if there is such a line.
pub proof fn law_pcscf_is_behind_its_route(table: Seq<char>)
    ensures
        match Rule::Pcscf.sought(Ok(table)) {
            Ok(v) => exists|i: int|
                {
                    &&& 0 <= i < lines(table).len()
                    &&& occurs(#[trigger] lines(table)[i], "dev wwan1"@)
                    &&& occurs(lines(table)[i], "2408:8142"@)
                    &&& words(lines(table)[i]).len() > 0
                    &&& v == words(lines(table)[i])[0]
                    &&& forall|j: int|
                        0 <= j < i ==> !(occurs(#[trigger] lines(table)[j], "dev wwan1"@) && occurs(
                            lines(table)[j],
                            "2408:8142"@,
                        ))
                },
            Err(e) => e == ErrorView::NoPcscf && forall|j: int|
                0 <= j < lines(table).len() ==> !(occurs(#[trigger] lines(table)[j], "dev wwan1"@)
                    && occurs(lines(table)[j], "2408:8142"@)),
        },
{
    let ls = lines(table);
    law_first_line_wins(Rule::Pcscf, table);
    assert forall|j: int| 0 <= j < ls.len() implies (Rule::Pcscf.picks(#[trigger] ls[j]) is Some <==>
        is_pcscf_route(ls[j])) by {
        law_first_occurrence_is_found(ls[j], "dev wwan1"@);
        law_first_occurrence_is_found(ls[j], "2408:8142"@);
    }
    match Rule::Pcscf.found_in(table) {
        Some(v) => {
            law_pcscf_is_a_word(table);
            let i = choose|i: int|
                {
                    &&& 0 <= i < ls.len()
                    &&& Rule::Pcscf.picks(#[trigger] ls[i]) == Some(v)
                    &&& forall|j: int| 0 <= j < i ==> Rule::Pcscf.picks(#[trigger] ls[j]) is None
                };
            assert(is_pcscf_route(ls[i]));
            assert forall|j: int| 0 <= j < i implies !(occurs(#[trigger] ls[j], "dev wwan1"@)
                && occurs(ls[j], "2408:8142"@)) by {
                assert(Rule::Pcscf.picks(ls[j]) is None);
                assert(!is_pcscf_route(ls[j]));
            }
            assert(occurs(ls[i], "dev wwan1"@));
        },
        None => {
            assert forall|j: int| 0 <= j < ls.len() implies !(occurs(
                #[trigger] ls[j],
                "dev wwan1"@,
            ) && occurs(ls[j], "2408:8142"@)) by {
                assert(Rule::Pcscf.picks(ls[j]) is None);
                assert(!is_pcscf_route(ls[j]));
            }
        },
    }
}

/// A line names the local address exactly if both `scope global` and `nodad`
/// occur in it and it has a second word: that word is the address, up to the
/// first slash.
pub proof fn law_line_of_the_local_address(line: Seq<char>)
    ensures
        match Rule::LocalAddress.picks(line) {
            Some(v) => {
                &&& occurs(line, "scope global"@)
                &&& occurs(line, "nodad"@)
                &&& words(line).len() > 1
                &&& v.len() <= words(line)[1].len()
                &&& words(line)[1].take(v.len() as int) == v
                &&& v.len() < words(line)[1].len() ==> words(line)[1][v.len() as int] == '/'
                &&& !v.contains('/')
            },
            None => !occurs(line, "scope global"@) || !occurs(line, "nodad"@) || words(line).len()
                <= 1,
        },
{
    law_first_occurrence_is_found(line, "scope global"@);
    law_first_occurrence_is_found(line, "nodad"@);
    if words(line).len() > 1 {
        let w = words(line)[1];
        lemma_prefix_len(w, Class::IsNot('/'));
        let v = w.take(prefix_len(w, Class::IsNot('/')) as int);
        assert forall|i: int| 0 <= i < v.len() implies v[i] != '/' by {
            assert(Class::IsNot('/').has(w[i]));
        }
    }
}

/// The local address is that of the first line that names one.
pub proof fn law_local_address_is_the_first(list: Seq<char>)
    ensures
        match Rule::LocalAddress.sought(Ok(list)) {
            Ok(v) => exists|i: int|
                {
                    &&& 0 <= i < lines(list).len()
                    &&& occurs(#[trigger] lines(list)[i], "scope global"@)
                    &&& occurs(lines(list)[i], "nodad"@)
                    &&& words(lines(list)[i]).len() > 1
                    &&& v.len() <= words(lines(list)[i])[1].len()
                    &&& words(lines(list)[i])[1].take(v.len() as int) == v
                    &&& forall|j: int|
                        0 <= j < i ==> !occurs(#[trigger] lines(list)[j], "scope global"@)
                            || !occurs(lines(list)[j], "nodad"@) || words(lines(list)[j]).len() <= 1
                },
            Err(e) => e == ErrorView::NoLocalAddress && forall|j: int|
                0 <= j < lines(list).len() ==> !occurs(#[trigger] lines(list)[j], "scope global"@)
                    || !occurs(lines(list)[j], "nodad"@) || words(lines(list)[j]).len() <= 1,
        },
{
    let ls = lines(list);
    law_first_line_wins(Rule::LocalAddress, list);
    match Rule::LocalAddress.found_in(list) {
        Some(v) => {
            let i = choose|i: int|
                {
                    &&& 0 <= i < ls.len()
                    &&& Rule::LocalAddress.picks(#[trigger] ls[i]) == Some(v)
                    &&& forall|j: int|
                        0 <= j < i ==> Rule::LocalAddress.picks(#[trigger] ls[j]) is None
                };
            law_line_of_the_local_address(ls[i]);
            assert forall|j: int| 0 <= j < i implies !occurs(#[trigger] ls[j], "scope global"@)
                || !occurs(ls[j], "nodad"@) || words(ls[j]).len() <= 1 by {
                assert(Rule::LocalAddress.picks(ls[j]) is None);
                law_line_of_the_local_address(ls[j]);
            }
            assert(occurs(ls[i], "scope global"@));
        },
        None => {
            assert forall|j: int| 0 <= j < ls.len() implies !occurs(
                #[trigger] ls[j],
                "scope global"@,
            ) || !occurs(ls[j], "nodad"@) || words(ls[j]).len() <= 1 by {
                assert(Rule::LocalAddress.picks(ls[j]) is None);
                law_line_of_the_local_address(ls[j]);
            }
        },
    }
}

/// A line names the application exactly if `A0:` occurs in it. The name is the
/// line without the white space at its ends, then without the grave accents at
/// its ends, then without every space.
pub proof fn law_line_of_the_application(
    s1: Seq<char>,
    g1: Seq<char>,
    core: Seq<char>,
    g2: Seq<char>,
    s2: Seq<char>,
)
    requires
        forall|i: int| 0 <= i < s1.len() ==> is_space(#[trigger] s1[i]),
        forall|i: int| 0 <= i < s2.len() ==> is_space(#[trigger] s2[i]),
        forall|i: int| 0 <= i < g1.len() ==> #[trigger] g1[i] == '`',
        forall|i: int| 0 <= i < g2.len() ==> #[trigger] g2[i] == '`',
        core.len() > 0,
        core[0] != '`' && core.last() != '`',
        g1.len() == 0 ==> !is_space(core[0]),
        g2.len() == 0 ==> !is_space(core.last()),
    ensures
        ({
            let line = s1 + (g1 + core + g2) + s2;
            Rule::Aid.picks(line) == if occurs(line, "A0:"@) {
                Some(without(core, ' '))
            } else {
                None
            }
        }),
{
    let line = s1 + (g1 + core + g2) + s2;
    law_first_occurrence_is_found(line, "A0:"@);
    let t = g1 + core + g2;
    if g1.len() > 0 {
        assert(t[0] == g1[0]);
    } else {
        assert(t[0] == core[0]);
    }
    if g2.len() > 0 {
        assert(t.last() == g2[g2.len() - 1]);
    } else {
        assert(t.last() == core[core.len() - 1]);
    }
    law_trimming_takes_both_ends(s1, t, s2, Class::Space);
    law_trimming_takes_both_ends(g1, core, g2, Class::Is('`'));
}

/// The identity stands between the first colon of a line and the next one, or
/// the end, without the white space around it. A line without a colon names
/// none, and neither does one with nothing but white space there.
pub proof fn law_line_of_the_identity(
    a: Seq<char>,
    s1: Seq<char>,
    v: Seq<char>,
    s2: Seq<char>,
    rest: Seq<char>,
)
    requires
        forall|i: int| 0 <= i < a.len() ==> #[trigger] a[i] != ':',
        forall|i: int| 0 <= i < s1.len() ==> is_space(#[trigger] s1[i]),
        forall|i: int| 0 <= i < s2.len() ==> is_space(#[trigger] s2[i]),
        forall|i: int| 0 <= i < v.len() ==> #[trigger] v[i] != ':',
        v.len() > 0 ==> !is_space(v[0]) && !is_space(v.last()),
        rest.len() > 0 ==> rest[0] == ':',
    ensures
        Rule::Imsi.picks(a) is None,
        Rule::Imsi.picks(a + seq![':'] + (s1 + v + s2) + rest) == if v.len() > 0 {
            Some(v)
        } else {
            None
        },
{
    let f = s1 + v + s2;
    assert forall|i: int| 0 <= i < f.len() implies #[trigger] f[i] != ':' by {
        if i < s1.len() {
            assert(f[i] == s1[i]);
        } else if i < s1.len() + v.len() {
            assert(f[i] == v[i - s1.len()]);
        } else {
            assert(f[i] == s2[i - s1.len() - v.len()]);
        }
    }
    law_second_field(a, ':', f, rest);
    law_trimming_takes_both_ends(s1, v, s2, Class::Space);
}

/// The key is the first word behind the first `hmac(md5)` of a line, and before
/// the next one, without `0x` or `0X` at its start.
pub proof fn law_line_of_the_key(
    head: Seq<char>,
    lead: Seq<char>,
    w: Seq<char>,
    rest: Seq<char>,
    more: Seq<char>,
)
    requires
        forall|i: int| 0 <= i < lead.len() ==> is_space(#[trigger] lead[i]),
        is_word(w),
        rest.len() > 0 ==> is_space(rest[0]),
        forall|a: Seq<char>, b: Seq<char>|
            head + "hmac(md5)"@ + (lead + w + rest + more) == #[trigger] (a + "hmac(md5)"@ + b)
                ==> head.len() <= a.len(),
        more.len() == 0 && !occurs(lead + w + rest, "hmac(md5)"@) || begins(more, "hmac(md5)"@)
            && forall|a: Seq<char>, b: Seq<char>|
            lead + w + rest + more == #[trigger] (a + "hmac(md5)"@ + b) ==> (lead + w + rest).len()
                <= a.len(),
    ensures
        ({
            let found = Rule::Key.picks(head + "hmac(md5)"@ + (lead + w + rest + more));
            if w.len() >= 2 && w[0] == '0' && (w[1] == 'x' || w[1] == 'X') {
                found == Some(w.skip(2))
            } else {
                found == Some(w)
            }
        }),
{
    let mark = "hmac(md5)"@;
    let t = lead + w + rest;
    let u = t + more;
    let line = head + mark + u;
    lemma_found_there(head, mark, u);
    assert(line.skip((head.len() + mark.len()) as int) =~= u);
    if more.len() == 0 {
        assert(u =~= t);
        law_first_occurrence_is_found(u, mark);
    } else {
        let z = more.skip(mark.len() as int);
        assert(more =~= mark + z);
        assert(u =~= t + mark + z);
        lemma_found_there(t, mark, z);
        assert(u.take(t.len() as int) =~= t);
    }
    assert(after_mark(line, mark) == Some(t));
    lemma_first_word(lead, w, rest);
    assert(first_word(t) == Some(w));
    reveal_strlit("0x");
    reveal_strlit("0X");
    if w.len() >= 2 {
        assert(w.take(2)[0] == w[0] && w.take(2)[1] == w[1]);
        if w[0] == '0' && w[1] == 'x' {
            assert(w.take(2) =~= "0x"@);
        }
        if w[0] == '0' && w[1] == 'X' {
            assert(w.take(2) =~= "0X"@);
        }
    }
}

/// A line in which `hmac(md5)` does not occur holds no key, and neither does one
/// with nothing but white space behind it.
pub proof fn law_line_without_a_key(head: Seq<char>, lead: Seq<char>)
    requires
        forall|i: int| 0 <= i < lead.len() ==> is_space(#[trigger] lead[i]),
        forall|a: Seq<char>, b: Seq<char>|
            head + "hmac(md5)"@ + lead == #[trigger] (a + "hmac(md5)"@ + b) ==> head.len()
                <= a.len(),
    ensures
        !occurs(head, "hmac(md5)"@) ==> Rule::Key.picks(head) is None,
        Rule::Key.picks(head + "hmac(md5)"@ + lead) is None,
{
    let mark = "hmac(md5)"@;
    law_first_occurrence_is_found(head, mark);
    lemma_found_there(head, mark, lead);
    assert((head + mark + lead).skip((head.len() + mark.len()) as int) =~= lead);
    law_first_occurrence_is_found(lead, mark);
    reveal_strlit("hmac(md5)");
    if let Some(n) = found(lead, mark) {
        assert(lead[n as int] == mark[0]);
        assert(is_space(lead[n as int]));
    }
    assert forall|i: int| 0 <= i < lead.len() implies Class::Space.has(#[trigger] lead[i]) by {}
    lemma_prefix_len_unique(lead, Class::Space, lead.len());
    assert(words(lead).len() == 0);
}

/// An error of a command stands. Output in which nothing is found is an error
/// that says what is missing; what is found comes back as it was found.
pub proof fn law_missing_things_are_named(output: Result<Seq<char>, ErrorView>, rule: Rule)
    ensures
        output matches Err(e) ==> rule.sought(output) == Err::<Seq<char>, ErrorView>(e),
        output matches Ok(s) ==> match rule.found_in(s) {
            Some(v) => rule.sought(output) == Ok::<Seq<char>, ErrorView>(v),
            None => rule.sought(output) matches Err(e) && (rule is Pcscf ==> e is NoPcscf) && (
            rule is LocalAddress ==> e is NoLocalAddress) && (rule is Aid ==> e is NoAid) && (
            rule is Imsi ==> e is NoImsi) && (rule is Key ==> e is NoKey),
        },
{
}

/// What the modem does not tell is shown as `?` for the identity, and as
/// nothing for the application; what it tells is shown as it was found.
pub proof fn law_unknown_card_is_shown(output: Result<Seq<char>, ErrorView>)
    ensures
        match output {
            Ok(s) => {
                &&& Rule::Imsi.found_in(s) matches Some(v) ==> shown_imsi(output) == v
                &&& Rule::Imsi.found_in(s) is None ==> shown_imsi(output) == seq!['?']
                &&& Rule::Aid.found_in(s) matches Some(v) ==> shown_aid(output) == v
                &&& Rule::Aid.found_in(s) is None ==> shown_aid(output).len() == 0
            },
            Err(_) => shown_imsi(output) == seq!['?'] && shown_aid(output).len() == 0,
        },
{
    reveal_strlit("?");
    assert("?"@ =~= seq!['?']);
}

} // verus!
