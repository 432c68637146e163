//! The security association that the kernel holds: its key and its ports.
use vstd::prelude::*;
use vstd::utf8::encode_utf8;
use crate::codec::{hex_decode, hex_decoded, law_hex_is_read_back};
use crate::command::text_result;
use crate::discovery::Rule;
use crate::error::{Error, ErrorView};
use crate::number::{decimal, law_port_is_read_back, lower_hex, parse_port, port_value};
use crate::text::{
    chars, contains, has_text, law_first_occurrence_is_found, law_lines_end_at_line_feeds,
    law_lines_of_two_texts, lines, occurs, same, split_lines, split_words, views, words,
};

verus! {

/// The parameters of a security association.
#[derive(Debug)]
pub struct SaParams {
    pub ue_ip: String,
    pub pcscf: String,
    pub ue_send: u16,
    pub ue_recv: u16,
    pub pcscf_send: u16,
    pub pcscf_recv: u16,
    pub esp_key: Vec<u8>,
}

/// The parameters with their text as sequences.
pub struct SaView {
    pub ue_ip: Seq<char>,
    pub pcscf: Seq<char>,
    pub ue_send: u16,
    pub ue_recv: u16,
    pub pcscf_send: u16,
    pub pcscf_recv: u16,
    pub esp_key: Seq<u8>,
}

impl View for SaParams {
    type V = SaView;

    open spec fn view(&self) -> SaView {
        SaView {
            ue_ip: self.ue_ip@,
            pcscf: self.pcscf@,
            ue_send: self.ue_send,
            ue_recv: self.ue_recv,
            pcscf_send: self.pcscf_send,
            pcscf_recv: self.pcscf_recv,
            esp_key: self.esp_key@,
        }
    }
}

/// The ports on both sides; zero where none is known.
#[derive(Debug, Clone, Copy, PartialEq, Eq, Structural)]
pub struct Ports {
    pub ue_send: u16,
    pub ue_recv: u16,
    pub pcscf_send: u16,
    pub pcscf_recv: u16,
}

/// The first place at or after `from` where the word `w` stands.
pub open spec fn position(ws: Seq<Seq<char>>, from: nat, w: Seq<char>) -> Option<nat>
    decreases ws.len() - from,
{
    if from >= ws.len() {
        None
    } else if ws[from as int] == w {
        Some(from)
    } else {
        position(ws, from + 1, w)
    }
}

/// The port behind the first `key` at or after `from`: `known` where there is
/// no `key`, zero where the word behind it is no port, and nothing where no
/// word stands behind it.
pub open spec fn port_behind(ws: Seq<Seq<char>>, from: nat, key: Seq<char>, known: u16) -> Option<u16> {
    match position(ws, from, key) {
        Some(k) => if k + 1 < ws.len() {
            match port_value(ws[k as int + 1]) {
                Some(p) => Some(p),
                None => Some(0),
            }
        } else {
            None
        },
        None => Some(known),
    }
}

/// The ports after the word at `i` has been looked at: `dir out` brings those
/// that requests leave by, `dir in` those that they come back by. Nothing
/// where the line breaks off behind `sport` or `dport`.
pub open spec fn ports_at(ws: Seq<Seq<char>>, i: nat, p: Ports) -> Option<Ports> {
    let sport = "sport"@;
    let dport = "dport"@;
    if ws[i as int] == "dir"@ && ws[i as int + 1] == "out"@ {
        match (port_behind(ws, i + 2, sport, p.ue_send), port_behind(ws, i + 2, dport, p.pcscf_send)) {
            (Some(s), Some(d)) => Some(Ports { ue_send: s, pcscf_send: d, ..p }),
            _ => None,
        }
    } else if ws[i as int] == "dir"@ && ws[i as int + 1] == "in"@ {
        match (port_behind(ws, i + 2, sport, p.pcscf_recv), port_behind(ws, i + 2, dport, p.ue_recv)) {
            (Some(s), Some(d)) => Some(Ports { pcscf_recv: s, ue_recv: d, ..p }),
            _ => None,
        }
    } else {
        Some(p)
    }
}

/// The ports after the words from `i` on have been looked at. The last five
/// words of a line open no direction.
pub open spec fn ports_from(ws: Seq<Seq<char>>, i: nat, p: Ports) -> Option<Ports>
    decreases ws.len() - i,
{
    if i + 5 >= ws.len() {
        Some(p)
    } else {
        match ports_at(ws, i, p) {
            Some(q) => ports_from(ws, i + 1, q),
            None => None,
        }
    }
}

/// A line that speaks of both addresses.
pub open spec fn concerns(line: Seq<char>, pcscf: Seq<char>, ue_ip: Seq<char>) -> bool {
    has_text(line, ue_ip) && has_text(line, pcscf)
}

/// The ports after some lines: only those count that speak of both addresses,
/// and what a later line says stands.
pub open spec fn ports_in(ls: Seq<Seq<char>>, pcscf: Seq<char>, ue_ip: Seq<char>, p: Ports) -> Option<
    Ports,
>
    decreases ls.len(),
{
    if ls.len() == 0 {
        Some(p)
    } else if !concerns(ls[0], pcscf, ue_ip) {
        ports_in(ls.skip(1), pcscf, ue_ip, p)
    } else {
        match ports_from(words(ls[0]), 0, p) {
            Some(q) => ports_in(ls.skip(1), pcscf, ue_ip, q),
            None => None,
        }
    }
}

/// No ports.
pub open spec fn no_ports() -> Ports {
    Ports { ue_send: 0, ue_recv: 0, pcscf_send: 0, pcscf_recv: 0 }
}

/// The ports that the security policies name.
pub open spec fn policy_ports(policy: Seq<char>, pcscf: Seq<char>, ue_ip: Seq<char>) -> Option<Ports> {
    ports_in(lines(policy), pcscf, ue_ip, no_ports())
}

fn find_word(ws: &Vec<Vec<char>>, from: usize, w: &Vec<char>) -> (r: Option<usize>)
    requires
        from <= ws@.len(),
    ensures
        match r {
            Some(k) => position(views(ws@), from as nat, w@) == Some(k as nat) && k < ws@.len(),
            None => position(views(ws@), from as nat, w@) is None,
        },
{
    let len: usize = ws.len();
    let mut i: usize = from;
    while i < len
        invariant
            i <= len,
            len == ws@.len(),
            position(views(ws@), i as nat, w@) == position(views(ws@), from as nat, w@),
        decreases len - i,
    {
        assert(views(ws@)[i as int] == ws@[i as int]@);
        if same(&ws[i], w) {
            return Some(i);
        }
        i = i + 1;
    }
    None
}

fn read_port(ws: &Vec<Vec<char>>, from: usize, key: &Vec<char>, known: u16) -> (r: Option<u16>)
    requires
        from <= ws@.len(),
    ensures
        r == port_behind(views(ws@), from as nat, key@, known),
{
    let len: usize = ws.len();
    match find_word(ws, from, key) {
        Some(k) => if k + 1 < len {
            assert(views(ws@)[k + 1] == ws@[k + 1]@);
            match parse_port(&ws[k + 1]) {
                Some(p) => Some(p),
                None => Some(0),
            }
        } else {
            None
        },
        None => Some(known),
    }
}

fn read_line(ws: &Vec<Vec<char>>, known: Ports) -> (r: Option<Ports>)
    ensures
        r == ports_from(views(ws@), 0, known),
{
    let dir: Vec<char> = chars("dir");
    let out: Vec<char> = chars("out");
    let back: Vec<char> = chars("in");
    let sport: Vec<char> = chars("sport");
    let dport: Vec<char> = chars("dport");
    let len: usize = ws.len();
    let mut p: Ports = known;
    let mut i: usize = 0;
    let ghost all = views(ws@);
    while len >= 5 && i < len - 5
        invariant
            i <= len,
            len == ws@.len(),
            all == views(ws@),
            dir@ == "dir"@,
            out@ == "out"@,
            back@ == "in"@,
            sport@ == "sport"@,
            dport@ == "dport"@,
            ports_from(all, i as nat, p) == ports_from(all, 0, known),
        decreases len - i,
    {
        assert(all[i as int] == ws@[i as int]@);
        assert(all[i + 1] == ws@[i + 1]@);
        if same(&ws[i], &dir) && same(&ws[i + 1], &out) {
            match (
                read_port(ws, i + 2, &sport, p.ue_send),
                read_port(ws, i + 2, &dport, p.pcscf_send),
            ) {
                (Some(s), Some(d)) => {
                    p = Ports { ue_send: s, pcscf_send: d, ..p };
                },
                _ => {
                    return None;
                },
            }
        } else if same(&ws[i], &dir) && same(&ws[i + 1], &back) {
            match (
                read_port(ws, i + 2, &sport, p.pcscf_recv),
                read_port(ws, i + 2, &dport, p.ue_recv),
            ) {
                (Some(s), Some(d)) => {
                    p = Ports { pcscf_recv: s, ue_recv: d, ..p };
                },
                _ => {
                    return None;
                },
            }
        }
        i = i + 1;
    }
    Some(p)
}

/// Reads the ports out of the security policies. Gives nothing where a line
/// that counts breaks off behind `sport` or `dport`.
pub fn read_ports(policy: &str, pcscf: &str, ue_ip: &str) -> (r: Option<Ports>)
    ensures
        r == policy_ports(policy@, pcscf@, ue_ip@),
{
    let ls: Vec<Vec<char>> = split_lines(&chars(policy));
    let ue: Vec<char> = chars(ue_ip);
    let peer: Vec<char> = chars(pcscf);
    let mut p: Ports = Ports { ue_send: 0, ue_recv: 0, pcscf_send: 0, pcscf_recv: 0 };
    let len: usize = ls.len();
    let mut i: usize = 0;
    let ghost all = lines(policy@);
    assert(all.skip(0) =~= all);
    while i < len
        invariant
            i <= len,
            len == ls@.len(),
            all == views(ls@),
            ue@ == ue_ip@,
            peer@ == pcscf@,
            ports_in(all.skip(i as int), pcscf@, ue_ip@, p) == policy_ports(
                policy@,
                pcscf@,
                ue_ip@,
            ),
        decreases len - i,
    {
        let line: &Vec<char> = &ls[i];
        proof {
            assert(all.skip(i as int)[0] == line@);
            assert(all.skip(i as int).skip(1) =~= all.skip(i + 1));
        }
        if contains(line, &ue) && contains(line, &peer) {
            match read_line(&split_words(line), p) {
                Some(q) => {
                    p = q;
                },
                None => {
                    return None;
                },
            }
        }
        i = i + 1;
    }
    assert(all.skip(len as int).len() == 0);
    Some(p)
}

/// The security association that the kernel's lists describe, or an error.
/// Nothing where there is a key and the policies break off.
pub open spec fn sa_in(state: Seq<char>, policy: Seq<char>, pcscf: Seq<char>, ue_ip: Seq<char>) -> Option<
    Result<SaView, ErrorView>,
> {
    match Rule::Key.found_in(state) {
        None => Some(Err(ErrorView::NoKey)),
        Some(k) => match hex_decoded(encode_utf8(k)) {
            Err(e) => Some(Err(ErrorView::Key(e))),
            Ok(key) => match policy_ports(policy, pcscf, ue_ip) {
                None => None,
                Some(p) => Some(
                    Ok(
                        SaView {
                            ue_ip,
                            pcscf,
                            ue_send: p.ue_send,
                            ue_recv: p.ue_recv,
                            pcscf_send: p.pcscf_send,
                            pcscf_recv: p.pcscf_recv,
                            esp_key: key,
                        },
                    ),
                ),
            },
        },
    }
}

/// The view of a result that holds a security association.
pub open spec fn sa_result(r: Result<SaParams, Error>) -> Result<SaView, ErrorView> {
    match r {
        Ok(sa) => Ok(sa@),
        Err(e) => Err(e@),
    }
}

/// Reads the security association, if the policies do not break off.
pub fn read_sa(state: &str, policy: &str, pcscf: &str, ue_ip: &str) -> (r: Option<
    Result<SaParams, Error>,
>)
    ensures
        match r {
            Some(v) => sa_in(state@, policy@, pcscf@, ue_ip@) == Some(sa_result(v)),
            None => sa_in(state@, policy@, pcscf@, ue_ip@) is None,
        },
{
    let key: String = match Rule::Key.search(state) {
        Some(k) => k,
        None => {
            return Some(Err(Error::NoKey));
        },
    };
    match hex_decode(key.as_str().as_bytes()) {
        Err(e) => Some(Err(Error::Key(e))),
        Ok(esp_key) => match read_ports(policy, pcscf, ue_ip) {
            None => None,
            Some(p) => Some(
                Ok(
                    SaParams {
                        ue_ip: ue_ip.to_owned(),
                        pcscf: pcscf.to_owned(),
                        ue_send: p.ue_send,
                        ue_recv: p.ue_recv,
                        pcscf_send: p.pcscf_send,
                        pcscf_recv: p.pcscf_recv,
                        esp_key,
                    },
                ),
            ),
        },
    }
}

/// Reads the security association out of the kernel's lists.
pub fn parse_legacy(state: &str, policy: &str, pcscf: &str, ue_ip: &str) -> (r: Result<
    SaParams,
    Error,
>)
    requires
        sa_in(state@, policy@, pcscf@, ue_ip@) is Some,
    ensures
        sa_in(state@, policy@, pcscf@, ue_ip@) == Some(sa_result(r)),
{
    read_sa(state, policy, pcscf, ue_ip).unwrap()
}

/// The security association that two commands' output describes: an error of
/// a command stands, the first one first.
pub open spec fn sa_of(
    states: Result<Seq<char>, ErrorView>,
    policies: Result<Seq<char>, ErrorView>,
    pcscf: Seq<char>,
    ue_ip: Seq<char>,
) -> Option<Result<SaView, ErrorView>> {
    match (states, policies) {
        (Err(e), _) => Some(Err(e)),
        (_, Err(e)) => Some(Err(e)),
        (Ok(s), Ok(p)) => sa_in(s, p, pcscf, ue_ip),
    }
}

impl SaParams {
    /// Reads the security association with a P-CSCF out of the kernel's lists
    /// of states and policies.
    pub fn from_legacy(
        pcscf: &str,
        ue_ip: &str,
        states: Result<String, Error>,
        policies: Result<String, Error>,
    ) -> (r: Result<Self, Error>)
        requires
            sa_of(text_result(states), text_result(policies), pcscf@, ue_ip@) is Some,
        ensures
            sa_of(text_result(states), text_result(policies), pcscf@, ue_ip@) == Some(
                sa_result(r),
            ),
    {
        match (states, policies) {
            (Err(e), _) => Err(e),
            (_, Err(e)) => Err(e),
            (Ok(s), Ok(p)) => parse_legacy(&s, &p, pcscf, ue_ip),
        }
    }
}

/// Words that open no direction change nothing.
proof fn lemma_no_direction(ws: Seq<Seq<char>>, i: nat, end: nat, p: Ports)
    requires
        i <= end,
        forall|m: int| i <= m < end && m < ws.len() ==> #[trigger] ws[m] != "dir"@,
    ensures
        end + 5 < ws.len() ==> ports_from(ws, i, p) == ports_from(ws, end, p),
        end + 5 >= ws.len() ==> ports_from(ws, i, p) == Some(p),
    decreases end - i,
{
    if i < end && i + 5 < ws.len() {
        assert(ws[i as int] != "dir"@);
        lemma_no_direction(ws, i + 1, end, p);
    }
}

/// The ports that a policy for one direction brings: `s` is the port it comes
/// from, `d` the port it goes to.
pub open spec fn with_ports(p: Ports, outgoing: bool, s: u16, d: u16) -> Ports {
    if outgoing {
        Ports { ue_send: s, pcscf_send: d, ..p }
    } else {
        Ports { pcscf_recv: s, ue_recv: d, ..p }
    }
}

/// A policy with one direction, five words or more behind it, and both ports
/// in decimal gives back the ports that it was written with.
pub proof fn law_policy_is_read_back(
    ws: Seq<Seq<char>>,
    i: nat,
    j: nat,
    k: nat,
    outgoing: bool,
    s: u16,
    d: u16,
    p: Ports,
)
    requires
        i + 5 < ws.len(),
        forall|m: int| 0 <= m < ws.len() && m != i ==> #[trigger] ws[m] != "dir"@,
        ws[i as int] == "dir"@,
        ws[i as int + 1] == if outgoing {
            "out"@
        } else {
            "in"@
        },
        position(ws, i + 2, "sport"@) == Some(j),
        position(ws, i + 2, "dport"@) == Some(k),
        j + 1 < ws.len(),
        k + 1 < ws.len(),
        ws[j as int + 1] == decimal(s as nat),
        ws[k as int + 1] == decimal(d as nat),
    ensures
        ports_from(ws, 0, p) == Some(with_ports(p, outgoing, s, d)),
{
    reveal_strlit("in");
    reveal_strlit("out");
    law_port_is_read_back(s);
    law_port_is_read_back(d);
    let q = with_ports(p, outgoing, s, d);
    lemma_no_direction(ws, 0, i, p);
    assert("in"@.len() != "out"@.len());
    assert(ports_at(ws, i, p) == Some(q));
    lemma_no_direction(ws, i + 1, ws.len(), q);
}

/// Policies that do not speak of both addresses change nothing.
pub proof fn law_other_policies_do_not_count(
    ls: Seq<Seq<char>>,
    pcscf: Seq<char>,
    ue_ip: Seq<char>,
    p: Ports,
)
    requires
        forall|i: int| 0 <= i < ls.len() ==> !concerns(#[trigger] ls[i], pcscf, ue_ip),
    ensures
        ports_in(ls, pcscf, ue_ip, p) == Some(p),
    decreases ls.len(),
{
    if ls.len() > 0 {
        let t = ls.skip(1);
        assert forall|i: int| 0 <= i < t.len() implies !concerns(
            #[trigger] t[i],
            pcscf,
            ue_ip,
        ) by {
            assert(t[i] == ls[i + 1]);
        }
        law_other_policies_do_not_count(t, pcscf, ue_ip, p);
    }
}

/// The first `w` at or after `from` stands at `k`.
pub open spec fn stands_first(ws: Seq<Seq<char>>, from: int, w: Seq<char>, k: int) -> bool {
    &&& from <= k < ws.len()
    &&& ws[k] == w
    &&& forall|m: int| from <= m < k ==> #[trigger] ws[m] != w
}

proof fn lemma_position(ws: Seq<Seq<char>>, from: nat, w: Seq<char>)
    ensures
        match position(ws, from, w) {
            Some(k) => stands_first(ws, from as int, w, k as int),
            None => forall|m: int| from <= m < ws.len() ==> #[trigger] ws[m] != w,
        },
    decreases ws.len() - from,
{
    if from < ws.len() && ws[from as int] != w {
        lemma_position(ws, from + 1, w);
    }
}

/// The port behind a word is that of the word behind its first place: zero
/// where that is no port. Without the word, the port stays as it was known,
/// and where nothing stands behind its first place, there is none.
pub proof fn law_port_stands_behind_its_word(
    ws: Seq<Seq<char>>,
    from: nat,
    key: Seq<char>,
    known: u16,
    k: int,
)
    ensures
        (forall|m: int| from <= m < ws.len() ==> #[trigger] ws[m] != key) ==> port_behind(
            ws,
            from,
            key,
            known,
        ) == Some(known),
        stands_first(ws, from as int, key, k) && k + 1 < ws.len() ==> port_behind(
            ws,
            from,
            key,
            known,
        ) == Some(
            match port_value(ws[k + 1]) {
                Some(p) => p,
                None => 0,
            },
        ),
        stands_first(ws, from as int, key, ws.len() - 1) ==> port_behind(
            ws,
            from,
            key,
            known,
        ) is None,
{
    lemma_position(ws, from, key);
    if let Some(m) = position(ws, from, key) {
        assert(ws[m as int] == key);
        if stands_first(ws, from as int, key, k) {
            assert(ws[k] == key);
            assert(m == k);
        }
        if stands_first(ws, from as int, key, ws.len() - 1) {
            assert(ws[ws.len() - 1] == key);
            assert(m == ws.len() - 1);
        }
    } else if stands_first(ws, from as int, key, k) {
        assert(ws[k] == key);
    }
}

/// A line whose words open one direction, five words or more before its end,
/// brings the two ports behind that: an outgoing policy the port that requests
/// leave by and the P-CSCF's port that they go to, an incoming one the P-CSCF's
/// port that they come from and the port that they come back to. The other two
/// ports stay as they were.
pub proof fn law_direction_names_its_ports(
    ws: Seq<Seq<char>>,
    i: int,
    sport: int,
    dport: int,
    s: u16,
    d: u16,
    p: Ports,
)
    requires
        0 <= i,
        i + 5 < ws.len(),
        ws[i] == "dir"@,
        forall|m: int| 0 <= m < ws.len() && m != i ==> #[trigger] ws[m] != "dir"@,
        stands_first(ws, i + 2, "sport"@, sport),
        stands_first(ws, i + 2, "dport"@, dport),
        sport + 1 < ws.len(),
        dport + 1 < ws.len(),
        ws[sport + 1] == decimal(s as nat),
        ws[dport + 1] == decimal(d as nat),
    ensures
        ws[i + 1] == "out"@ ==> (ports_from(ws, 0, p) matches Some(q) && q.ue_send == s
            && q.pcscf_send == d && q.ue_recv == p.ue_recv && q.pcscf_recv == p.pcscf_recv),
        ws[i + 1] == "in"@ ==> (ports_from(ws, 0, p) matches Some(q) && q.pcscf_recv == s
            && q.ue_recv == d && q.ue_send == p.ue_send && q.pcscf_send == p.pcscf_send),
        ws[i + 1] != "out"@ && ws[i + 1] != "in"@ ==> ports_from(ws, 0, p) == Some(p),
{
    reveal_strlit("in");
    reveal_strlit("out");
    assert("in"@.len() != "out"@.len());
    law_port_is_read_back(s);
    law_port_is_read_back(d);
    let n = i as nat;
    law_port_stands_behind_its_word(ws, n + 2, "sport"@, p.ue_send, sport);
    law_port_stands_behind_its_word(ws, n + 2, "dport"@, p.pcscf_send, dport);
    law_port_stands_behind_its_word(ws, n + 2, "sport"@, p.pcscf_recv, sport);
    law_port_stands_behind_its_word(ws, n + 2, "dport"@, p.ue_recv, dport);
    lemma_no_direction(ws, 0, n, p);
    if let Some(q) = ports_at(ws, n, p) {
        lemma_no_direction(ws, n + 1, ws.len(), q);
    }
}

/// A line whose direction is followed by neither `sport` nor `dport` leaves all
/// ports as they were, and so does one that opens a direction only in its last
/// five words, or none.
pub proof fn law_line_without_ports_leaves_them(ws: Seq<Seq<char>>, i: int, p: Ports)
    requires
        0 <= i <= ws.len(),
        forall|m: int| 0 <= m < ws.len() && m != i && m + 5 < ws.len() ==> #[trigger] ws[m] != "dir"@,
        i + 5 < ws.len() ==> forall|m: int|
            i + 2 <= m < ws.len() ==> #[trigger] ws[m] != "sport"@ && ws[m] != "dport"@,
    ensures
        ports_from(ws, 0, p) == Some(p),
{
    let n = i as nat;
    if i + 5 < ws.len() {
        lemma_no_direction(ws, 0, n, p);
        law_port_stands_behind_its_word(ws, n + 2, "sport"@, p.ue_send, 0);
        law_port_stands_behind_its_word(ws, n + 2, "dport"@, p.pcscf_send, 0);
        law_port_stands_behind_its_word(ws, n + 2, "sport"@, p.pcscf_recv, 0);
        law_port_stands_behind_its_word(ws, n + 2, "dport"@, p.ue_recv, 0);
        assert(ports_at(ws, n, p) == Some(p));
        lemma_no_direction_before(ws, n + 1, p);
    } else {
        lemma_no_direction_before(ws, 0, p);
    }
}

proof fn lemma_no_direction_before(ws: Seq<Seq<char>>, i: nat, p: Ports)
    requires
        forall|m: int| i <= m && m + 5 < ws.len() ==> #[trigger] ws[m] != "dir"@,
    ensures
        ports_from(ws, i, p) == Some(p),
    decreases ws.len() - i,
{
    if i + 5 < ws.len() {
        assert(ws[i as int] != "dir"@);
        lemma_no_direction_before(ws, i + 1, p);
    }
}

/// A line that breaks off behind the `sport` or `dport` of a direction leaves
/// no ports at all.
pub proof fn law_broken_line_leaves_no_ports(ws: Seq<Seq<char>>, i: int, p: Ports)
    requires
        0 <= i,
        i + 5 < ws.len(),
        ws[i] == "dir"@,
        ws[i + 1] == "out"@ || ws[i + 1] == "in"@,
        forall|m: int| 0 <= m < i ==> #[trigger] ws[m] != "dir"@,
        stands_first(ws, i + 2, "sport"@, ws.len() - 1) || stands_first(
            ws,
            i + 2,
            "dport"@,
            ws.len() - 1,
        ),
    ensures
        ports_from(ws, 0, p) is None,
{
    reveal_strlit("in");
    reveal_strlit("out");
    assert("in"@.len() != "out"@.len());
    let n = i as nat;
    law_port_stands_behind_its_word(ws, n + 2, "sport"@, p.ue_send, 0);
    law_port_stands_behind_its_word(ws, n + 2, "dport"@, p.pcscf_send, 0);
    law_port_stands_behind_its_word(ws, n + 2, "sport"@, p.pcscf_recv, 0);
    law_port_stands_behind_its_word(ws, n + 2, "dport"@, p.ue_recv, 0);
    lemma_no_direction(ws, 0, n, p);
}

/// Policies are read one after the other: the ports that the first ones leave
/// are what the later ones change.
pub proof fn law_policies_are_read_in_order(
    a: Seq<Seq<char>>,
    b: Seq<Seq<char>>,
    pcscf: Seq<char>,
    ue_ip: Seq<char>,
    p: Ports,
)
    ensures
        ports_in(a + b, pcscf, ue_ip, p) == (match ports_in(a, pcscf, ue_ip, p) {
            Some(q) => ports_in(b, pcscf, ue_ip, q),
            None => None,
        }),
    decreases a.len(),
{
    if a.len() == 0 {
        assert(a + b =~= b);
    } else {
        assert((a + b).skip(1) =~= a.skip(1) + b);
        let q = if concerns(a[0], pcscf, ue_ip) {
            ports_from(words(a[0]), 0, p)
        } else {
            Some(p)
        };
        if let Some(q) = q {
            law_policies_are_read_in_order(a.skip(1), b, pcscf, ue_ip, q);
        }
    }
}

/// A line in which the local address does not occur leaves all four ports as
/// they were, wherever it stands, and so does a line in which the P-CSCF's
/// address does not occur.
pub proof fn law_other_lines_leave_the_ports(
    before: Seq<Seq<char>>,
    line: Seq<char>,
    after: Seq<Seq<char>>,
    pcscf: Seq<char>,
    ue_ip: Seq<char>,
    p: Ports,
)
    requires
        !occurs(line, ue_ip) || !occurs(line, pcscf),
    ensures
        ports_in(seq![line], pcscf, ue_ip, p) == Some(p),
        ports_in(before + seq![line] + after, pcscf, ue_ip, p) == ports_in(
            before + after,
            pcscf,
            ue_ip,
            p,
        ),
{
    law_first_occurrence_is_found(line, ue_ip);
    law_first_occurrence_is_found(line, pcscf);
    let ls = before + seq![line] + after;
    let tail = seq![line] + after;
    assert(ls =~= before + tail);
    assert(tail.skip(1) =~= after);
    reveal_with_fuel(ports_in, 2);
    assert(seq![line].skip(1) =~= Seq::<Seq<char>>::empty());
    law_policies_are_read_in_order(before, tail, pcscf, ue_ip, p);
    law_policies_are_read_in_order(before, after, pcscf, ue_ip, p);
}

/// A line in which both addresses occur changes the ports as its words say.
pub proof fn law_lines_of_both_addresses_count(
    line: Seq<char>,
    pcscf: Seq<char>,
    ue_ip: Seq<char>,
    p: Ports,
)
    requires
        occurs(line, ue_ip),
        occurs(line, pcscf),
    ensures
        ports_in(seq![line], pcscf, ue_ip, p) == ports_from(words(line), 0, p),
{
    law_first_occurrence_is_found(line, ue_ip);
    law_first_occurrence_is_found(line, pcscf);
    reveal_with_fuel(ports_in, 2);
    assert(seq![line].skip(1) =~= Seq::<Seq<char>>::empty());
}

/// Taking a line out of the policies changes nothing, if the local address does
/// not occur in it, or the P-CSCF's address does not.
pub proof fn law_other_policy_lines_do_not_count(
    a: Seq<char>,
    line: Seq<char>,
    b: Seq<char>,
    pcscf: Seq<char>,
    ue_ip: Seq<char>,
)
    requires
        a.len() > 0 ==> a.last() == '\n',
        forall|i: int| 0 <= i < line.len() ==> #[trigger] line[i] != '\n',
        !occurs(line, ue_ip) || !occurs(line, pcscf),
    ensures
        policy_ports(a + (line + seq!['\n']) + b, pcscf, ue_ip) == policy_ports(
            a + b,
            pcscf,
            ue_ip,
        ),
{
    let l = line + seq!['\n'];
    assert(a + l + b =~= a + (l + b));
    law_lines_of_two_texts(a, l + b);
    law_lines_of_two_texts(a, b);
    if line.len() > 0 && line.last() == '\r' {
        let t = line.drop_last();
        assert forall|i: int| 0 <= i < t.len() implies #[trigger] t[i] != '\n' by {
            assert(t[i] == line[i]);
        }
        law_lines_end_at_line_feeds(t, b);
        assert(t + seq!['\r', '\n'] + b =~= l + b);
        lemma_occurs_in_longer(t, seq!['\r'], ue_ip);
        lemma_occurs_in_longer(t, seq!['\r'], pcscf);
        assert(t + seq!['\r'] =~= line);
        law_other_lines_leave_the_ports(lines(a), t, lines(b), pcscf, ue_ip, no_ports());
        assert(lines(a) + (seq![t] + lines(b)) =~= lines(a) + seq![t] + lines(b));
    } else {
        law_lines_end_at_line_feeds(line, b);
        law_other_lines_leave_the_ports(lines(a), line, lines(b), pcscf, ue_ip, no_ports());
        assert(lines(a) + (seq![line] + lines(b)) =~= lines(a) + seq![line] + lines(b));
    }
}

proof fn lemma_occurs_in_longer(s: Seq<char>, more: Seq<char>, pat: Seq<char>)
    ensures
        occurs(s, pat) ==> occurs(s + more, pat),
{
    if occurs(s, pat) {
        let (a, b) = choose|a: Seq<char>, b: Seq<char>| s == #[trigger] (a + pat + b);
        assert(s + more =~= a + pat + (b + more));
    }
}

/// Policies that name no ports leave all four at zero.
pub proof fn law_ports_start_at_zero(policy: Seq<char>, pcscf: Seq<char>, ue_ip: Seq<char>)
    requires
        forall|i: int|
            0 <= i < lines(policy).len() ==> !occurs(#[trigger] lines(policy)[i], ue_ip) || !occurs(
                lines(policy)[i],
                pcscf,
            ),
    ensures
        policy_ports(policy, pcscf, ue_ip) matches Some(p) && p.ue_send == 0 && p.ue_recv == 0
            && p.pcscf_send == 0 && p.pcscf_recv == 0,
{
    let ls = lines(policy);
    assert forall|i: int| 0 <= i < ls.len() implies !concerns(#[trigger] ls[i], pcscf, ue_ip) by {
        law_first_occurrence_is_found(ls[i], ue_ip);
        law_first_occurrence_is_found(ls[i], pcscf);
    }
    law_other_policies_do_not_count(ls, pcscf, ue_ip, no_ports());
}

/// A security association joins the two addresses, the key that the states
/// hold in hexadecimal and the ports that the policies name. A missing key is
/// an error, and so is one that is no hexadecimal text, whatever the policies
/// say.
pub proof fn law_association_is_joined(
    state: Seq<char>,
    policy: Seq<char>,
    pcscf: Seq<char>,
    ue_ip: Seq<char>,
    key: Seq<u8>,
)
    ensures
        Rule::Key.found_in(state) is None ==> sa_in(state, policy, pcscf, ue_ip) == Some(
            Err::<SaView, ErrorView>(ErrorView::NoKey),
        ),
        Rule::Key.found_in(state) matches Some(k) ==> (hex_decoded(encode_utf8(k)) matches Err(e)
            ==> sa_in(state, policy, pcscf, ue_ip) == Some(
            Err::<SaView, ErrorView>(ErrorView::Key(e)),
        )),
        Rule::Key.found_in(state) == Some(lower_hex(key)) ==> match policy_ports(
            policy,
            pcscf,
            ue_ip,
        ) {
            Some(p) => sa_in(state, policy, pcscf, ue_ip) matches Some(Ok(sa)) && sa.ue_ip == ue_ip
                && sa.pcscf == pcscf && sa.esp_key == key && sa.ue_send == p.ue_send && sa.ue_recv
                == p.ue_recv && sa.pcscf_send == p.pcscf_send && sa.pcscf_recv == p.pcscf_recv,
            None => sa_in(state, policy, pcscf, ue_ip) is None,
        },
{
    law_hex_is_read_back(key);
}

/// An error of the command that lists the states stands, then one of that
/// which lists the policies.
pub proof fn law_listing_errors_stand(
    states: Result<Seq<char>, ErrorView>,
    policies: Result<Seq<char>, ErrorView>,
    pcscf: Seq<char>,
    ue_ip: Seq<char>,
)
    ensures
        states matches Err(e) ==> sa_of(states, policies, pcscf, ue_ip) == Some(
            Err::<SaView, ErrorView>(e),
        ),
        states is Ok ==> (policies matches Err(e) ==> sa_of(states, policies, pcscf, ue_ip) == Some(
            Err::<SaView, ErrorView>(e),
        )),
        states matches Ok(s) ==> (policies matches Ok(p) ==> sa_of(states, policies, pcscf, ue_ip)
            == sa_in(s, p, pcscf, ue_ip)),
{
}

/// Looking at the words of a line from its start comes to looking at them from
/// a later word, with the ports that the words before it leave.
proof fn lemma_ports_reach(ws: Seq<Seq<char>>, i: nat, n: nat, p: Ports) -> (q: Ports)
    requires
        i <= n,
        n + 5 < ws.len(),
        ports_from(ws, i, p) is Some,
    ensures
        ports_from(ws, i, p) == ports_from(ws, n, q),
    decreases n - i,
{
    if i < n {
        lemma_ports_reach(ws, i + 1, n, ports_at(ws, i, p)->0)
    } else {
        p
    }
}

proof fn lemma_outgoing_ports_stay(ws: Seq<Seq<char>>, i: nat, p: Ports)
    requires
        forall|m: int|
            i <= m && m + 5 < ws.len() ==> !(#[trigger] ws[m] == "dir"@ && ws[m + 1] == "out"@),
    ensures
        ports_from(ws, i, p) matches Some(q) ==> q.ue_send == p.ue_send && q.pcscf_send == p.pcscf_send,
    decreases ws.len() - i,
{
    if i + 5 < ws.len() {
        assert(!(ws[i as int] == "dir"@ && ws[i as int + 1] == "out"@));
        if let Some(q) = ports_at(ws, i, p) {
            lemma_outgoing_ports_stay(ws, i + 1, q);
        }
    }
}

proof fn lemma_incoming_ports_stay(ws: Seq<Seq<char>>, i: nat, p: Ports)
    requires
        forall|m: int|
            i <= m && m + 5 < ws.len() ==> !(#[trigger] ws[m] == "dir"@ && ws[m + 1] == "in"@),
    ensures
        ports_from(ws, i, p) matches Some(q) ==> q.ue_recv == p.ue_recv && q.pcscf_recv == p.pcscf_recv,
    decreases ws.len() - i,
{
    if i + 5 < ws.len() {
        assert(!(ws[i as int] == "dir"@ && ws[i as int + 1] == "in"@));
        if let Some(q) = ports_at(ws, i, p) {
            lemma_incoming_ports_stay(ws, i + 1, q);
        }
    }
}

/// Where a line opens more than one direction, its last outgoing one names the
/// outgoing ports, and its last incoming one the incoming ports.
pub proof fn law_last_direction_stands(
    ws: Seq<Seq<char>>,
    i: int,
    sport: int,
    dport: int,
    s: u16,
    d: u16,
    p: Ports,
)
    requires
        0 <= i,
        i + 5 < ws.len(),
        ws[i] == "dir"@,
        ws[i + 1] == "out"@ || ws[i + 1] == "in"@,
        forall|m: int|
            i < m && m + 5 < ws.len() ==> !(#[trigger] ws[m] == "dir"@ && ws[m + 1] == ws[i + 1]),
        stands_first(ws, i + 2, "sport"@, sport),
        stands_first(ws, i + 2, "dport"@, dport),
        sport + 1 < ws.len(),
        dport + 1 < ws.len(),
        ws[sport + 1] == decimal(s as nat),
        ws[dport + 1] == decimal(d as nat),
        ports_from(ws, 0, p) is Some,
    ensures
        ports_from(ws, 0, p) matches Some(q) && if ws[i + 1] == "out"@ {
            q.ue_send == s && q.pcscf_send == d
        } else {
            q.pcscf_recv == s && q.ue_recv == d
        },
{
    reveal_strlit("in");
    reveal_strlit("out");
    assert("in"@.len() != "out"@.len());
    law_port_is_read_back(s);
    law_port_is_read_back(d);
    let n = i as nat;
    let b = lemma_ports_reach(ws, 0, n, p);
    law_port_stands_behind_its_word(ws, n + 2, "sport"@, b.ue_send, sport);
    law_port_stands_behind_its_word(ws, n + 2, "dport"@, b.pcscf_send, dport);
    law_port_stands_behind_its_word(ws, n + 2, "sport"@, b.pcscf_recv, sport);
    law_port_stands_behind_its_word(ws, n + 2, "dport"@, b.ue_recv, dport);
    let q = ports_at(ws, n, b)->0;
    if ws[i + 1] == "out"@ {
        lemma_outgoing_ports_stay(ws, n + 1, q);
    } else {
        lemma_incoming_ports_stay(ws, n + 1, q);
    }
}

} // verus!
