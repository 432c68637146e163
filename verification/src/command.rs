//! The tools that the daemon runs, and what it makes of their output.
use vstd::prelude::*;
use vstd::utf8::encode_utf8;
use crate::codec::{law_text_is_read_back, text_of, utf8_text};
use crate::error::{Error, ErrorView};
use crate::text::{
    begins, chars, contains, has_text, is_space, law_first_occurrence_is_found,
    law_trimming_takes_both_ends, lines, occurs, split_lines, starts_with, string, trim, trimmed,
    views, Class,
};

verus! {

/// A tool.
#[derive(Debug, Clone, Copy, PartialEq, Eq, Structural)]
pub enum Tool {
    Qmicli,
    Ip,
}

impl Tool {
    pub open spec fn name(self) -> Seq<char> {
        match self {
            Tool::Qmicli => "qmicli"@,
            Tool::Ip => "ip"@,
        }
    }

    /// The name of the program.
    pub fn program(&self) -> (r: String)
        ensures
            r@ == self.name(),
    {
        match self {
            Tool::Qmicli => "qmicli".to_owned(),
            Tool::Ip => "ip".to_owned(),
        }
    }

    /// How many seconds the tool may take.
    pub fn timeout_secs(&self) -> (r: u64)
        ensures
            r == (if self is Qmicli {
                12u64
            } else {
                6u64
            }),
    {
        match self {
            Tool::Qmicli => 12,
            Tool::Ip => 6,
        }
    }
}

/// A call of a tool.
#[derive(Debug, Clone, Copy, PartialEq, Eq, Structural)]
pub enum Command {
    /// Lists the IPv6 routes.
    Routes,
    /// Lists the addresses of the IMS interface.
    Addresses,
    /// Lists the security associations.
    SaStates,
    /// Lists the security policies.
    SaPolicies,
    /// Asks the modem for the applications on the card.
    CardStatus,
    /// Asks the modem for the subscriber's identity.
    Imsi,
}

impl Command {
    pub open spec fn runs(self) -> Tool {
        match self {
            Command::CardStatus | Command::Imsi => Tool::Qmicli,
            _ => Tool::Ip,
        }
    }

    pub open spec fn args(self) -> Seq<Seq<char>> {
        match self {
            Command::Routes => seq!["-6"@, "route"@],
            Command::Addresses => seq!["-6"@, "addr"@, "show"@, "wwan1"@],
            Command::SaStates => seq!["xfrm"@, "state"@],
            Command::SaPolicies => seq!["xfrm"@, "policy"@],
            Command::CardStatus => seq![
                "-d"@,
                "/dev/wwan0at2"@,
                "--device-open-qmi"@,
                "-p"@,
                "--uim-get-card-status"@,
            ],
            Command::Imsi => seq![
                "-d"@,
                "/dev/wwan0at2"@,
                "--device-open-qmi"@,
                "-p"@,
                "--dms-get-imsi"@,
            ],
        }
    }

    /// The call as it is named in an error: the tool, and its arguments in a
    /// list of quoted words.
    pub open spec fn label(self) -> Seq<char> {
        self.runs().name() + "("@ + quoted_list(self.args()) + ")"@
    }

    /// The tool that the command runs.
    pub fn tool(&self) -> (r: Tool)
        ensures
            r == self.runs(),
    {
        match self {
            Command::CardStatus | Command::Imsi => Tool::Qmicli,
            _ => Tool::Ip,
        }
    }

    /// The arguments that the tool is given.
    pub fn arguments(&self) -> (r: Vec<String>)
        ensures
            texts(r@) == self.args(),
    {
        let mut r: Vec<String> = Vec::new();
        match self {
            Command::Routes => {
                r.push("-6".to_owned());
                r.push("route".to_owned());
            },
            Command::Addresses => {
                r.push("-6".to_owned());
                r.push("addr".to_owned());
                r.push("show".to_owned());
                r.push("wwan1".to_owned());
            },
            Command::SaStates => {
                r.push("xfrm".to_owned());
                r.push("state".to_owned());
            },
            Command::SaPolicies => {
                r.push("xfrm".to_owned());
                r.push("policy".to_owned());
            },
            Command::CardStatus => {
                r.push("-d".to_owned());
                r.push("/dev/wwan0at2".to_owned());
                r.push("--device-open-qmi".to_owned());
                r.push("-p".to_owned());
                r.push("--uim-get-card-status".to_owned());
            },
            Command::Imsi => {
                r.push("-d".to_owned());
                r.push("/dev/wwan0at2".to_owned());
                r.push("--device-open-qmi".to_owned());
                r.push("-p".to_owned());
                r.push("--dms-get-imsi".to_owned());
            },
        }
        assert(texts(r@) =~= self.args());
        r
    }

    /// Names the call in an error.
    pub fn describe(&self) -> (r: String)
        ensures
            r@ == self.label(),
    {
        let mut r: String = self.tool().program();
        r.append("(");
        r.append(&quote_list(&self.arguments()));
        r.append(")");
        r
    }
}

/// The texts of a sequence of strings.
pub open spec fn texts(v: Seq<String>) -> Seq<Seq<char>> {
    Seq::new(v.len(), |i: int| v[i]@)
}

/// `parts`, one after the other, with `sep` between them.
pub open spec fn joined(parts: Seq<Seq<char>>, sep: Seq<char>) -> Seq<char>
    decreases parts.len(),
{
    if parts.len() == 0 {
        seq![]
    } else if parts.len() == 1 {
        parts[0]
    } else {
        joined(parts.drop_last(), sep) + sep + parts.last()
    }
}

/// `s` between double quotes.
pub open spec fn quoted(s: Seq<char>) -> Seq<char> {
    "\""@ + s + "\""@
}

/// The quoted words of a list between square brackets.
pub open spec fn quoted_list(v: Seq<Seq<char>>) -> Seq<char> {
    "["@ + joined(Seq::new(v.len(), |i: int| quoted(v[i])), ", "@) + "]"@
}

/// Joins strings with `sep` between them.
pub fn join(parts: &Vec<String>, sep: &str) -> (r: String)
    ensures
        r@ == joined(texts(parts@), sep@),
{
    let mut r: String = String::new();
    let len: usize = parts.len();
    let mut i: usize = 0;
    let ghost all = texts(parts@);
    while i < len
        invariant
            i <= len,
            len == parts@.len(),
            all == texts(parts@),
            r@ == joined(all.take(i as int), sep@),
        decreases len - i,
    {
        if i > 0 {
            r.append(sep);
        }
        r.append(&parts[i]);
        i = i + 1;
        proof {
            let t = all.take(i as int);
            assert(t.drop_last() =~= all.take(i - 1));
            assert(t.last() == parts@[i - 1]@);
            if i == 1 {
                assert(r@ =~= parts@[0]@);
            }
        }
    }
    assert(all.take(len as int) =~= all);
    r
}

fn quote_list(v: &Vec<String>) -> (r: String)
    ensures
        r@ == quoted_list(texts(v@)),
{
    let mut q: Vec<String> = Vec::new();
    let len: usize = v.len();
    let mut i: usize = 0;
    while i < len
        invariant
            i <= len,
            len == v@.len(),
            q@.len() == i,
            forall|j: int| 0 <= j < i ==> (#[trigger] q@[j])@ == quoted(v@[j]@),
        decreases len - i,
    {
        let mut s: String = "\"".to_owned();
        s.append(&v[i]);
        s.append("\"");
        q.push(s);
        i = i + 1;
    }
    proof {
        let t = texts(v@);
        assert(texts(q@) =~= Seq::new(t.len(), |i: int| quoted(t[i])));
    }
    let mut r: String = "[".to_owned();
    r.append(&join(&q, ", "));
    r.append("]");
    r
}

/// How a call ended.
pub enum Outcome {
    /// It did not end in time.
    TimedOut,
    /// It could not be made; the system says why.
    NotRun(String),
    /// It ended with what it wrote.
    Exited { success: bool, stdout: Vec<u8>, stderr: Vec<u8> },
}

/// An outcome with its text as a sequence of characters.
pub enum OutcomeView {
    TimedOut,
    NotRun(Seq<char>),
    Exited { success: bool, stdout: Seq<u8>, stderr: Seq<u8> },
}

impl View for Outcome {
    type V = OutcomeView;

    open spec fn view(&self) -> OutcomeView {
        match self {
            Outcome::TimedOut => OutcomeView::TimedOut,
            Outcome::NotRun(s) => OutcomeView::NotRun(s@),
            Outcome::Exited { success, stdout, stderr } => OutcomeView::Exited {
                success: *success,
                stdout: stdout@,
                stderr: stderr@,
            },
        }
    }
}

/// A line of `qmicli` that says why it failed: neither a log line nor a warning.
pub open spec fn is_complaint(line: Seq<char>) -> bool {
    !begins(line, "["@) && !has_text(line, "Warning"@)
}

/// The lines that say why `qmicli` failed.
pub open spec fn complaints(ls: Seq<Seq<char>>) -> Seq<Seq<char>>
    decreases ls.len(),
{
    if ls.len() == 0 {
        seq![]
    } else if is_complaint(ls.last()) {
        complaints(ls.drop_last()).push(ls.last())
    } else {
        complaints(ls.drop_last())
    }
}

/// Why `qmicli` failed, in its own words.
pub open spec fn complaint(stderr: Seq<char>) -> Seq<char> {
    joined(complaints(lines(stderr)), "\n"@)
}

/// Finds out why `qmicli` failed.
pub fn complain(stderr: &str) -> (r: String)
    ensures
        r@ == complaint(stderr@),
{
    let ls: Vec<Vec<char>> = split_lines(&chars(stderr));
    let mark: Vec<char> = chars("[");
    let warning: Vec<char> = chars("Warning");
    let mut kept: Vec<String> = Vec::new();
    let len: usize = ls.len();
    let mut i: usize = 0;
    let ghost all = lines(stderr@);
    while i < len
        invariant
            i <= len,
            len == ls@.len(),
            all == views(ls@),
            mark@ == "["@,
            warning@ == "Warning"@,
            texts(kept@) == complaints(all.take(i as int)),
        decreases len - i,
    {
        let ghost before = kept@;
        if !starts_with(&ls[i], &mark) && !contains(&ls[i], &warning) {
            kept.push(string(&ls[i]));
            assert(texts(kept@) =~= texts(before).push(all[i as int]));
        }
        i = i + 1;
        proof {
            let t = all.take(i as int);
            assert(t.drop_last() =~= all.take(i - 1));
            assert(t.last() == all[i - 1]);
        }
    }
    assert(all.take(len as int) =~= all);
    join(&kept, "\n")
}

/// What the text that a command wrote amounts to. `ip` fails whenever it says
/// so; `qmicli` only if it also says why.
pub open spec fn judged(command: Command, success: bool, stdout: Seq<char>, stderr: Seq<char>) -> Result<
    Seq<char>,
    ErrorView,
> {
    match command.runs() {
        Tool::Qmicli => if !success && complaint(stderr).len() > 0 {
            Err(ErrorView::Failed { command, detail: complaint(stderr) })
        } else {
            Ok(stdout)
        },
        Tool::Ip => if !success {
            Err(ErrorView::Failed { command, detail: trimmed(stderr, Class::Space) })
        } else {
            Ok(stdout)
        },
    }
}

/// What the outcome of a command amounts to: the text it wrote, or an error.
pub open spec fn output_of(command: Command, outcome: OutcomeView) -> Result<Seq<char>, ErrorView> {
    match outcome {
        OutcomeView::TimedOut => Err(ErrorView::Timeout(command.runs())),
        OutcomeView::NotRun(s) => Err(ErrorView::NotRun(s)),
        OutcomeView::Exited { success, stdout, stderr } => judged(
            command,
            success,
            utf8_text(stdout),
            utf8_text(stderr),
        ),
    }
}

/// The view of a result that holds text.
pub open spec fn text_result(r: Result<String, Error>) -> Result<Seq<char>, ErrorView> {
    match r {
        Ok(s) => Ok(s@),
        Err(e) => Err(e@),
    }
}

/// Judges the text that a command wrote.
pub fn judge(command: Command, success: bool, stdout: String, stderr: &str) -> (r: Result<
    String,
    Error,
>)
    ensures
        text_result(r) == judged(command, success, stdout@, stderr@),
{
    if success {
        return Ok(stdout);
    }
    match command.tool() {
        Tool::Qmicli => {
            let detail: String = complain(stderr);
            if detail.as_str().is_empty() {
                Ok(stdout)
            } else {
                Err(Error::Failed { command, detail })
            }
        },
        Tool::Ip => {
            let cs: Vec<char> = chars(stderr);
            Err(Error::Failed { command, detail: string(trim(&cs, Class::Space)) })
        },
    }
}

/// Judges the outcome of a command.
pub fn output(command: Command, outcome: Outcome) -> (r: Result<String, Error>)
    ensures
        text_result(r) == output_of(command, outcome@),
{
    match outcome {
        Outcome::TimedOut => Err(Error::Timeout(command.tool())),
        Outcome::NotRun(s) => Err(Error::NotRun(s)),
        Outcome::Exited { success, stdout, stderr } => judge(
            command,
            success,
            text_of(&stdout),
            &text_of(&stderr),
        ),
    }
}

/// A line of `qmicli` says why it failed unless it begins with `[` or `Warning`
/// occurs in it. Those lines stay, in their order, and no others.
pub proof fn law_complaints_are_kept_in_order(
    a: Seq<Seq<char>>,
    l: Seq<char>,
    b: Seq<Seq<char>>,
)
    ensures
        complaints(Seq::<Seq<char>>::empty()) == Seq::<Seq<char>>::empty(),
        complaints(a + seq![l] + b) == complaints(a) + (if (l.len() > 0 && l[0] == '[') || occurs(
            l,
            "Warning"@,
        ) {
            seq![]
        } else {
            seq![l]
        }) + complaints(b),
    decreases b.len(),
{
    reveal_strlit("[");
    law_first_occurrence_is_found(l, "Warning"@);
    if l.len() > 0 {
        assert(l.take(1)[0] == l[0]);
        if l[0] == '[' {
            assert(l.take(1) =~= "["@);
        }
    }
    let s = a + seq![l] + b;
    let kept: Seq<Seq<char>> = if is_complaint(l) {
        seq![l]
    } else {
        seq![]
    };
    if b.len() == 0 {
        assert(s.drop_last() =~= a);
        assert(s.last() == l);
        assert(complaints(s) =~= complaints(a) + kept + complaints(b));
    } else {
        let c = b.drop_last();
        law_complaints_are_kept_in_order(a, l, c);
        assert(s.drop_last() =~= a + seq![l] + c);
        assert(s.last() == b.last());
        assert(complaints(s) =~= complaints(a) + kept + complaints(b));
    }
}

/// Joining puts the separator between every two neighbours and nowhere else.
pub proof fn law_joining_separates_neighbours(
    a: Seq<Seq<char>>,
    b: Seq<Seq<char>>,
    one: Seq<char>,
    sep: Seq<char>,
)
    ensures
        joined(Seq::<Seq<char>>::empty(), sep).len() == 0,
        joined(seq![one], sep) == one,
        a.len() > 0 && b.len() > 0 ==> joined(a + b, sep) == joined(a, sep) + sep + joined(b, sep),
    decreases b.len(),
{
    if a.len() > 0 && b.len() > 0 {
        let s = a + b;
        assert(s.drop_last() =~= a + b.drop_last());
        assert(s.last() == b.last());
        if b.len() == 1 {
            assert(a + b.drop_last() =~= a);
        } else {
            law_joining_separates_neighbours(a, b.drop_last(), one, sep);
            assert(joined(s, sep) =~= joined(a, sep) + sep + joined(b, sep));
        }
    }
}

/// A command that succeeds gives what it wrote. One of `ip` that fails is an
/// error with what it wrote about it, without white space around that.
pub proof fn law_ip_fails_when_it_says_so(
    command: Command,
    success: bool,
    stdout: Seq<char>,
    s1: Seq<char>,
    detail: Seq<char>,
    s2: Seq<char>,
)
    requires
        forall|i: int| 0 <= i < s1.len() ==> is_space(#[trigger] s1[i]),
        forall|i: int| 0 <= i < s2.len() ==> is_space(#[trigger] s2[i]),
        detail.len() > 0 ==> !is_space(detail[0]) && !is_space(detail.last()),
    ensures
        success ==> judged(command, success, stdout, s1 + detail + s2) == Ok::<
            Seq<char>,
            ErrorView,
        >(stdout),
        !success && !(command is CardStatus) && !(command is Imsi) ==> judged(
            command,
            success,
            stdout,
            s1 + detail + s2,
        ) == Err::<Seq<char>, ErrorView>(ErrorView::Failed { command, detail }),
{
    law_trimming_takes_both_ends(s1, detail, s2, Class::Space);
}

/// One of `qmicli` that fails is an error only if some of its lines say why;
/// these lines make up the error. Where all lines are log lines or warnings,
/// what it wrote stands.
pub proof fn law_qmicli_fails_when_it_says_why(
    command: Command,
    stdout: Seq<char>,
    stderr: Seq<char>,
    k: int,
)
    requires
        command is CardStatus || command is Imsi,
    ensures
        (forall|i: int|
            0 <= i < lines(stderr).len() ==> (#[trigger] lines(stderr)[i]).len() > 0 && lines(
                stderr,
            )[i][0] == '[' || occurs(lines(stderr)[i], "Warning"@)) ==> judged(
            command,
            false,
            stdout,
            stderr,
        ) == Ok::<Seq<char>, ErrorView>(stdout),
        0 <= k < lines(stderr).len() && lines(stderr)[k].len() > 0 && lines(stderr)[k][0] != '['
            && !occurs(lines(stderr)[k], "Warning"@) ==> judged(command, false, stdout, stderr)
            == Err::<Seq<char>, ErrorView>(
            ErrorView::Failed { command, detail: complaint(stderr) },
        ),
        judged(command, false, stdout, stderr) matches Err(e) ==> e == (ErrorView::Failed {
            command,
            detail: joined(complaints(lines(stderr)), "\n"@),
        }),
{
    let ls = lines(stderr);
    reveal_strlit("\n");
    if forall|i: int|
        0 <= i < ls.len() ==> (#[trigger] ls[i]).len() > 0 && ls[i][0] == '[' || occurs(
            ls[i],
            "Warning"@,
        ) {
        lemma_no_complaints(ls);
    }
    if 0 <= k < ls.len() && ls[k].len() > 0 && ls[k][0] != '[' && !occurs(ls[k], "Warning"@) {
        let a = ls.take(k);
        let b = ls.skip(k + 1);
        assert(ls =~= a + seq![ls[k]] + b);
        law_complaints_are_kept_in_order(a, ls[k], b);
        lemma_joined_is_not_empty(complaints(ls), complaints(a).len() as int);
    }
}

proof fn lemma_no_complaints(ls: Seq<Seq<char>>)
    requires
        forall|i: int|
            0 <= i < ls.len() ==> (#[trigger] ls[i]).len() > 0 && ls[i][0] == '[' || occurs(
                ls[i],
                "Warning"@,
            ),
    ensures
        complaints(ls) == Seq::<Seq<char>>::empty(),
    decreases ls.len(),
{
    if ls.len() > 0 {
        let a = ls.drop_last();
        assert forall|i: int| 0 <= i < a.len() implies (#[trigger] a[i]).len() > 0 && a[i][0] == '['
            || occurs(a[i], "Warning"@) by {
            assert(a[i] == ls[i]);
        }
        lemma_no_complaints(a);
        assert(ls[ls.len() - 1] == ls.last());
        law_complaints_are_kept_in_order(a, ls.last(), Seq::empty());
        assert(ls =~= a + seq![ls.last()] + Seq::<Seq<char>>::empty());
    }
}

proof fn lemma_joined_is_not_empty(parts: Seq<Seq<char>>, k: int)
    requires
        0 <= k < parts.len(),
        parts[k].len() > 0,
    ensures
        joined(parts, "\n"@).len() > 0,
{
    reveal_strlit("\n");
    if parts.len() > 1 {
        assert(joined(parts, "\n"@).len() >= "\n"@.len());
    }
}

/// A command that does not end in time, or cannot be made, is an error, which
/// names the tool or says what the system says.
pub proof fn law_commands_that_do_not_end(command: Command, why: Seq<char>)
    ensures
        output_of(command, OutcomeView::TimedOut) == Err::<Seq<char>, ErrorView>(
            ErrorView::Timeout(
                if command is CardStatus || command is Imsi {
                    Tool::Qmicli
                } else {
                    Tool::Ip
                },
            ),
        ),
        output_of(command, OutcomeView::NotRun(why)) == Err::<Seq<char>, ErrorView>(
            ErrorView::NotRun(why),
        ),
{
}

/// The bytes that a command writes are read as text before they are judged.
pub proof fn law_output_is_read_as_text(command: Command, out: Seq<char>, err: Seq<char>, success: bool)
    ensures
        output_of(
            command,
            OutcomeView::Exited { success, stdout: encode_utf8(out), stderr: encode_utf8(err) },
        ) == judged(command, success, out, err),
{
    law_text_is_read_back(out);
    law_text_is_read_back(err);
}

proof fn lemma_quoted_words(v: Seq<Seq<char>>)
    ensures
        v.len() == 2 ==> quoted_list(v) == "["@ + (quoted(v[0]) + ", "@ + quoted(v[1])) + "]"@,
        v.len() == 4 ==> quoted_list(v) == "["@ + (quoted(v[0]) + ", "@ + quoted(v[1]) + ", "@
            + quoted(v[2]) + ", "@ + quoted(v[3])) + "]"@,
        v.len() == 5 ==> quoted_list(v) == "["@ + (quoted(v[0]) + ", "@ + quoted(v[1]) + ", "@
            + quoted(v[2]) + ", "@ + quoted(v[3]) + ", "@ + quoted(v[4])) + "]"@,
{
    reveal_with_fuel(joined, 5);
}

/// A call is named in an error by its tool and the quoted words it is given:
/// these are all the calls there are.
pub proof fn law_calls_are_named(command: Command)
    ensures
        command.label() == match command {
            Command::Routes => "ip([\"-6\", \"route\"])"@,
            Command::Addresses => "ip([\"-6\", \"addr\", \"show\", \"wwan1\"])"@,
            Command::SaStates => "ip([\"xfrm\", \"state\"])"@,
            Command::SaPolicies => "ip([\"xfrm\", \"policy\"])"@,
            Command::CardStatus => "qmicli([\"-d\", \"/dev/wwan0at2\", \"--device-open-qmi\", \"-p\", \"--uim-get-card-status\"])"@,
            Command::Imsi => "qmicli([\"-d\", \"/dev/wwan0at2\", \"--device-open-qmi\", \"-p\", \"--dms-get-imsi\"])"@,
        },
{
    lemma_quoted_words(command.args());
    match command {
        Command::Routes => {
            reveal_strlit("ip");
            reveal_strlit("(");
            reveal_strlit("[");
            reveal_strlit("\"");
            reveal_strlit(", ");
            reveal_strlit("]");
            reveal_strlit(")");
            reveal_strlit("ip([\"-6\", \"route\"])");
            reveal_strlit("-6");
            reveal_strlit("route");
            assert(command.label() =~= "ip([\"-6\", \"route\"])"@);
        },
        Command::Addresses => {
            reveal_strlit("ip");
            reveal_strlit("(");
            reveal_strlit("[");
            reveal_strlit("\"");
            reveal_strlit(", ");
            reveal_strlit("]");
            reveal_strlit(")");
            reveal_strlit("ip([\"-6\", \"addr\", \"show\", \"wwan1\"])");
            reveal_strlit("-6");
            reveal_strlit("addr");
            reveal_strlit("show");
            reveal_strlit("wwan1");
            assert(command.label() =~= "ip([\"-6\", \"addr\", \"show\", \"wwan1\"])"@);
        },
        Command::SaStates => {
            reveal_strlit("ip");
            reveal_strlit("(");
            reveal_strlit("[");
            reveal_strlit("\"");
            reveal_strlit(", ");
            reveal_strlit("]");
            reveal_strlit(")");
            reveal_strlit("ip([\"xfrm\", \"state\"])");
            reveal_strlit("xfrm");
            reveal_strlit("state");
            assert(command.label() =~= "ip([\"xfrm\", \"state\"])"@);
        },
        Command::SaPolicies => {
            reveal_strlit("ip");
            reveal_strlit("(");
            reveal_strlit("[");
            reveal_strlit("\"");
            reveal_strlit(", ");
            reveal_strlit("]");
            reveal_strlit(")");
            reveal_strlit("ip([\"xfrm\", \"policy\"])");
            reveal_strlit("xfrm");
            reveal_strlit("policy");
            assert(command.label() =~= "ip([\"xfrm\", \"policy\"])"@);
        },
        Command::CardStatus => {
            reveal_strlit("qmicli");
            reveal_strlit("(");
            reveal_strlit("[");
            reveal_strlit("\"");
            reveal_strlit(", ");
            reveal_strlit("]");
            reveal_strlit(")");
            reveal_strlit("qmicli([\"-d\", \"/dev/wwan0at2\", \"--device-open-qmi\", \"-p\", \"--uim-get-card-status\"])");
            reveal_strlit("-d");
            reveal_strlit("/dev/wwan0at2");
            reveal_strlit("--device-open-qmi");
            reveal_strlit("-p");
            reveal_strlit("--uim-get-card-status");
            assert(command.label() =~= "qmicli([\"-d\", \"/dev/wwan0at2\", \"--device-open-qmi\", \"-p\", \"--uim-get-card-status\"])"@);
        },
        Command::Imsi => {
            reveal_strlit("qmicli");
            reveal_strlit("(");
            reveal_strlit("[");
            reveal_strlit("\"");
            reveal_strlit(", ");
            reveal_strlit("]");
            reveal_strlit(")");
            reveal_strlit("qmicli([\"-d\", \"/dev/wwan0at2\", \"--device-open-qmi\", \"-p\", \"--dms-get-imsi\"])");
            reveal_strlit("-d");
            reveal_strlit("/dev/wwan0at2");
            reveal_strlit("--device-open-qmi");
            reveal_strlit("-p");
            reveal_strlit("--dms-get-imsi");
            assert(command.label() =~= "qmicli([\"-d\", \"/dev/wwan0at2\", \"--device-open-qmi\", \"-p\", \"--dms-get-imsi\"])"@);
        },
    }
}

} // verus!
