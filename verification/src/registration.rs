//! A registration, step by step.
//!
//! The daemon does what an action says and hands back the event that it
//! brings; the step that follows decides what is shown and what is done next.
use vstd::prelude::*;
use vstd::utf8::encode_utf8;
use crate::aka::{aka_md5_response, aka_response, challenge_in, challenge_of, Challenge, ChallengeView};
use crate::codec::utf8_text;
use crate::command::{output, output_of, Command, Outcome, OutcomeView};
use crate::discovery::{
    discover_pcscf, local_ip, probe_aid, probe_imsi, shown_aid, shown_imsi, Rule, UsimInfo, UsimView,
};
use crate::error::{Error, ErrorView};
use crate::esp::{build_esp, esp};
use crate::number::{lower_hex, to_lower_hex};
use crate::sa::{read_sa, sa_in, SaParams, SaView};
use crate::sip::{
    classify, home, home_domain, initial_register, initial_text, protected_register, protected_text,
    verdict, Answer, AnswerView, Verdict,
};
use crate::state::{State, StateView};

verus! {

/// What a registration waits for.
pub enum Phase {
    /// The table of routes.
    Routes,
    /// The addresses of the interface.
    Addresses { pcscf: String },
    /// The subscriber's identity.
    Imsi { pcscf: String, ue_ip: String },
    /// The applications on the card.
    CardStatus { pcscf: String, ue_ip: String, imsi: String },
    /// The bearer.
    Bearer { pcscf: String, ue_ip: String },
    /// The security associations.
    SaStates { pcscf: String, ue_ip: String },
    /// The security policies.
    SaPolicies { pcscf: String, ue_ip: String, states: String },
    /// The answer to the first request.
    Initial { sa: SaParams },
    /// The card's answer to the challenge.
    Aka { sa: SaParams, challenge: Challenge },
    /// The answer to the second request.
    Protected,
    /// Nothing any more.
    Done,
}

/// What a registration waits for, with text as sequences of characters.
pub enum PhaseView {
    Routes,
    Addresses { pcscf: Seq<char> },
    Imsi { pcscf: Seq<char>, ue_ip: Seq<char> },
    CardStatus { pcscf: Seq<char>, ue_ip: Seq<char>, imsi: Seq<char> },
    Bearer { pcscf: Seq<char>, ue_ip: Seq<char> },
    SaStates { pcscf: Seq<char>, ue_ip: Seq<char> },
    SaPolicies { pcscf: Seq<char>, ue_ip: Seq<char>, states: Seq<char> },
    Initial { sa: SaView },
    Aka { sa: SaView, challenge: ChallengeView },
    Protected,
    Done,
}

impl View for Phase {
    type V = PhaseView;

    open spec fn view(&self) -> PhaseView {
        match self {
            Phase::Routes => PhaseView::Routes,
            Phase::Addresses { pcscf } => PhaseView::Addresses { pcscf: pcscf@ },
            Phase::Imsi { pcscf, ue_ip } => PhaseView::Imsi { pcscf: pcscf@, ue_ip: ue_ip@ },
            Phase::CardStatus { pcscf, ue_ip, imsi } => PhaseView::CardStatus {
                pcscf: pcscf@,
                ue_ip: ue_ip@,
                imsi: imsi@,
            },
            Phase::Bearer { pcscf, ue_ip } => PhaseView::Bearer { pcscf: pcscf@, ue_ip: ue_ip@ },
            Phase::SaStates { pcscf, ue_ip } => PhaseView::SaStates {
                pcscf: pcscf@,
                ue_ip: ue_ip@,
            },
            Phase::SaPolicies { pcscf, ue_ip, states } => PhaseView::SaPolicies {
                pcscf: pcscf@,
                ue_ip: ue_ip@,
                states: states@,
            },
            Phase::Initial { sa } => PhaseView::Initial { sa: sa@ },
            Phase::Aka { sa, challenge } => PhaseView::Aka { sa: sa@, challenge: challenge@ },
            Phase::Protected => PhaseView::Protected,
            Phase::Done => PhaseView::Done,
        }
    }
}

/// What the daemon has to do.
pub enum Action {
    /// Run a command, and hand back how it ended.
    Run(Command),
    /// Bring the bearer up on a port of the modem, and hand back whether it is up.
    StartBearer(String),
    /// Send bytes to a port of the P-CSCF, and hand back what comes within some seconds.
    Send { pcscf: String, port: u16, payload: Vec<u8>, timeout_secs: u64 },
    /// Have the card answer a challenge, and hand back its answer.
    Authenticate { rand: Vec<u8>, autn: Vec<u8> },
    /// Nothing any more.
    Stop,
}

/// What the daemon has to do, with text and bytes as sequences.
pub enum ActionView {
    Run(Command),
    StartBearer(Seq<char>),
    Send { pcscf: Seq<char>, port: u16, payload: Seq<u8>, timeout_secs: u64 },
    Authenticate { rand: Seq<u8>, autn: Seq<u8> },
    Stop,
}

impl View for Action {
    type V = ActionView;

    open spec fn view(&self) -> ActionView {
        match self {
            Action::Run(c) => ActionView::Run(*c),
            Action::StartBearer(s) => ActionView::StartBearer(s@),
            Action::Send { pcscf, port, payload, timeout_secs } => ActionView::Send {
                pcscf: pcscf@,
                port: *port,
                payload: payload@,
                timeout_secs: *timeout_secs,
            },
            Action::Authenticate { rand, autn } => ActionView::Authenticate {
                rand: rand@,
                autn: autn@,
            },
            Action::Stop => ActionView::Stop,
        }
    }
}

/// What an action brought.
pub enum Event {
    /// How a command ended.
    Ran(Outcome),
    /// Whether the bearer is up.
    Bearer(bool),
    /// What the P-CSCF sent, if anything, or why it could not be reached.
    Reply(Result<Option<Vec<u8>>, String>),
    /// RES, or why the card gave none.
    Authenticated(Result<Vec<u8>, String>),
}

/// What an action brought, with text and bytes as sequences.
pub enum EventView {
    Ran(OutcomeView),
    Bearer(bool),
    Reply(Result<Option<Seq<u8>>, Seq<char>>),
    Authenticated(Result<Seq<u8>, Seq<char>>),
}

/// The view of what the P-CSCF sent.
pub open spec fn reply_view(r: Result<Option<Vec<u8>>, String>) -> Result<
    Option<Seq<u8>>,
    Seq<char>,
> {
    match r {
        Ok(Some(v)) => Ok(Some(v@)),
        Ok(None) => Ok(None),
        Err(e) => Err(e@),
    }
}

/// The view of what the card answered.
pub open spec fn res_view(r: Result<Vec<u8>, String>) -> Result<Seq<u8>, Seq<char>> {
    match r {
        Ok(v) => Ok(v@),
        Err(e) => Err(e@),
    }
}

impl View for Event {
    type V = EventView;

    open spec fn view(&self) -> EventView {
        match self {
            Event::Ran(o) => EventView::Ran(o@),
            Event::Bearer(up) => EventView::Bearer(*up),
            Event::Reply(r) => EventView::Reply(reply_view(*r)),
            Event::Authenticated(r) => EventView::Authenticated(res_view(*r)),
        }
    }
}

/// What comes next: the phase, the state that is shown, and the action.
pub struct Next {
    pub phase: PhaseView,
    pub state: StateView,
    pub action: ActionView,
}

impl PhaseView {
    /// An event of the kind that the phase waits for.
    pub open spec fn awaits(self, ev: EventView) -> bool {
        match self {
            PhaseView::Bearer { .. } => ev is Bearer,
            PhaseView::Initial { .. } | PhaseView::Protected => ev is Reply,
            PhaseView::Aka { .. } => ev is Authenticated,
            PhaseView::Done => false,
            _ => ev is Ran,
        }
    }
}

/// The registration ends with a message about a step that failed.
pub open spec fn failed(st: StateView, what: Seq<char>, e: ErrorView) -> Next {
    Next {
        phase: PhaseView::Done,
        state: st.noted(what + e.text(), "error"@),
        action: ActionView::Stop,
    }
}

/// The registration ends with what the exchange with the P-CSCF came to.
pub open spec fn settled(st: StateView, result: Result<bool, ErrorView>) -> Next {
    Next { phase: PhaseView::Done, state: st.settled(result), action: ActionView::Stop }
}

/// The first request goes out, in the clear.
pub open spec fn request(st: StateView, sa: SaView, now: u64) -> Next {
    Next {
        phase: PhaseView::Initial { sa },
        state: st.noted("sa ok"@, "register-1"@),
        action: ActionView::Send {
            pcscf: sa.pcscf,
            port: 5060,
            payload: encode_utf8(initial_text(sa.ue_ip, now)),
            timeout_secs: 12,
        },
    }
}

/// The port that the protected request names: the association's own, or 5064.
pub open spec fn client_port(sa: SaView) -> u16 {
    if sa.ue_send > 0 {
        sa.ue_send
    } else {
        5064
    }
}

/// The port of the P-CSCF that the protected request goes to: the
/// association's own, but none below 5060.
pub open spec fn server_port(sa: SaView) -> u16 {
    if sa.pcscf_send > 5060 {
        sa.pcscf_send
    } else {
        5060
    }
}

/// The answer to a challenge, once the card has given RES.
pub open spec fn answer_to(sa: SaView, c: ChallengeView, res: Seq<u8>) -> AnswerView {
    AnswerView {
        nonce: c.nonce,
        response: lower_hex(
            aka_response(
                c.rand,
                res,
                c.nonce,
                "00000001"@,
                "0123456789abcdef"@,
                "auth"@,
                home(),
                "ue"@,
            ),
        ),
        security: c.security,
        spi_c: sa.ue_send as u32,
        spi_s: sa.ue_recv as u32,
        port_c: client_port(sa),
    }
}

/// The protected request: a frame that carries the answer to the challenge.
pub open spec fn protected_frame(sa: SaView, a: AnswerView, now: u64) -> Seq<u8> {
    esp(
        a.spi_c,
        1,
        sa.esp_key,
        encode_utf8(protected_text(sa.ue_ip, sa.pcscf, now, a)),
    )
}

/// The second request goes out, protected.
pub open spec fn answer(st: StateView, sa: SaView, c: ChallengeView, res: Seq<u8>, now: u64) -> Next {
    Next {
        phase: PhaseView::Protected,
        state: st,
        action: ActionView::Send {
            pcscf: sa.pcscf,
            port: server_port(sa),
            payload: protected_frame(sa, answer_to(sa, c, res), now),
            timeout_secs: 12,
        },
    }
}

/// What follows the answer to the first request: it settles the matter, unless
/// it is a challenge that the card can be given.
pub open spec fn on_initial(st: StateView, sa: SaView, reply: Result<Option<Seq<u8>>, Seq<char>>) -> Next {
    match reply {
        Err(e) => settled(st, Err(ErrorView::Transport(e))),
        Ok(None) => settled(st, Ok(false)),
        Ok(Some(r)) => match verdict(r) {
            Verdict::Accepted => settled(st, Ok(true)),
            Verdict::Refused => settled(st, Ok(false)),
            Verdict::Challenged => match challenge_in(utf8_text(r)) {
                Err(e) => settled(st, Err(e)),
                Ok(c) => Next {
                    phase: PhaseView::Aka { sa, challenge: c },
                    state: st,
                    action: ActionView::Authenticate { rand: c.rand, autn: c.autn },
                },
            },
        },
    }
}

/// What follows the answer to the second request: it stands or it does not.
pub open spec fn on_protected(st: StateView, reply: Result<Option<Seq<u8>>, Seq<char>>) -> Next {
    match reply {
        Err(e) => settled(st, Err(ErrorView::Transport(e))),
        Ok(None) => settled(st, Ok(false)),
        Ok(Some(r)) => settled(st, Ok(verdict(r) == Verdict::Accepted)),
    }
}

/// Waits for a command, and shows `st` meanwhile.
pub open spec fn waiting(phase: PhaseView, st: StateView, c: Command) -> Next {
    Next { phase, state: st, action: ActionView::Run(c) }
}

/// What follows an event.
pub open spec fn next(phase: PhaseView, st: StateView, ev: EventView, now: u64) -> Next {
    match (phase, ev) {
        (PhaseView::Routes, EventView::Ran(o)) => match Rule::Pcscf.sought(
            output_of(Command::Routes, o),
        ) {
            Err(e) => failed(st, "FAIL discover: "@, e),
            Ok(pcscf) => waiting(PhaseView::Addresses { pcscf }, st, Command::Addresses),
        },
        (PhaseView::Addresses { pcscf }, EventView::Ran(o)) => match Rule::LocalAddress.sought(
            output_of(Command::Addresses, o),
        ) {
            Err(e) => failed(st, "FAIL local_ip: "@, e),
            Ok(ue_ip) => waiting(PhaseView::Imsi { pcscf, ue_ip }, st, Command::Imsi),
        },
        (PhaseView::Imsi { pcscf, ue_ip }, EventView::Ran(o)) => waiting(
            PhaseView::CardStatus { pcscf, ue_ip, imsi: shown_imsi(output_of(Command::Imsi, o)) },
            st,
            Command::CardStatus,
        ),
        (PhaseView::CardStatus { pcscf, ue_ip, imsi }, EventView::Ran(o)) => Next {
            phase: PhaseView::Bearer { pcscf, ue_ip },
            state: st.discovered(
                pcscf,
                ue_ip,
                UsimView { imsi, aid: shown_aid(output_of(Command::CardStatus, o)) },
            ),
            action: ActionView::StartBearer("at0"@),
        },
        (PhaseView::Bearer { pcscf, ue_ip }, EventView::Bearer(up)) => if up {
            waiting(
                PhaseView::SaStates { pcscf, ue_ip },
                st.noted("bearer ok wwan1 UP"@, "init-bearer"@),
                Command::SaStates,
            )
        } else {
            Next {
                phase: PhaseView::Done,
                state: st.noted("FAIL bearer: wwan1 not up"@, "error"@),
                action: ActionView::Stop,
            }
        },
        (PhaseView::SaStates { pcscf, ue_ip }, EventView::Ran(o)) => match output_of(
            Command::SaStates,
            o,
        ) {
            Err(e) => failed(st, "FAIL sa: "@, e),
            Ok(states) => waiting(
                PhaseView::SaPolicies { pcscf, ue_ip, states },
                st,
                Command::SaPolicies,
            ),
        },
        (PhaseView::SaPolicies { pcscf, ue_ip, states }, EventView::Ran(o)) => match output_of(
            Command::SaPolicies,
            o,
        ) {
            Err(e) => failed(st, "FAIL sa: "@, e),
            Ok(policies) => match sa_in(states, policies, pcscf, ue_ip) {
                None => Next { phase: PhaseView::Done, state: st, action: ActionView::Stop },
                Some(Err(e)) => failed(st, "FAIL sa: "@, e),
                Some(Ok(sa)) => request(st, sa, now),
            },
        },
        (PhaseView::Initial { sa }, EventView::Reply(r)) => on_initial(st, sa, r),
        (PhaseView::Aka { sa, challenge }, EventView::Authenticated(r)) => match r {
            Err(e) => settled(st, Err(ErrorView::Aka(e))),
            Ok(res) => answer(st, sa, challenge, res, now),
        },
        (PhaseView::Protected, EventView::Reply(r)) => on_protected(st, r),
        _ => Next { phase: PhaseView::Done, state: st, action: ActionView::Stop },
    }
}

/// What a step gives is what comes next.
pub open spec fn gives(r: (Phase, Action), st: State, n: Next) -> bool {
    r.0@ == n.phase && st@ == n.state && r.1@ == n.action
}

fn fail(st: &mut State, what: &str, e: Error) -> (r: (Phase, Action))
    ensures
        gives(r, *final(st), failed(old(st)@, what@, e@)),
{
    let mut log: String = what.to_owned();
    log.append(&e.message());
    st.log_end(&log, "error");
    (Phase::Done, Action::Stop)
}

fn settle(st: &mut State, result: Result<bool, Error>) -> (r: (Phase, Action))
    ensures
        gives(r, *final(st), settled(old(st)@, crate::state::outcome_result(result))),
{
    st.settle(result);
    (Phase::Done, Action::Stop)
}

fn send_initial(st: &mut State, sa: SaParams, now: u64) -> (r: (Phase, Action))
    ensures
        gives(r, *final(st), request(old(st)@, sa@, now)),
{
    st.log_end("sa ok", "register-1");
    let payload: Vec<u8> = initial_register(&sa.ue_ip, now).as_str().as_bytes_vec();
    let pcscf: String = sa.pcscf.clone();
    (Phase::Initial { sa }, Action::Send { pcscf, port: 5060, payload, timeout_secs: 12 })
}

/// Writes the protected request that answers a challenge.
pub fn answer_challenge(sa: &SaParams, c: Challenge, res: &[u8], now: u64) -> (r: Vec<u8>)
    ensures
        r@ == protected_frame(sa@, answer_to(sa@, c@, res@), now),
{
    let digest: Vec<u8> = aka_md5_response(
        &c.rand,
        res,
        &c.nonce,
        "00000001",
        "0123456789abcdef",
        "auth",
        &home_domain(),
        "ue",
    );
    frame_answer(sa, c.nonce, c.security, &digest, now)
}

/// Writes the protected request around the response to a challenge.
pub fn frame_answer(sa: &SaParams, nonce: String, security: String, digest: &[u8], now: u64) -> (r: Vec<
    u8,
>)
    ensures
        r@ == protected_frame(
            sa@,
            (AnswerView {
                nonce: nonce@,
                response: lower_hex(digest@),
                security: security@,
                spi_c: sa@.ue_send as u32,
                spi_s: sa@.ue_recv as u32,
                port_c: client_port(sa@),
            }),
            now,
        ),
{
    let a: Answer = Answer {
        nonce,
        response: to_lower_hex(digest),
        security,
        spi_c: sa.ue_send as u32,
        spi_s: sa.ue_recv as u32,
        port_c: if sa.ue_send > 0 { sa.ue_send } else { 5064 },
    };
    let text: String = protected_register(&sa.ue_ip, &sa.pcscf, now, &a);
    build_esp(a.spi_c, 1, &sa.esp_key, text.as_str().as_bytes())
}

fn send_answer(st: &State, sa: SaParams, c: Challenge, res: &[u8], now: u64) -> (r: (Phase, Action))
    ensures
        gives(r, *st, answer(st@, sa@, c@, res@, now)),
{
    let payload: Vec<u8> = answer_challenge(&sa, c, res, now);
    let port: u16 = if sa.pcscf_send > 5060 { sa.pcscf_send } else { 5060 };
    (Phase::Protected, Action::Send { pcscf: sa.pcscf, port, payload, timeout_secs: 12 })
}

fn after_initial(st: &mut State, sa: SaParams, reply: Result<Option<Vec<u8>>, String>) -> (r: (
    Phase,
    Action,
))
    ensures
        gives(r, *final(st), on_initial(old(st)@, sa@, reply_view(reply))),
{
    match reply {
        Err(e) => settle(st, Err(Error::Transport(e))),
        Ok(None) => settle(st, Ok(false)),
        Ok(Some(b)) => match classify(&b) {
            Verdict::Accepted => settle(st, Ok(true)),
            Verdict::Refused => settle(st, Ok(false)),
            Verdict::Challenged => match challenge_of(&b) {
                Err(e) => settle(st, Err(e)),
                Ok(challenge) => {
                    let mut rand: Vec<u8> = Vec::new();
                    crate::number::push_bytes(&mut rand, &challenge.rand);
                    let mut autn: Vec<u8> = Vec::new();
                    crate::number::push_bytes(&mut autn, &challenge.autn);
                    assert(rand@ =~= challenge@.rand);
                    assert(autn@ =~= challenge@.autn);
                    (Phase::Aka { sa, challenge }, Action::Authenticate { rand, autn })
                },
            },
        },
    }
}

fn after_protected(st: &mut State, reply: Result<Option<Vec<u8>>, String>) -> (r: (Phase, Action))
    ensures
        gives(r, *final(st), on_protected(old(st)@, reply_view(reply))),
{
    match reply {
        Err(e) => settle(st, Err(Error::Transport(e))),
        Ok(None) => settle(st, Ok(false)),
        Ok(Some(b)) => settle(st, Ok(classify(&b) == Verdict::Accepted)),
    }
}

fn after_policies(
    st: &mut State,
    pcscf: &str,
    ue_ip: &str,
    states: &str,
    o: Outcome,
    now: u64,
) -> (r: (Phase, Action))
    ensures
        gives(
            r,
            *final(st),
            next(
                (PhaseView::SaPolicies { pcscf: pcscf@, ue_ip: ue_ip@, states: states@ }),
                old(st)@,
                EventView::Ran(o@),
                now,
            ),
        ),
{
    match output(Command::SaPolicies, o) {
        Err(e) => fail(st, "FAIL sa: ", e),
        Ok(policies) => match read_sa(states, &policies, pcscf, ue_ip) {
            None => (Phase::Done, Action::Stop),
            Some(Err(e)) => fail(st, "FAIL sa: ", e),
            Some(Ok(sa)) => send_initial(st, sa, now),
        },
    }
}

impl Phase {
    /// Begins a registration.
    pub fn start(st: &mut State) -> (r: (Phase, Action))
        ensures
            gives(r, *final(st), started(old(st)@)),
    {
        st.begin();
        (Phase::Routes, Action::Run(Command::Routes))
    }

    /// Takes a step: what an event means for what is shown and done next. An
    /// event that the phase does not wait for ends the registration as it is.
    /// `now` is the clock's microseconds since the Unix epoch.
    pub fn step(self, st: &mut State, ev: Event, now: u64) -> (r: (Phase, Action))
        ensures
            gives(r, *final(st), next(self@, old(st)@, ev@, now)),
    {
        match (self, ev) {
            (Phase::Routes, Event::Ran(o)) => match discover_pcscf(output(Command::Routes, o)) {
                Err(e) => fail(st, "FAIL discover: ", e),
                Ok(pcscf) => (Phase::Addresses { pcscf }, Action::Run(Command::Addresses)),
            },
            (Phase::Addresses { pcscf }, Event::Ran(o)) => match local_ip(
                output(Command::Addresses, o),
            ) {
                Err(e) => fail(st, "FAIL local_ip: ", e),
                Ok(ue_ip) => (Phase::Imsi { pcscf, ue_ip }, Action::Run(Command::Imsi)),
            },
            (Phase::Imsi { pcscf, ue_ip }, Event::Ran(o)) => {
                let imsi: String = probe_imsi(output(Command::Imsi, o));
                (Phase::CardStatus { pcscf, ue_ip, imsi }, Action::Run(Command::CardStatus))
            },
            (Phase::CardStatus { pcscf, ue_ip, imsi }, Event::Ran(o)) => {
                let aid: String = probe_aid(output(Command::CardStatus, o));
                st.discover(&pcscf, &ue_ip, UsimInfo { imsi, aid });
                (Phase::Bearer { pcscf, ue_ip }, Action::StartBearer("at0".to_owned()))
            },
            (Phase::Bearer { pcscf, ue_ip }, Event::Bearer(up)) => if up {
                st.log_end("bearer ok wwan1 UP", "init-bearer");
                (Phase::SaStates { pcscf, ue_ip }, Action::Run(Command::SaStates))
            } else {
                st.log_end("FAIL bearer: wwan1 not up", "error");
                (Phase::Done, Action::Stop)
            },
            (Phase::SaStates { pcscf, ue_ip }, Event::Ran(o)) => match output(
                Command::SaStates,
                o,
            ) {
                Err(e) => fail(st, "FAIL sa: ", e),
                Ok(states) => (
                    Phase::SaPolicies { pcscf, ue_ip, states },
                    Action::Run(Command::SaPolicies),
                ),
            },
            (Phase::SaPolicies { pcscf, ue_ip, states }, Event::Ran(o)) => after_policies(
                st,
                &pcscf,
                &ue_ip,
                &states,
                o,
                now,
            ),
            (Phase::Initial { sa }, Event::Reply(reply)) => after_initial(st, sa, reply),
            (Phase::Aka { sa, challenge }, Event::Authenticated(res)) => match res {
                Err(e) => settle(st, Err(Error::Aka(e))),
                Ok(b) => send_answer(st, sa, challenge, &b, now),
            },
            (Phase::Protected, Event::Reply(reply)) => after_protected(st, reply),
            _ => (Phase::Done, Action::Stop),
        }
    }
}

/// A registration begins by asking for the routes.
pub open spec fn started(st: StateView) -> Next {
    waiting(PhaseView::Routes, st.begun(), Command::Routes)
}

} // verus!
