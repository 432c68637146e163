//! What holds of every registration.
use vstd::prelude::*;
use vstd::utf8::encode_utf8;
use crate::aka::{aka_response, challenge_in, ChallengeView};
use crate::codec::utf8_text;
use crate::command::{output_of, Command, OutcomeView};
use crate::discovery::{law_pcscf_is_behind_its_route, shown_aid, shown_imsi, Rule};
use crate::error::ErrorView;
use crate::esp::esp;
use crate::number::lower_hex;
use crate::registration::{answer_to, next, started, ActionView, EventView, PhaseView};
use crate::sa::{sa_of, SaView};
use crate::sip::{
    initial_text, law_answers_are_told_apart_by_their_bytes,
    protected_text, verdict, Verdict,
};
use crate::state::StateView;
use crate::text::{lines, occurs, words};

verus! {

/// An answer of the P-CSCF that accepts the registration.
pub open spec fn accepts(ev: EventView) -> bool {
    ev matches EventView::Reply(Ok(Some(r))) && verdict(r) == Verdict::Accepted
}

/// The kind of event that an action brings.
pub open spec fn brings(a: ActionView, ev: EventView) -> bool {
    match a {
        ActionView::Run(_) => ev is Ran,
        ActionView::StartBearer(_) => ev is Bearer,
        ActionView::Send { .. } => ev is Reply,
        ActionView::Authenticate { .. } => ev is Authenticated,
        ActionView::Stop => false,
    }
}

/// After a step the registration waits for what its action brings.
pub proof fn law_action_brings_what_is_awaited(
    phase: PhaseView,
    st: StateView,
    ev: EventView,
    now: u64,
    later: EventView,
)
    ensures
        next(phase, st, ev, now).phase.awaits(later) <==> brings(
            next(phase, st, ev, now).action,
            later,
        ),
{
}

/// A registration begins by waiting for what its action brings, and shows that
/// nothing is registered.
pub proof fn law_start_waits(st: StateView, later: EventView)
    ensures
        started(st).phase.awaits(later) <==> brings(started(st).action, later),
        !started(st).state.registered,
        started(st).state.registering,
{
}

/// A step shows a registration only if one was shown before, or the P-CSCF has
/// just accepted one.
pub proof fn law_only_acceptance_registers(
    phase: PhaseView,
    st: StateView,
    ev: EventView,
    now: u64,
)
    requires
        next(phase, st, ev, now).state.registered,
    ensures
        st.registered || accepts(ev),
{
}

/// An acceptance always registers and ends the registration.
pub proof fn law_acceptance_registers(phase: PhaseView, st: StateView, ev: EventView, now: u64)
    requires
        phase.awaits(ev),
        accepts(ev),
    ensures
        next(phase, st, ev, now).phase is Done,
        next(phase, st, ev, now).state.registered,
        !next(phase, st, ev, now).state.registering,
        next(phase, st, ev, now).state.registering_step == "registered"@,
{
}

/// An answer that neither accepts nor challenges ends the registration, which
/// has then failed.
pub proof fn law_refusal_fails(
    phase: PhaseView,
    st: StateView,
    reply: Seq<u8>,
    now: u64,
)
    requires
        phase.awaits(EventView::Reply(Ok(Some(reply)))),
        verdict(reply) == Verdict::Refused,
    ensures
        ({
            let n = next(phase, st, EventView::Reply(Ok(Some(reply))), now);
            &&& n.phase is Done
            &&& !n.state.registered
            &&& !n.state.registering
            &&& n.state.registering_step == "failed"@
        }),
{
}

/// An event that is not waited for ends the registration and changes nothing
/// of what is shown.
pub proof fn law_other_events_end_it(phase: PhaseView, st: StateView, ev: EventView, now: u64)
    requires
        !phase.awaits(ev),
    ensures
        next(phase, st, ev, now).phase is Done,
        next(phase, st, ev, now).state == st,
        next(phase, st, ev, now).action is Stop,
{
}

/// The card is asked only after a challenge to the first request, and gets the
/// RAND and the AUTN that the challenge holds.
pub proof fn law_card_gets_the_challenge(
    phase: PhaseView,
    st: StateView,
    ev: EventView,
    now: u64,
)
    requires
        next(phase, st, ev, now).action is Authenticate,
    ensures
        phase is Initial,
        ev matches EventView::Reply(Ok(Some(r))) && verdict(r) == Verdict::Challenged && {
            &&& challenge_in(utf8_text(r)) matches Ok(c)
            &&& next(phase, st, ev, now).action == (ActionView::Authenticate {
                rand: c.rand,
                autn: c.autn,
            })
            &&& c.rand.len() == 16
            &&& c.autn.len() == 16
        },
{
}

/// A challenge to the first request is answered by a frame under the key of
/// the security association. It carries the second request, which names the
/// nonce, repeats what the server offered, and responds with the digest over
/// the challenge and what the card made of it.
pub proof fn law_challenge_is_answered(
    sa: SaView,
    st: StateView,
    reply: Seq<u8>,
    res: Seq<u8>,
    earlier: u64,
    now: u64,
)
    requires
        verdict(reply) == Verdict::Challenged,
        challenge_in(utf8_text(reply)) is Ok,
    ensures
        ({
            let c = challenge_in(utf8_text(reply))->Ok_0;
            let asked = next(
                PhaseView::Initial { sa },
                st,
                EventView::Reply(Ok(Some(reply))),
                earlier,
            );
            let sent = next(asked.phase, asked.state, EventView::Authenticated(Ok(res)), now);
            let a = answer_to(sa, c, res);
            let text = protected_text(sa.ue_ip, sa.pcscf, now, a);
            &&& asked.action == (ActionView::Authenticate { rand: c.rand, autn: c.autn })
            &&& a.nonce == c.nonce
            &&& a.security == c.security
            &&& sent.phase is Protected
            &&& sent.state == st
            &&& sent.action matches ActionView::Send { pcscf, port, payload, .. } && pcscf
                == sa.pcscf && port >= 5060 && payload == esp(
                sa.ue_send as u32,
                1,
                sa.esp_key,
                encode_utf8(text),
            )
        }),
{
}

/// The addresses and the card are shown together, when the card has been
/// asked, and no other step changes what is shown of them. The version never
/// changes.
pub proof fn law_discovery_is_shown_at_once(
    phase: PhaseView,
    st: StateView,
    ev: EventView,
    now: u64,
)
    requires
        phase.awaits(ev),
    ensures
        ({
            let n = next(phase, st, ev, now).state;
            &&& n.version == st.version
            &&& phase matches PhaseView::CardStatus { pcscf, ue_ip, imsi } ==> n.pcscf == pcscf
                && n.ue_ip == ue_ip && n.imsi == imsi
            &&& !(phase is CardStatus) ==> n.pcscf == st.pcscf && n.ue_ip == st.ue_ip && n.imsi
                == st.imsi && n.aid == st.aid
        }),
{
}

/// What goes out in the clear is the first request and nothing else; whatever
/// else goes out answers a challenge.
pub proof fn law_only_the_first_request_is_plain(
    phase: PhaseView,
    st: StateView,
    ev: EventView,
    now: u64,
)
    requires
        next(phase, st, ev, now).action is Send,
    ensures
        next(phase, st, ev, now).phase matches PhaseView::Initial { sa } ==> {
            &&& phase is SaPolicies
            &&& next(phase, st, ev, now).action == (ActionView::Send {
                pcscf: sa.pcscf,
                port: 5060,
                payload: encode_utf8(initial_text(sa.ue_ip, now)),
                timeout_secs: 12,
            })
        },
        !(next(phase, st, ev, now).phase is Initial) ==> phase is Aka && next(
            phase,
            st,
            ev,
            now,
        ).phase is Protected,
{
}

/// How far a registration has come.
pub open spec fn progress(phase: PhaseView) -> nat {
    match phase {
        PhaseView::Routes => 0,
        PhaseView::Addresses { .. } => 1,
        PhaseView::Imsi { .. } => 2,
        PhaseView::CardStatus { .. } => 3,
        PhaseView::Bearer { .. } => 4,
        PhaseView::SaStates { .. } => 5,
        PhaseView::SaPolicies { .. } => 6,
        PhaseView::Initial { .. } => 7,
        PhaseView::Aka { .. } => 8,
        PhaseView::Protected => 9,
        PhaseView::Done => 10,
    }
}

/// What a registration comes to on a list of events with their times. It stops
/// at the first event that it does not wait for.
pub open spec fn run(phase: PhaseView, st: StateView, evs: Seq<(EventView, u64)>) -> (
    PhaseView,
    StateView,
)
    decreases evs.len(),
{
    if evs.len() == 0 || !phase.awaits(evs[0].0) {
        (phase, st)
    } else {
        let n = next(phase, st, evs[0].0, evs[0].1);
        run(n.phase, n.state, evs.skip(1))
    }
}

/// Every event comes when it is waited for.
pub open spec fn all_awaited(phase: PhaseView, st: StateView, evs: Seq<(EventView, u64)>) -> bool
    decreases evs.len(),
{
    if evs.len() == 0 {
        true
    } else {
        let n = next(phase, st, evs[0].0, evs[0].1);
        phase.awaits(evs[0].0) && all_awaited(n.phase, n.state, evs.skip(1))
    }
}

proof fn lemma_progress(phase: PhaseView, st: StateView, evs: Seq<(EventView, u64)>)
    requires
        all_awaited(phase, st, evs),
    ensures
        progress(phase) + evs.len() <= progress(run(phase, st, evs).0),
        progress(run(phase, st, evs).0) <= 10,
    decreases evs.len(),
{
    if evs.len() > 0 {
        let n = next(phase, st, evs[0].0, evs[0].1);
        assert(progress(phase) + 1 <= progress(n.phase));
        lemma_progress(n.phase, n.state, evs.skip(1));
    }
}

/// A registration takes at most ten steps, each of which brings it further.
pub proof fn law_registration_ends(st: StateView, evs: Seq<(EventView, u64)>)
    requires
        all_awaited(started(st).phase, started(st).state, evs),
    ensures
        evs.len() <= progress(run(started(st).phase, started(st).state, evs).0) <= 10,
{
    lemma_progress(started(st).phase, started(st).state, evs);
}

proof fn lemma_run_registers(phase: PhaseView, st: StateView, evs: Seq<(EventView, u64)>)
    requires
        run(phase, st, evs).1.registered,
    ensures
        st.registered || exists|i: int| 0 <= i < evs.len() && accepts(#[trigger] evs[i].0),
    decreases evs.len(),
{
    if evs.len() > 0 && phase.awaits(evs[0].0) {
        let n = next(phase, st, evs[0].0, evs[0].1);
        let rest = evs.skip(1);
        lemma_run_registers(n.phase, n.state, rest);
        if n.state.registered {
            law_only_acceptance_registers(phase, st, evs[0].0, evs[0].1);
            if accepts(evs[0].0) {
                assert(accepts(evs[0].0));
            }
        } else {
            let i = choose|i: int| 0 <= i < rest.len() && accepts(#[trigger] rest[i].0);
            assert(rest[i] == evs[i + 1]);
            assert(accepts(evs[i + 1].0));
        }
    }
}

/// A registration that ends registered was accepted by the P-CSCF.
pub proof fn law_registered_was_accepted(st: StateView, evs: Seq<(EventView, u64)>)
    requires
        run(started(st).phase, started(st).state, evs).1.registered,
    ensures
        exists|i: int| 0 <= i < evs.len() && accepts(#[trigger] evs[i].0),
{
    lemma_run_registers(started(st).phase, started(st).state, evs);
}

/// A step shows a registration where none was shown before only if a request
/// has just been answered by bytes that begin with `SIP/2.0 200`.
pub proof fn law_only_accepting_bytes_register(
    phase: PhaseView,
    st: StateView,
    ev: EventView,
    now: u64,
)
    requires
        !st.registered,
        next(phase, st, ev, now).state.registered,
    ensures
        phase is Initial || phase is Protected,
        ev matches EventView::Reply(Ok(Some(r))) && r.len() >= 11 && r.take(11) == seq![
            0x53u8, 0x49u8, 0x50u8, 0x2fu8, 0x32u8, 0x2eu8, 0x30u8, 0x20u8, 0x32u8, 0x30u8, 0x30u8,
        ],
{
    if let EventView::Reply(Ok(Some(r))) = ev {
        law_answers_are_told_apart_by_their_bytes(r);
    }
}

/// A registration that ends registered was answered by bytes that begin with
/// `SIP/2.0 200`.
pub proof fn law_registered_was_accepted_by_its_bytes(st: StateView, evs: Seq<(EventView, u64)>)
    requires
        run(started(st).phase, started(st).state, evs).1.registered,
    ensures
        exists|i: int|
            0 <= i < evs.len() && (#[trigger] evs[i].0 matches EventView::Reply(Ok(Some(r)))
                && r.len() >= 11 && r.take(11) == seq![
                0x53u8, 0x49u8, 0x50u8, 0x2fu8, 0x32u8, 0x2eu8, 0x30u8, 0x20u8, 0x32u8, 0x30u8,
                0x30u8,
            ]),
{
    law_registered_was_accepted(st, evs);
    let i = choose|i: int| 0 <= i < evs.len() && accepts(#[trigger] evs[i].0);
    if let EventView::Reply(Ok(Some(r))) = evs[i].0 {
        law_answers_are_told_apart_by_their_bytes(r);
    }
}

proof fn lemma_last_notes()
    ensures
        "REGISTER done registered="@ + "true"@ == "REGISTER done registered=true"@,
        "REGISTER done registered="@ + "false"@ == "REGISTER done registered=false"@,
{
    reveal_strlit("REGISTER done registered=");
    reveal_strlit("true");
    reveal_strlit("false");
    reveal_strlit("REGISTER done registered=true");
    reveal_strlit("REGISTER done registered=false");
    assert("REGISTER done registered="@ + "true"@ =~= "REGISTER done registered=true"@);
    assert("REGISTER done registered="@ + "false"@ =~= "REGISTER done registered=false"@);
}

/// Bytes that begin with `SIP/2.0 200` register, whichever request they answer.
pub proof fn law_accepting_bytes_register(
    phase: PhaseView,
    st: StateView,
    reply: Seq<u8>,
    now: u64,
)
    requires
        phase is Initial || phase is Protected,
        reply.len() >= 11,
        reply.take(11) == seq![
            0x53u8, 0x49u8, 0x50u8, 0x2fu8, 0x32u8, 0x2eu8, 0x30u8, 0x20u8, 0x32u8, 0x30u8, 0x30u8,
        ],
    ensures
        ({
            let n = next(phase, st, EventView::Reply(Ok(Some(reply))), now);
            &&& n.phase is Done
            &&& n.action is Stop
            &&& n.state == (StateView {
                registered: true,
                registering: false,
                registering_step: "registered"@,
                log: "REGISTER done registered=true"@,
                ..st
            })
        }),
{
    law_answers_are_told_apart_by_their_bytes(reply);
    lemma_last_notes();
}

/// An answer that begins with neither `SIP/2.0 200` nor `SIP/2.0 401` ends in
/// failure, whichever request it answers; so does any answer to the second
/// request that does not begin with `SIP/2.0 200`, and so does silence.
pub proof fn law_other_bytes_fail(
    phase: PhaseView,
    st: StateView,
    reply: Option<Seq<u8>>,
    now: u64,
)
    requires
        phase is Initial || phase is Protected,
        reply matches Some(r) ==> !(r.len() >= 11 && r.take(11) == seq![
            0x53u8, 0x49u8, 0x50u8, 0x2fu8, 0x32u8, 0x2eu8, 0x30u8, 0x20u8, 0x32u8, 0x30u8, 0x30u8,
        ]) && (phase is Protected || !(r.len() >= 11 && r.take(11) == seq![
            0x53u8, 0x49u8, 0x50u8, 0x2fu8, 0x32u8, 0x2eu8, 0x30u8, 0x20u8, 0x34u8, 0x30u8, 0x31u8,
        ])),
    ensures
        ({
            let n = next(phase, st, EventView::Reply(Ok(reply)), now);
            &&& n.phase is Done
            &&& n.action is Stop
            &&& n.state == (StateView {
                registered: false,
                registering: false,
                registering_step: "failed"@,
                log: "REGISTER done registered=false"@,
                ..st
            })
        }),
{
    if let Some(r) = reply {
        law_answers_are_told_apart_by_their_bytes(r);
    }
    lemma_last_notes();
}

/// A P-CSCF that cannot be reached ends the registration in an error, and what
/// is shown of a registration stays.
pub proof fn law_unreachable_pcscf_is_an_error(
    phase: PhaseView,
    st: StateView,
    why: Seq<char>,
    now: u64,
)
    requires
        phase is Initial || phase is Protected,
    ensures
        ({
            let n = next(phase, st, EventView::Reply(Err(why)), now);
            &&& n.phase is Done
            &&& n.action is Stop
            &&& n.state == (StateView {
                registering: false,
                registering_step: "error"@,
                log: "REGISTER error: "@ + why,
                ..st
            })
        }),
{
}

/// Bytes that begin with `SIP/2.0 401` in answer to the first request are read
/// as a challenge. One that can be read goes to the card and changes nothing of
/// what is shown; one that cannot ends the registration in its error.
pub proof fn law_challenging_bytes_are_read(sa: SaView, st: StateView, reply: Seq<u8>, now: u64)
    requires
        reply.len() >= 11,
        reply.take(11) == seq![
            0x53u8, 0x49u8, 0x50u8, 0x2fu8, 0x32u8, 0x2eu8, 0x30u8, 0x20u8, 0x34u8, 0x30u8, 0x31u8,
        ],
    ensures
        ({
            let n = next(PhaseView::Initial { sa }, st, EventView::Reply(Ok(Some(reply))), now);
            match challenge_in(utf8_text(reply)) {
                Ok(c) => {
                    &&& n.phase == (PhaseView::Aka { sa, challenge: c })
                    &&& n.state == st
                    &&& n.action == (ActionView::Authenticate { rand: c.rand, autn: c.autn })
                },
                Err(e) => {
                    &&& n.phase is Done
                    &&& n.action is Stop
                    &&& n.state == (StateView {
                        registering: false,
                        registering_step: "error"@,
                        log: "REGISTER error: "@ + e.text(),
                        ..st
                    })
                },
            }
        }),
{
    law_answers_are_told_apart_by_their_bytes(reply);
}

/// A card that gives no answer ends the registration in an error that says why.
pub proof fn law_silent_card_is_an_error(
    sa: SaView,
    c: ChallengeView,
    st: StateView,
    why: Seq<char>,
    now: u64,
)
    ensures
        ({
            let n = next(
                PhaseView::Aka { sa, challenge: c },
                st,
                EventView::Authenticated(Err(why)),
                now,
            );
            &&& n.phase is Done
            &&& n.action is Stop
            &&& n.state == (StateView {
                registering: false,
                registering_step: "error"@,
                log: "REGISTER error: "@ + ("USIM AKA 失败(设备 QMI 未开放 AKA?): "@ + why),
                ..st
            })
        }),
{
}

/// The second request names the ports of the security association as its
/// indexes, and the port that requests leave by, or 5064 where none is known.
/// It goes to the P-CSCF's port, or to 5060 where that is lower, in a frame
/// under the first index, with the number 1 and the association's key.
pub proof fn law_second_request_names_the_association(
    sa: SaView,
    c: ChallengeView,
    st: StateView,
    res: Seq<u8>,
    now: u64,
)
    ensures
        ({
            let n = next(
                PhaseView::Aka { sa, challenge: c },
                st,
                EventView::Authenticated(Ok(res)),
                now,
            );
            let a = answer_to(sa, c, res);
            &&& a.nonce == c.nonce
            &&& a.security == c.security
            &&& a.spi_c == sa.ue_send
            &&& a.spi_s == sa.ue_recv
            &&& sa.ue_send == 0 ==> a.port_c == 5064
            &&& sa.ue_send != 0 ==> a.port_c == sa.ue_send
            &&& a.response == lower_hex(
                aka_response(
                    c.rand,
                    res,
                    c.nonce,
                    "00000001"@,
                    "0123456789abcdef"@,
                    "auth"@,
                    "ims.mnc001.mcc460.3gppnetwork.org"@,
                    "ue"@,
                ),
            )
            &&& n.phase is Protected
            &&& n.state == st
            &&& n.action matches ActionView::Send { pcscf, port, payload, timeout_secs } && {
                &&& pcscf == sa.pcscf
                &&& port >= 5060 && port >= sa.pcscf_send
                &&& port == 5060 || port == sa.pcscf_send
                &&& timeout_secs == 12
                &&& payload == esp(
                    sa.ue_send as u32,
                    1,
                    sa.esp_key,
                    encode_utf8(protected_text(sa.ue_ip, sa.pcscf, now, a)),
                )
            }
        }),
{
}

/// A registration takes its steps in one order. Each has its own action, and
/// the addresses that one step finds are those of every later one.
pub proof fn law_steps_follow_in_order(phase: PhaseView, st: StateView, ev: EventView, now: u64)
    requires
        phase.awaits(ev),
    ensures
        ({
            let n = next(phase, st, ev, now);
            match phase {
                PhaseView::Routes => n.phase is Done || n.phase is Addresses && n.state == st
                    && n.action == ActionView::Run(Command::Addresses),
                PhaseView::Addresses { pcscf } => n.phase is Done || (n.phase matches PhaseView::Imsi {
                    pcscf: p,
                    ue_ip: _,
                } && p == pcscf && n.state == st && n.action == ActionView::Run(Command::Imsi)),
                PhaseView::Imsi { pcscf, ue_ip } => n.phase matches PhaseView::CardStatus {
                    pcscf: p,
                    ue_ip: u,
                    imsi: _,
                } && p == pcscf && u == ue_ip && n.state == st && n.action == ActionView::Run(
                    Command::CardStatus,
                ),
                PhaseView::CardStatus { pcscf, ue_ip, imsi: _ } => n.phase == (PhaseView::Bearer {
                    pcscf,
                    ue_ip,
                }) && n.action == ActionView::StartBearer("at0"@),
                PhaseView::Bearer { pcscf, ue_ip } => n.phase is Done || n.phase == (
                PhaseView::SaStates { pcscf, ue_ip }) && n.action == ActionView::Run(
                    Command::SaStates,
                ),
                PhaseView::SaStates { pcscf, ue_ip } => n.phase is Done || (
                n.phase matches PhaseView::SaPolicies { pcscf: p, ue_ip: u, states: _ } && p == pcscf
                    && u == ue_ip && n.state == st && n.action == ActionView::Run(
                    Command::SaPolicies,
                )),
                PhaseView::SaPolicies { pcscf, ue_ip, states: _ } => n.phase is Done || (
                n.phase matches PhaseView::Initial { sa } && sa.pcscf == pcscf && sa.ue_ip == ue_ip),
                PhaseView::Initial { sa } => n.phase is Done || (n.phase matches PhaseView::Aka {
                    sa: s,
                    challenge: _,
                } && s == sa),
                PhaseView::Aka { .. } => n.phase is Done || n.phase is Protected,
                _ => n.phase is Done,
            }
        }),
{
}

/// A step that fails ends the registration. What is shown then says which step
/// it was and why, and nothing else of it changes.
pub proof fn law_failed_steps_are_named(
    phase: PhaseView,
    st: StateView,
    o: OutcomeView,
    e: ErrorView,
    now: u64,
)
    requires
        match phase {
            PhaseView::Routes => Rule::Pcscf.sought(output_of(Command::Routes, o)) == Err::<
                Seq<char>,
                ErrorView,
            >(e),
            PhaseView::Addresses { .. } => Rule::LocalAddress.sought(
                output_of(Command::Addresses, o),
            ) == Err::<Seq<char>, ErrorView>(e),
            PhaseView::SaStates { .. } => output_of(Command::SaStates, o) == Err::<
                Seq<char>,
                ErrorView,
            >(e),
            PhaseView::SaPolicies { pcscf, ue_ip, states } => sa_of(
                Ok(states),
                output_of(Command::SaPolicies, o),
                pcscf,
                ue_ip,
            ) == Some(Err::<SaView, ErrorView>(e)),
            _ => false,
        },
    ensures
        ({
            let n = next(phase, st, EventView::Ran(o), now);
            &&& n.phase is Done
            &&& n.action is Stop
            &&& n.state == (StateView {
                registering_step: "error"@,
                log: (match phase {
                    PhaseView::Routes => "FAIL discover: "@,
                    PhaseView::Addresses { .. } => "FAIL local_ip: "@,
                    _ => "FAIL sa: "@,
                }) + e.text(),
                ..st
            })
        }),
{
}

/// A step that succeeds goes on with what it brought.
pub proof fn law_steps_keep_what_they_bring(
    phase: PhaseView,
    st: StateView,
    o: OutcomeView,
    now: u64,
)
    ensures
        ({
            let n = next(phase, st, EventView::Ran(o), now);
            match phase {
                PhaseView::Routes => Rule::Pcscf.sought(output_of(Command::Routes, o)) matches Ok(v)
                    ==> n.phase == (PhaseView::Addresses { pcscf: v }),
                PhaseView::Addresses { pcscf } => Rule::LocalAddress.sought(
                    output_of(Command::Addresses, o),
                ) matches Ok(v) ==> n.phase == (PhaseView::Imsi { pcscf, ue_ip: v }),
                PhaseView::Imsi { pcscf, ue_ip } => n.phase == (PhaseView::CardStatus {
                    pcscf,
                    ue_ip,
                    imsi: shown_imsi(output_of(Command::Imsi, o)),
                }),
                PhaseView::CardStatus { pcscf, ue_ip, imsi } => n.state == (StateView {
                    pcscf,
                    ue_ip,
                    imsi,
                    aid: shown_aid(output_of(Command::CardStatus, o)),
                    registering_step: "init-bearer"@,
                    log: "OK discover pcscf="@ + pcscf + " local="@ + ue_ip,
                    ..st
                }),
                PhaseView::SaStates { pcscf, ue_ip } => output_of(
                    Command::SaStates,
                    o,
                ) matches Ok(s) ==> n.phase == (PhaseView::SaPolicies { pcscf, ue_ip, states: s }),
                PhaseView::SaPolicies { pcscf, ue_ip, states } => sa_of(
                    Ok(states),
                    output_of(Command::SaPolicies, o),
                    pcscf,
                    ue_ip,
                ) matches Some(Ok(sa)) ==> {
                    &&& n.phase == (PhaseView::Initial { sa })
                    &&& n.state == (StateView {
                        registering_step: "register-1"@,
                        log: "sa ok"@,
                        ..st
                    })
                    &&& n.action == (ActionView::Send {
                        pcscf: sa.pcscf,
                        port: 5060,
                        payload: encode_utf8(initial_text(sa.ue_ip, now)),
                        timeout_secs: 12,
                    })
                },
                _ => n.phase is Done,
            }
        }),
{
}

/// The bearer is noted as it came: up, and the registration goes on; not up,
/// and it ends.
pub proof fn law_bearer_is_noted(
    pcscf: Seq<char>,
    ue_ip: Seq<char>,
    st: StateView,
    up: bool,
    now: u64,
)
    ensures
        ({
            let n = next(PhaseView::Bearer { pcscf, ue_ip }, st, EventView::Bearer(up), now);
            &&& up ==> n.phase is SaStates && n.state == (StateView {
                registering_step: "init-bearer"@,
                log: "bearer ok wwan1 UP"@,
                ..st
            })
            &&& !up ==> n.phase is Done && n.action is Stop && n.state == (StateView {
                registering_step: "error"@,
                log: "FAIL bearer: wwan1 not up"@,
                ..st
            })
        }),
{
}

/// A registration begins with the routes. What is shown of an earlier one goes,
/// and nothing else.
pub proof fn law_registration_begins_with_the_routes(st: StateView)
    ensures
        started(st).phase is Routes,
        started(st).action == ActionView::Run(Command::Routes),
        started(st).state == (StateView {
            registering: true,
            registered: false,
            registering_step: "discover"@,
            ..st
        }),
{
}

/// The table of routes, once listed, leads to the next step exactly if both
/// `dev wwan1` and `2408:8142` occur in one of its lines; the first word of the
/// first such line is the P-CSCF from then on.
pub proof fn law_routes_lead_to_the_pcscf(
    st: StateView,
    stdout: Seq<u8>,
    stderr: Seq<u8>,
    now: u64,
)
    ensures
        ({
            let ls = lines(utf8_text(stdout));
            let n = next(
                PhaseView::Routes,
                st,
                EventView::Ran(OutcomeView::Exited { success: true, stdout, stderr }),
                now,
            );
            match n.phase {
                PhaseView::Addresses { pcscf } => exists|i: int|
                    {
                        &&& 0 <= i < ls.len()
                        &&& occurs(#[trigger] ls[i], "dev wwan1"@)
                        &&& occurs(ls[i], "2408:8142"@)
                        &&& words(ls[i]).len() > 0
                        &&& pcscf == words(ls[i])[0]
                        &&& forall|j: int|
                            0 <= j < i ==> !(occurs(#[trigger] ls[j], "dev wwan1"@) && occurs(
                                ls[j],
                                "2408:8142"@,
                            ))
                    },
                _ => n.phase is Done && n.state.registering_step == "error"@ && forall|j: int|
                    0 <= j < ls.len() ==> !(occurs(#[trigger] ls[j], "dev wwan1"@) && occurs(
                        ls[j],
                        "2408:8142"@,
                    )),
            }
        }),
{
    law_pcscf_is_behind_its_route(utf8_text(stdout));
}

} // verus!
