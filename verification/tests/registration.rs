use simadmin_ims::aka::aka_md5_response;
use simadmin_ims::command::{Command, Outcome};
use simadmin_ims::esp::build_esp;
use simadmin_ims::number::to_lower_hex;
use simadmin_ims::registration::{frame_answer, Action, Event, Phase};
use simadmin_ims::sa::SaParams;
use simadmin_ims::sip::{initial_register, protected_register, Answer};
use simadmin_ims::state::State;

const ROUTES: &str = "2408:8142::1 dev wwan1\n";
const ADDRESSES: &str = "  inet6 2408::9/64 scope global nodad\n";
const STATES: &str = "auth hmac(md5) 0x0001\n";
const POLICIES: &str = "2408::9 2408:8142::1 dir out sport 5065 dport 6101\n\
    2408:8142::1 2408::9 dir in sport 6102 dport 5066\n";
const NONCE: &str = "AAECAwQFBgcICQoLDA0ODxAREhMUFRYXGBkaGxwdHh8=";

fn ran(s: &str) -> Event {
    Event::Ran(Outcome::Exited { success: true, stdout: s.as_bytes().to_vec(), stderr: vec![] })
}

fn reply(s: &str) -> Event {
    Event::Reply(Ok(Some(s.as_bytes().to_vec())))
}

fn step(phase: Phase, st: &mut State, ev: Event, now: u64) -> (Phase, Action) {
    phase.step(st, ev, now)
}

/// Takes a registration to where it has sent its first request.
fn requested(st: &mut State, policies: &str) -> (Phase, Action) {
    let (p, a) = Phase::start(st);
    assert!(matches!(a, Action::Run(Command::Routes)));
    assert_eq!(st.registering_step, "discover");
    let (p, a) = step(p, st, ran(ROUTES), 1);
    assert!(matches!(a, Action::Run(Command::Addresses)));
    let (p, a) = step(p, st, ran(ADDRESSES), 2);
    assert!(matches!(a, Action::Run(Command::Imsi)));
    let (p, a) = step(p, st, ran("IMSI: 46001\n"), 3);
    assert!(matches!(a, Action::Run(Command::CardStatus)));
    assert_eq!(st.pcscf, "");
    let (p, a) = step(p, st, ran("A0:87\n"), 4);
    assert!(matches!(a, Action::StartBearer(ref s) if s == "at0"));
    assert_eq!(st.log, "OK discover pcscf=2408:8142::1 local=2408::9");
    assert_eq!((st.imsi.as_str(), st.aid.as_str()), ("46001", "A0:87"));
    let (p, a) = step(p, st, Event::Bearer(true), 5);
    assert!(matches!(a, Action::Run(Command::SaStates)));
    assert_eq!((st.log.as_str(), st.registering_step.as_str()), ("bearer ok wwan1 UP", "init-bearer"));
    let (p, a) = step(p, st, ran(STATES), 6);
    assert!(matches!(a, Action::Run(Command::SaPolicies)));
    step(p, st, ran(policies), 7)
}

#[test]
fn registration_that_is_accepted_at_once() {
    let mut st = State::new();
    let (p, a) = requested(&mut st, POLICIES);
    assert_eq!((st.log.as_str(), st.registering_step.as_str()), ("sa ok", "register-1"));
    match a {
        Action::Send { pcscf, port, payload, timeout_secs } => {
            assert_eq!(pcscf, "2408:8142::1");
            assert_eq!(port, 5060);
            assert_eq!(payload, initial_register("2408::9", 7).into_bytes());
            assert_eq!(timeout_secs, 12);
        }
        _ => panic!("a request"),
    }
    let (p, a) = step(p, &mut st, reply("SIP/2.0 200 OK\r\n\r\n"), 8);
    assert!(matches!(p, Phase::Done));
    assert!(matches!(a, Action::Stop));
    assert!(st.registered && !st.registering);
    assert_eq!(st.log, "REGISTER done registered=true");
}

#[test]
fn registration_that_is_challenged() {
    let mut st = State::new();
    let (p, _) = requested(&mut st, POLICIES);
    let text = format!("SIP/2.0 401 Unauthorized\r\nnonce=\"{}\"\r\nSecurity-Server=ipsec-3gpp\r\n\r\n", NONCE);
    let (p, a) = step(p, &mut st, reply(&text), 8);
    match a {
        Action::Authenticate { rand, autn } => {
            assert_eq!(rand, (0u8..16).collect::<Vec<u8>>());
            assert_eq!(autn, (16u8..32).collect::<Vec<u8>>());
        }
        _ => panic!("a challenge"),
    }
    let res = vec![1u8, 2, 3, 4];
    let (p, a) = step(p, &mut st, Event::Authenticated(Ok(res.clone())), 9);
    let rand: Vec<u8> = (0u8..16).collect();
    let digest = aka_md5_response(
        &rand,
        &res,
        NONCE,
        "00000001",
        "0123456789abcdef",
        "auth",
        "ims.mnc001.mcc460.3gppnetwork.org",
        "ue",
    );
    let answer = Answer {
        nonce: NONCE.to_string(),
        response: to_lower_hex(&digest),
        security: "ipsec-3gpp".to_string(),
        spi_c: 5065,
        spi_s: 5066,
        port_c: 5065,
    };
    let request = protected_register("2408::9", "2408:8142::1", 9, &answer);
    match a {
        Action::Send { pcscf, port, payload, timeout_secs } => {
            assert_eq!(pcscf, "2408:8142::1");
            assert_eq!(port, 6101);
            assert_eq!(payload, build_esp(5065, 1, &[0, 1], request.as_bytes()));
            assert_eq!(timeout_secs, 12);
        }
        _ => panic!("a request"),
    }
    let (p, _) = step(p, &mut st, reply("SIP/2.0 403 Forbidden\r\n\r\n"), 10);
    assert!(matches!(p, Phase::Done));
    assert!(!st.registered && !st.registering);
    assert_eq!(st.registering_step, "failed");
}

#[test]
fn challenge_that_is_answered_well() {
    let mut st = State::new();
    let (p, _) = requested(&mut st, POLICIES);
    let text = format!("SIP/2.0 401 x\r\nnonce=\"{}\"\r\n\r\n", NONCE);
    let (p, _) = step(p, &mut st, reply(&text), 8);
    let (p, _) = step(p, &mut st, Event::Authenticated(Ok(vec![])), 9);
    let (p, _) = step(p, &mut st, reply("SIP/2.0 200 OK\r\n\r\n"), 10);
    assert!(matches!(p, Phase::Done));
    assert!(st.registered);
    assert_eq!(st.registering_step, "registered");
}

#[test]
fn association_without_ports() {
    let mut st = State::new();
    let (p, _) = requested(&mut st, "");
    let text = format!("SIP/2.0 401 x\r\nnonce=\"{}\"\r\n\r\n", NONCE);
    let (p, _) = step(p, &mut st, reply(&text), 8);
    let (_, a) = step(p, &mut st, Event::Authenticated(Ok(vec![])), 9);
    match a {
        Action::Send { port, payload, .. } => {
            assert_eq!(port, 5060);
            assert_eq!(&payload[..8], &[0, 0, 0, 0, 0, 0, 0, 1]);
            let text = String::from_utf8(payload[24..payload.len() - 12].to_vec()).unwrap();
            assert!(text.contains("spi-c=0; spi-s=0; port-c=5064; port-s=5063"));
        }
        _ => panic!("a request"),
    }
}

#[test]
fn answer_around_a_given_response() {
    let sa = SaParams {
        ue_ip: "u".to_string(),
        pcscf: "p".to_string(),
        ue_send: 7,
        ue_recv: 8,
        pcscf_send: 0,
        pcscf_recv: 0,
        esp_key: vec![1],
    };
    let answer = Answer {
        nonce: "n".to_string(),
        response: "0aff".to_string(),
        security: "s".to_string(),
        spi_c: 7,
        spi_s: 8,
        port_c: 7,
    };
    let expected = build_esp(7, 1, &[1], protected_register("u", "p", 3, &answer).as_bytes());
    assert_eq!(frame_answer(&sa, "n".to_string(), "s".to_string(), &[0x0a, 0xff], 3), expected);
}

#[test]
fn steps_that_fail() {
    let mut st = State::new();
    let (p, _) = Phase::start(&mut st);
    let (p, _) = step(p, &mut st, Event::Ran(Outcome::TimedOut), 0);
    assert!(matches!(p, Phase::Done));
    assert_eq!((st.log.as_str(), st.registering_step.as_str()), ("FAIL discover: ip timeout", "error"));
    assert!(st.registering);

    let (p, _) = Phase::start(&mut st);
    let (p, _) = step(p, &mut st, ran(""), 0);
    assert!(matches!(p, Phase::Done));
    assert_eq!(st.log, "FAIL discover: P-CSCF route via wwan1 not found");

    let (p, _) = Phase::start(&mut st);
    let (p, _) = step(p, &mut st, ran(ROUTES), 0);
    let (p, _) = step(p, &mut st, ran(""), 0);
    assert!(matches!(p, Phase::Done));
    assert_eq!(st.log, "FAIL local_ip: local IPv6 (wwan1) not found");
}

#[test]
fn card_and_bearer_that_fail() {
    let mut st = State::new();
    let (p, _) = Phase::start(&mut st);
    let (p, _) = step(p, &mut st, ran(ROUTES), 0);
    let (p, _) = step(p, &mut st, ran(ADDRESSES), 0);
    let (p, _) = step(p, &mut st, Event::Ran(Outcome::TimedOut), 0);
    let (p, _) = step(p, &mut st, Event::Ran(Outcome::NotRun("x".to_string())), 0);
    assert_eq!((st.imsi.as_str(), st.aid.as_str()), ("?", ""));
    let (p, a) = step(p, &mut st, Event::Bearer(false), 0);
    assert!(matches!(p, Phase::Done));
    assert!(matches!(a, Action::Stop));
    assert_eq!((st.log.as_str(), st.registering_step.as_str()), ("FAIL bearer: wwan1 not up", "error"));
}

#[test]
fn association_that_cannot_be_read() {
    let mut st = State::new();
    let (p, _) = requested(&mut st, "2408::9 2408:8142::1 dir out a b c d sport");
    assert!(matches!(p, Phase::Done));
    assert_eq!((st.log.as_str(), st.registering_step.as_str()), ("bearer ok wwan1 UP", "init-bearer"));

    let (p, _) = Phase::start(&mut st);
    let (p, _) = step(p, &mut st, ran(ROUTES), 0);
    let (p, _) = step(p, &mut st, ran(ADDRESSES), 0);
    let (p, _) = step(p, &mut st, ran(""), 0);
    let (p, _) = step(p, &mut st, ran(""), 0);
    let (p, _) = step(p, &mut st, Event::Bearer(true), 0);
    let (p, _) = step(p, &mut st, ran("no key"), 0);
    let (p, _) = step(p, &mut st, ran(""), 0);
    assert!(matches!(p, Phase::Done));
    assert_eq!(st.log, "FAIL sa: ESP auth key not found");
}

#[test]
fn exchanges_that_fail() {
    for (ev, log, shown) in [
        (Event::Reply(Err("refused".to_string())), "REGISTER error: refused", "error"),
        (Event::Reply(Ok(None)), "REGISTER done registered=false", "failed"),
        (reply("SIP/2.0 500 x\r\n\r\n"), "REGISTER done registered=false", "failed"),
        (
            reply("SIP/2.0 401 x\r\nnonce=\"AA\"\r\n\r\n"),
            "REGISTER error: nonce base64 解码失败: Invalid padding",
            "error",
        ),
    ] {
        let mut st = State::new();
        let (p, _) = requested(&mut st, POLICIES);
        let (p, _) = step(p, &mut st, ev, 0);
        assert!(matches!(p, Phase::Done));
        assert!(!st.registered && !st.registering);
        assert_eq!((st.log.as_str(), st.registering_step.as_str()), (log, shown));
    }
}

#[test]
fn card_that_does_not_answer() {
    let mut st = State::new();
    let (p, _) = requested(&mut st, POLICIES);
    let text = format!("SIP/2.0 401 x\r\nnonce=\"{}\"\r\n\r\n", NONCE);
    let (p, _) = step(p, &mut st, reply(&text), 8);
    let (p, _) = step(p, &mut st, Event::Authenticated(Err("no".to_string())), 9);
    assert!(matches!(p, Phase::Done));
    assert_eq!(st.log, "REGISTER error: USIM AKA 失败(设备 QMI 未开放 AKA?): no");
}

#[test]
fn events_that_are_not_waited_for_end_it() {
    for ev in [Event::Bearer(true), Event::Reply(Ok(None)), Event::Authenticated(Ok(vec![]))] {
        let mut st = State::new();
        let (p, _) = Phase::start(&mut st);
        let (p, a) = p.step(&mut st, ev, 0);
        assert!(matches!(p, Phase::Done));
        assert!(matches!(a, Action::Stop));
        assert_eq!((st.registering_step.as_str(), st.log.as_str()), ("discover", ""));
    }
    let mut st = State::new();
    let (p, a) = Phase::Done.step(&mut st, ran(ROUTES), 0);
    assert!(matches!(p, Phase::Done));
    assert!(matches!(a, Action::Stop));
}
