use simadmin_ims::discovery::UsimInfo;
use simadmin_ims::error::Error;
use simadmin_ims::state::State;

#[test]
fn state_when_the_daemon_starts() {
    let s = State::new();
    assert_eq!(s.version, "simadmin-ims v0.2");
    assert!(!s.registered && !s.registering);
    assert_eq!((s.log, s.imsi, s.aid), (String::new(), String::new(), String::new()));
    assert_eq!(State::default().version, "");
}

#[test]
fn snapshot_does_not_follow() {
    let mut s = State::new();
    s.log_end("a", "b");
    let copy = s.snapshot();
    s.begin();
    s.log_end("c", "d");
    assert_eq!((copy.log.as_str(), copy.registering_step.as_str()), ("a", "b"));
    assert!(!copy.registering);
    assert_eq!(copy.version, "simadmin-ims v0.2");
}

#[test]
fn discovery_is_noted() {
    let mut s = State::new();
    s.discover("p", "u", UsimInfo { imsi: "i".to_string(), aid: "a".to_string() });
    assert_eq!(
        (s.pcscf.as_str(), s.ue_ip.as_str(), s.imsi.as_str(), s.aid.as_str()),
        ("p", "u", "i", "a")
    );
    assert_eq!(s.log, "OK discover pcscf=p local=u");
    assert_eq!(s.registering_step, "init-bearer");
}

#[test]
fn exchange_is_settled() {
    let mut s = State::new();
    s.begin();
    assert!(s.registering);
    s.settle(Ok(true));
    assert!(s.registered && !s.registering);
    assert_eq!(s.log, "REGISTER done registered=true");
    assert_eq!(s.registering_step, "registered");
    s.begin();
    assert!(!s.registered);
    assert_eq!(s.registering_step, "discover");
    s.settle(Ok(false));
    assert_eq!(s.log, "REGISTER done registered=false");
    assert_eq!(s.registering_step, "failed");
    s.settle(Err(Error::Transport("refused".to_string())));
    assert_eq!(s.log, "REGISTER error: refused");
    assert_eq!(s.registering_step, "error");
}

#[test]
fn registration_is_given_up() {
    let mut s = State::new();
    s.settle(Ok(true));
    s.unregister();
    assert!(!s.registered);
    assert_eq!(s.log, "unregister");
    assert_eq!(s.registering_step, "registered");
}
