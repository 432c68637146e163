use simadmin_ims::command::{complain, judge, output, Command, Outcome, Tool};
use simadmin_ims::discovery::{
    discover_pcscf, local_ip, read_imsi, read_usim_aid, usim_probe, UsimInfo,
};
use simadmin_ims::error::Error;

fn text(r: Result<String, Error>) -> Result<String, String> {
    match r {
        Ok(s) => Ok(s),
        Err(e) => Err(e.message()),
    }
}

fn said(s: &str) -> Result<String, Error> {
    Ok(s.to_string())
}

fn exited(success: bool, stdout: &str, stderr: &str) -> Outcome {
    Outcome::Exited {
        success,
        stdout: stdout.as_bytes().to_vec(),
        stderr: stderr.as_bytes().to_vec(),
    }
}

#[test]
fn pcscf_is_the_destination_of_its_route() {
    let table = "fe80::/64 dev wwan1 proto kernel\n\
                 2408:8142::1 dev wwan0 metric 1\n\
                 \t2408:8142:8000::5 dev wwan1 metric 256\n\
                 2408:8142:8000::6 dev wwan1\n";
    assert_eq!(text(discover_pcscf(said(table))), Ok("2408:8142:8000::5".to_string()));
    assert_eq!(
        text(discover_pcscf(said("default via fe80::1 dev wwan1\n"))),
        Err("P-CSCF route via wwan1 not found".to_string())
    );
    assert_eq!(text(discover_pcscf(said(""))), Err("P-CSCF route via wwan1 not found".to_string()));
}

#[test]
fn errors_of_a_command_stand() {
    assert_eq!(text(discover_pcscf(Err(Error::Timeout(Tool::Ip)))), Err("ip timeout".to_string()));
    assert_eq!(text(local_ip(Err(Error::Timeout(Tool::Ip)))), Err("ip timeout".to_string()));
    assert_eq!(text(read_imsi(Err(Error::NotRun("x".to_string())))), Err("x".to_string()));
    assert_eq!(text(read_usim_aid(Err(Error::NotRun("x".to_string())))), Err("x".to_string()));
}

#[test]
fn local_address_is_bare() {
    let list = "5: wwan1: <UP>\n    inet6 fe80::1/64 scope link\n    inet6 2408:8142::9/64 scope global nodad\n";
    assert_eq!(text(local_ip(said(list))), Ok("2408:8142::9".to_string()));
    assert_eq!(
        text(local_ip(said("    inet6 2408::9/64 scope global\n"))),
        Err("local IPv6 (wwan1) not found".to_string())
    );
    assert_eq!(text(local_ip(said("scope_global nodad scope global\n"))), Ok("nodad".to_string()));
}

#[test]
fn lines_without_a_second_word_are_passed_over() {
    let list = "scope global:nodad\u{a0}\n  inet6 1::2/3 scope global nodad";
    assert_eq!(text(local_ip(said(list))), Ok("global:nodad".to_string()));
}

#[test]
fn application_on_the_card() {
    let status = "Card [0]\n\t\t\tA0:00:00:00:87 10:02\n";
    assert_eq!(text(read_usim_aid(said(status))), Ok("A0:00:00:00:8710:02".to_string()));
    assert_eq!(text(read_usim_aid(said(" `A0: 01` \n"))), Ok("A0:01".to_string()));
    assert_eq!(text(read_usim_aid(said("none"))), Err("USIM AID not found".to_string()));
}

#[test]
fn identity_of_the_subscriber() {
    let answer = "[/dev/wwan0at2] IMSI retrieved\nempty:  \n  IMSI: '460010123456789' : x\n";
    assert_eq!(text(read_imsi(said(answer))), Ok("'460010123456789'".to_string()));
    assert_eq!(text(read_imsi(said("no colon\n:\n"))), Err("IMSI unreadable".to_string()));
}

#[test]
fn card_that_cannot_be_read() {
    let u = usim_probe(Err(Error::Timeout(Tool::Qmicli)), Ok("nothing".to_string()));
    match u {
        Ok(UsimInfo { imsi, aid }) => {
            assert_eq!(imsi, "?");
            assert_eq!(aid, "");
        }
        Err(_) => panic!("never fails"),
    }
    let u = usim_probe(Ok("IMSI: 46001\n".to_string()), Ok("A0:01\n".to_string()));
    match u {
        Ok(UsimInfo { imsi, aid }) => {
            assert_eq!(imsi, "46001");
            assert_eq!(aid, "A0:01");
        }
        Err(_) => panic!("never fails"),
    }
    let d = UsimInfo::default();
    assert_eq!((d.imsi, d.aid), (String::new(), String::new()));
}

#[test]
fn commands_and_their_arguments() {
    assert_eq!(Command::Routes.arguments(), vec!["-6", "route"]);
    assert_eq!(Command::Addresses.arguments(), vec!["-6", "addr", "show", "wwan1"]);
    assert_eq!(Command::SaStates.arguments(), vec!["xfrm", "state"]);
    assert_eq!(Command::SaPolicies.arguments(), vec!["xfrm", "policy"]);
    assert_eq!(
        Command::CardStatus.arguments(),
        vec!["-d", "/dev/wwan0at2", "--device-open-qmi", "-p", "--uim-get-card-status"]
    );
    assert_eq!(
        Command::Imsi.arguments(),
        vec!["-d", "/dev/wwan0at2", "--device-open-qmi", "-p", "--dms-get-imsi"]
    );
    assert_eq!(Command::Imsi.tool(), Tool::Qmicli);
    assert_eq!(Command::SaStates.tool(), Tool::Ip);
    assert_eq!(Tool::Qmicli.timeout_secs(), 12);
    assert_eq!(Tool::Ip.timeout_secs(), 6);
    for c in [
        Command::Routes,
        Command::Addresses,
        Command::SaStates,
        Command::SaPolicies,
        Command::CardStatus,
        Command::Imsi,
    ] {
        assert_eq!(c.describe(), format!("{}({:?})", c.tool().program(), c.arguments()));
    }
}

#[test]
fn command_that_succeeds() {
    assert_eq!(text(output(Command::Routes, exited(true, "out", "noise"))), Ok("out".to_string()));
    assert_eq!(text(output(Command::Imsi, exited(true, "out", "error: x"))), Ok("out".to_string()));
}

#[test]
fn output_that_is_not_utf8_is_repaired() {
    let o = Outcome::Exited { success: true, stdout: b"a\xffb".to_vec(), stderr: vec![] };
    assert_eq!(text(output(Command::Routes, o)), Ok("a\u{fffd}b".to_string()));
}

#[test]
fn ip_that_fails() {
    assert_eq!(
        text(output(Command::Routes, exited(false, "out", "\n no such device \n"))),
        Err("ip([\"-6\", \"route\"]): no such device".to_string())
    );
    assert_eq!(
        text(output(Command::SaStates, exited(false, "", ""))),
        Err("ip([\"xfrm\", \"state\"]): ".to_string())
    );
}

#[test]
fn qmicli_that_fails() {
    assert_eq!(
        text(output(
            Command::Imsi,
            exited(false, "", "[01 Jan] log\nerror: no card\nWarning: x\nerror: again\n")
        )),
        Err(
            "qmicli([\"-d\", \"/dev/wwan0at2\", \"--device-open-qmi\", \"-p\", \"--dms-get-imsi\"]): error: no card\nerror: again"
                .to_string()
        )
    );
}

#[test]
fn qmicli_that_fails_without_a_reason() {
    assert_eq!(
        text(output(Command::Imsi, exited(false, "out", "[log] x\na Warning\n"))),
        Ok("out".to_string())
    );
    assert_eq!(text(judge(Command::Imsi, false, "out".to_string(), "\n")), Ok("out".to_string()));
    assert_eq!(complain("a\n[b\nc Warning\n\nd"), "a\n\nd");
}

#[test]
fn command_that_does_not_run() {
    assert_eq!(text(output(Command::Routes, Outcome::TimedOut)), Err("ip timeout".to_string()));
    assert_eq!(text(output(Command::Imsi, Outcome::TimedOut)), Err("qmicli timeout".to_string()));
    assert_eq!(
        text(output(Command::Imsi, Outcome::NotRun("No such file".to_string()))),
        Err("No such file".to_string())
    );
}
