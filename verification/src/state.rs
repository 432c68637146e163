//! What the daemon shows of itself.
use vstd::prelude::*;
use crate::discovery::{UsimInfo, UsimView};
use crate::error::{Error, ErrorView};

verus! {

/// The daemon's state.
#[derive(Debug)]
pub struct State {
    pub registered: bool,
    pub registering: bool,
    pub registering_step: String,
    pub imsi: String,
    pub aid: String,
    pub pcscf: String,
    pub ue_ip: String,
    pub log: String,
    pub version: String,
}

/// The state with its text as sequences of characters.
pub struct StateView {
    pub registered: bool,
    pub registering: bool,
    pub registering_step: Seq<char>,
    pub imsi: Seq<char>,
    pub aid: Seq<char>,
    pub pcscf: Seq<char>,
    pub ue_ip: Seq<char>,
    pub log: Seq<char>,
    pub version: Seq<char>,
}

impl View for State {
    type V = StateView;

    open spec fn view(&self) -> StateView {
        StateView {
            registered: self.registered,
            registering: self.registering,
            registering_step: self.registering_step@,
            imsi: self.imsi@,
            aid: self.aid@,
            pcscf: self.pcscf@,
            ue_ip: self.ue_ip@,
            log: self.log@,
            version: self.version@,
        }
    }
}

impl StateView {
    /// A state in which nothing is known.
    pub open spec fn blank() -> StateView {
        StateView {
            registered: false,
            registering: false,
            registering_step: seq![],
            imsi: seq![],
            aid: seq![],
            pcscf: seq![],
            ue_ip: seq![],
            log: seq![],
            version: seq![],
        }
    }

    /// The state when the daemon starts.
    pub open spec fn initial() -> StateView {
        StateView { version: "simadmin-ims v0.2"@, ..StateView::blank() }
    }

    /// The state with a message and a step.
    pub open spec fn noted(self, message: Seq<char>, step: Seq<char>) -> StateView {
        StateView { log: message, registering_step: step, ..self }
    }

    /// The state when a registration begins.
    pub open spec fn begun(self) -> StateView {
        StateView {
            registering: true,
            registered: false,
            registering_step: "discover"@,
            ..self
        }
    }

    /// The state when the addresses and the card are known.
    pub open spec fn discovered(self, pcscf: Seq<char>, ue_ip: Seq<char>, usim: UsimView) -> StateView {
        StateView {
            pcscf,
            ue_ip,
            imsi: usim.imsi,
            aid: usim.aid,
            log: "OK discover pcscf="@ + pcscf + " local="@ + ue_ip,
            registering_step: "init-bearer"@,
            ..self
        }
    }

    /// The state when the exchange with the P-CSCF is over.
    pub open spec fn settled(self, result: Result<bool, ErrorView>) -> StateView {
        match result {
            Ok(registered) => StateView {
                registering: false,
                registered,
                registering_step: if registered {
                    "registered"@
                } else {
                    "failed"@
                },
                log: "REGISTER done registered="@ + (if registered {
                    "true"@
                } else {
                    "false"@
                }),
                ..self
            },
            Err(e) => StateView {
                registering: false,
                registering_step: "error"@,
                log: "REGISTER error: "@ + e.text(),
                ..self
            },
        }
    }

    /// The state after the registration was given up.
    pub open spec fn unregistered(self) -> StateView {
        StateView { registered: false, log: "unregister"@, ..self }
    }
}

/// The view of a result that tells whether the registration stands.
pub open spec fn outcome_result(r: Result<bool, Error>) -> Result<bool, ErrorView> {
    match r {
        Ok(b) => Ok(b),
        Err(e) => Err(e@),
    }
}

impl Default for State {
    fn default() -> (r: Self)
        ensures
            r@ == StateView::blank(),
    {
        State {
            registered: false,
            registering: false,
            registering_step: String::new(),
            imsi: String::new(),
            aid: String::new(),
            pcscf: String::new(),
            ue_ip: String::new(),
            log: String::new(),
            version: String::new(),
        }
    }
}

impl Clone for State {
    fn clone(&self) -> (r: Self)
        ensures
            r@ == self@,
    {
        State {
            registered: self.registered,
            registering: self.registering,
            registering_step: self.registering_step.clone(),
            imsi: self.imsi.clone(),
            aid: self.aid.clone(),
            pcscf: self.pcscf.clone(),
            ue_ip: self.ue_ip.clone(),
            log: self.log.clone(),
            version: self.version.clone(),
        }
    }
}

impl State {
    /// The state when the daemon starts.
    pub fn new() -> (r: State)
        ensures
            r@ == StateView::initial(),
    {
        let mut r: State = State::default();
        r.version = "simadmin-ims v0.2".to_owned();
        r
    }

    /// A copy of the state.
    pub fn snapshot(&self) -> (r: State)
        ensures
            r@ == self@,
    {
        self.clone()
    }

    /// Notes a message and a step.
    pub fn log_end(&mut self, message: &str, step: &str)
        ensures
            final(self)@ == old(self)@.noted(message@, step@),
    {
        self.log = message.to_owned();
        self.registering_step = step.to_owned();
    }

    /// Begins a registration.
    pub fn begin(&mut self)
        ensures
            final(self)@ == old(self)@.begun(),
    {
        self.registering = true;
        self.registered = false;
        self.registering_step = "discover".to_owned();
    }

    /// Notes the addresses and the card.
    pub fn discover(&mut self, pcscf: &str, ue_ip: &str, usim: UsimInfo)
        ensures
            final(self)@ == old(self)@.discovered(pcscf@, ue_ip@, usim@),
    {
        self.pcscf = pcscf.to_owned();
        self.ue_ip = ue_ip.to_owned();
        self.imsi = usim.imsi;
        self.aid = usim.aid;
        let mut log: String = "OK discover pcscf=".to_owned();
        log.append(pcscf);
        log.append(" local=");
        log.append(ue_ip);
        self.log = log;
        self.registering_step = "init-bearer".to_owned();
    }

    /// Notes how the exchange with the P-CSCF ended.
    pub fn settle(&mut self, result: Result<bool, Error>)
        ensures
            final(self)@ == old(self)@.settled(outcome_result(result)),
    {
        self.registering = false;
        match result {
            Ok(registered) => {
                self.registered = registered;
                let step: &str = if registered { "registered" } else { "failed" };
                self.registering_step = step.to_owned();
                let mut log: String = "REGISTER done registered=".to_owned();
                log.append(if registered { "true" } else { "false" });
                self.log = log;
            },
            Err(e) => {
                self.registering_step = "error".to_owned();
                let mut log: String = "REGISTER error: ".to_owned();
                log.append(&e.message());
                self.log = log;
            },
        }
    }

    /// Gives the registration up.
    pub fn unregister(&mut self)
        ensures
            final(self)@ == old(self)@.unregistered(),
    {
        self.registered = false;
        self.log = "unregister".to_owned();
    }
}

/// The daemon starts with a version and nothing else to show.
pub proof fn law_start_shows_only_the_version()
    ensures
        ({
            let s = StateView::initial();
            &&& s.version == "simadmin-ims v0.2"@
            &&& !s.registered && !s.registering
            &&& s.registering_step.len() == 0 && s.imsi.len() == 0 && s.aid.len() == 0
            &&& s.pcscf.len() == 0 && s.ue_ip.len() == 0 && s.log.len() == 0
        }),
{
}

/// Giving a registration up shows that there is none and notes it; nothing else
/// that is shown changes, and doing it again changes nothing.
pub proof fn law_giving_up_shows_no_registration(st: StateView)
    ensures
        ({
            let s = st.unregistered();
            &&& !s.registered
            &&& s.log == "unregister"@
            &&& s.registering == st.registering && s.registering_step == st.registering_step
            &&& s.imsi == st.imsi && s.aid == st.aid && s.pcscf == st.pcscf && s.ue_ip == st.ue_ip
            &&& s.version == st.version
            &&& s.unregistered() == s
        }),
{
}

} // verus!
