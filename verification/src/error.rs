//! What can go wrong on the way to a registration, and how it is reported.
use vstd::prelude::*;
use crate::codec::{Base64Error, HexError};
use crate::command::{Command, Tool};
use crate::number::{decimal, to_decimal};

verus! {

/// Why a step failed.
#[derive(Debug)]
pub enum Error {
    /// A tool did not end in time.
    Timeout(Tool),
    /// A tool could not be run; the system says why.
    NotRun(String),
    /// A tool failed; it says why.
    Failed { command: Command, detail: String },
    /// No route leads to the P-CSCF.
    NoPcscf,
    /// The interface has no address.
    NoLocalAddress,
    /// The card status names no application.
    NoAid,
    /// The modem gave no IMSI.
    NoImsi,
    /// No security association holds an authentication key.
    NoKey,
    /// The authentication key is no hexadecimal text.
    Key(HexError),
    /// The P-CSCF could not be reached; the system says why.
    Transport(String),
    /// The nonce is no Base64 text.
    Nonce(Base64Error),
    /// The challenge is shorter than RAND and AUTN together.
    ShortChallenge(usize),
    /// The card did not answer the challenge; the modem says why.
    Aka(String),
}

/// An error with its text as a sequence of characters.
pub enum ErrorView {
    Timeout(Tool),
    NotRun(Seq<char>),
    Failed { command: Command, detail: Seq<char> },
    NoPcscf,
    NoLocalAddress,
    NoAid,
    NoImsi,
    NoKey,
    Key(HexError),
    Transport(Seq<char>),
    Nonce(Base64Error),
    ShortChallenge(usize),
    Aka(Seq<char>),
}

impl View for Error {
    type V = ErrorView;

    open spec fn view(&self) -> ErrorView {
        match self {
            Error::Timeout(t) => ErrorView::Timeout(*t),
            Error::NotRun(s) => ErrorView::NotRun(s@),
            Error::Failed { command, detail } => ErrorView::Failed {
                command: *command,
                detail: detail@,
            },
            Error::NoPcscf => ErrorView::NoPcscf,
            Error::NoLocalAddress => ErrorView::NoLocalAddress,
            Error::NoAid => ErrorView::NoAid,
            Error::NoImsi => ErrorView::NoImsi,
            Error::NoKey => ErrorView::NoKey,
            Error::Key(e) => ErrorView::Key(*e),
            Error::Transport(s) => ErrorView::Transport(s@),
            Error::Nonce(e) => ErrorView::Nonce(*e),
            Error::ShortChallenge(n) => ErrorView::ShortChallenge(*n),
            Error::Aka(s) => ErrorView::Aka(s@),
        }
    }
}

impl ErrorView {
    /// The error's message.
    pub open spec fn text(self) -> Seq<char> {
        match self {
            ErrorView::Timeout(t) => t.name() + " timeout"@,
            ErrorView::NotRun(s) => s,
            ErrorView::Failed { command, detail } => command.label() + ": "@ + detail,
            ErrorView::NoPcscf => "P-CSCF route via wwan1 not found"@,
            ErrorView::NoLocalAddress => "local IPv6 (wwan1) not found"@,
            ErrorView::NoAid => "USIM AID not found"@,
            ErrorView::NoImsi => "IMSI unreadable"@,
            ErrorView::NoKey => "ESP auth key not found"@,
            ErrorView::Key(e) => e.text(),
            ErrorView::Transport(s) => s,
            ErrorView::Nonce(e) => "nonce base64 解码失败: "@ + e.text(),
            ErrorView::ShortChallenge(n) => "AKA 挑战长度异常: "@ + decimal(n as nat) + " 字节"@,
            ErrorView::Aka(s) => "USIM AKA 失败(设备 QMI 未开放 AKA?): "@ + s,
        }
    }
}

impl Error {
    /// Gives the error's message.
    pub fn message(&self) -> (r: String)
        ensures
            r@ == self@.text(),
    {
        match self {
            Error::Timeout(t) => {
                let mut r: String = t.program();
                r.append(" timeout");
                r
            },
            Error::NotRun(s) => s.clone(),
            Error::Failed { command, detail } => {
                let mut r: String = command.describe();
                r.append(": ");
                r.append(detail);
                r
            },
            Error::NoPcscf => "P-CSCF route via wwan1 not found".to_owned(),
            Error::NoLocalAddress => "local IPv6 (wwan1) not found".to_owned(),
            Error::NoAid => "USIM AID not found".to_owned(),
            Error::NoImsi => "IMSI unreadable".to_owned(),
            Error::NoKey => "ESP auth key not found".to_owned(),
            Error::Key(e) => e.message(),
            Error::Transport(s) => s.clone(),
            Error::Nonce(e) => {
                let mut r: String = "nonce base64 解码失败: ".to_owned();
                r.append(&e.message());
                r
            },
            Error::ShortChallenge(n) => {
                let mut r: String = "AKA 挑战长度异常: ".to_owned();
                r.append(&to_decimal(*n as u64));
                r.append(" 字节");
                r
            },
            Error::Aka(s) => {
                let mut r: String = "USIM AKA 失败(设备 QMI 未开放 AKA?): ".to_owned();
                r.append(s);
                r
            },
        }
    }
}

/// Each error has a message of its own, which repeats what the system, a tool
/// or the modem said of it.
pub proof fn law_messages_say_what_failed(e: ErrorView)
    ensures
        match e {
            ErrorView::Timeout(Tool::Qmicli) => e.text() == "qmicli timeout"@,
            ErrorView::Timeout(Tool::Ip) => e.text() == "ip timeout"@,
            ErrorView::NotRun(s) => e.text() == s,
            ErrorView::Failed { command, detail } => e.text() == command.label() + ": "@ + detail,
            ErrorView::NoPcscf => e.text() == "P-CSCF route via wwan1 not found"@,
            ErrorView::NoLocalAddress => e.text() == "local IPv6 (wwan1) not found"@,
            ErrorView::NoAid => e.text() == "USIM AID not found"@,
            ErrorView::NoImsi => e.text() == "IMSI unreadable"@,
            ErrorView::NoKey => e.text() == "ESP auth key not found"@,
            ErrorView::Key(h) => e.text() == h.text(),
            ErrorView::Transport(s) => e.text() == s,
            ErrorView::Nonce(b) => e.text() == "nonce base64 解码失败: "@ + b.text(),
            ErrorView::ShortChallenge(n) => e.text() == "AKA 挑战长度异常: "@ + decimal(n as nat)
                + " 字节"@,
            ErrorView::Aka(s) => e.text() == "USIM AKA 失败(设备 QMI 未开放 AKA?): "@ + s,
        },
{
    reveal_strlit("qmicli");
    reveal_strlit("ip");
    reveal_strlit(" timeout");
    reveal_strlit("qmicli timeout");
    reveal_strlit("ip timeout");
    assert("qmicli"@ + " timeout"@ =~= "qmicli timeout"@);
    assert("ip"@ + " timeout"@ =~= "ip timeout"@);
}

} // verus!
