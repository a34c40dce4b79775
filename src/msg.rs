use crate::cmd::CLI;
use vstd::prelude::*;
use vstd::string::StringExecFns;

verus! {

/// A message on the control socket. A request frame carries `Req`; the daemon
/// answers with `Okay`, `OkContent` or `Error`, or with `Continue` right before the
/// connection turns into a raw byte pipe to a container's terminal.
#[derive(Debug, Clone)]
pub enum Msg {
    /// Client request.
    Req(CLI),
    /// Success with nothing to show.
    Okay,
    /// Success with text to show.
    OkContent(String),
    /// The connection becomes an attached terminal session.
    Continue,
    /// Failure, with its description.
    Error(String),
}

impl Msg {
    /// The request that the message carries, if it is one.
    pub fn get_req(self) -> (r: Option<CLI>)
        ensures
            r == match self {
                Msg::Req(cli) => Some(cli),
                _ => None::<CLI>,
            },
    {
        match self {
            Msg::Req(cli) => Some(cli),
            _ => None,
        }
    }

    /// Whether the message ends a request: a success or a failure.
    pub fn is_final(&self) -> (r: bool)
        ensures
            r == (self is Okay || self is OkContent || self is Error),
    {
        match self {
            Msg::Okay | Msg::OkContent(_) | Msg::Error(_) => true,
            _ => false,
        }
    }
}

/// A response line of the older line-based protocol.
#[derive(Debug, Clone)]
pub enum Response {
    Okay,
    OkContent(String),
    Continue,
    Error(String),
}

/// What the client does with the daemon's answer: text for standard output,
/// text for standard error, and its exit code.
#[derive(Debug, Clone, PartialEq, Eq)]
pub struct ClientOutcome {
    pub stdout: Option<String>,
    pub stderr: Option<String>,
    pub exit_code: i32,
}

/// The client's reaction to the daemon's final answer, or to its absence:
/// content goes to standard output with exit code 0, an error to standard
/// error with exit code 1.
pub fn client_outcome(answer: Option<Msg>) -> (r: ClientOutcome)
    ensures
        match answer {
            Some(Msg::Okay) => r.stdout is None && r.stderr is None && r.exit_code == 0,
            Some(Msg::OkContent(c)) => r.stdout == Some(c) && r.stderr is None && r.exit_code == 0,
            Some(Msg::Error(e)) => r.stdout is None && r.stderr == Some(e) && r.exit_code == 1,
            _ => r.stdout is None && r.stderr is Some && r.exit_code == 1,
        },
{
    match answer {
        Some(Msg::Okay) => ClientOutcome { stdout: None, stderr: None, exit_code: 0 },
        Some(Msg::OkContent(c)) => ClientOutcome { stdout: Some(c), stderr: None, exit_code: 0 },
        Some(Msg::Error(e)) => ClientOutcome { stdout: None, stderr: Some(e), exit_code: 1 },
        Some(_) => ClientOutcome {
            stdout: None,
            stderr: Some(String::from_str("Unexpected message from the daemon")),
            exit_code: 1,
        },
        None => ClientOutcome {
            stdout: None,
            stderr: Some(String::from_str("Failed to reach the daemon")),
            exit_code: 1,
        },
    }
}

} // verus!
