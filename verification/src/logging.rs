//! The failure classes of the engine and the text of a log line.

use vstd::prelude::*;
use vstd::string::*;

verus! {

/// One variant per failure class, each with a message for the operator.
#[derive(Debug)]
pub enum Trap {
    STD(String),
    Connect(String),
    Session(String),
    Handshake(String),
    KeyLoad(String),
    Auth(String),
    Channel(String),
    FS(String),
    Config(String),
    Copy(String),
    Missing(String),
    InvalidInput(String),
    ReadInput(String),
    Deserialize(String),
    Serialize(String),
    Metadata(String),
    Scheduler(String),
}

impl Trap {
    /// The word that names the failure class in a log line.
    pub open spec fn label(&self) -> Seq<char> {
        match self {
            Trap::STD(_) => "STD"@,
            Trap::Connect(_) => "Connect"@,
            Trap::Session(_) => "Session"@,
            Trap::Handshake(_) => "Handshake"@,
            Trap::KeyLoad(_) => "KeyLoad"@,
            Trap::Auth(_) => "Auth"@,
            Trap::Channel(_) => "Channel"@,
            Trap::FS(_) => "FS"@,
            Trap::Config(_) => "Config"@,
            Trap::Copy(_) => "Copy"@,
            Trap::Missing(_) => "Missing"@,
            Trap::InvalidInput(_) => "InvalidInput"@,
            Trap::ReadInput(_) => "ReadInput"@,
            Trap::Deserialize(_) => "Deserialize"@,
            Trap::Serialize(_) => "Serialize"@,
            Trap::Metadata(_) => "Metadata"@,
            Trap::Scheduler(_) => "Scheduler"@,
        }
    }

    /// The message that the failure carries.
    pub open spec fn message(&self) -> Seq<char> {
        match self {
            Trap::STD(m) => m@,
            Trap::Connect(m) => m@,
            Trap::Session(m) => m@,
            Trap::Handshake(m) => m@,
            Trap::KeyLoad(m) => m@,
            Trap::Auth(m) => m@,
            Trap::Channel(m) => m@,
            Trap::FS(m) => m@,
            Trap::Config(m) => m@,
            Trap::Copy(m) => m@,
            Trap::Missing(m) => m@,
            Trap::InvalidInput(m) => m@,
            Trap::ReadInput(m) => m@,
            Trap::Deserialize(m) => m@,
            Trap::Serialize(m) => m@,
            Trap::Metadata(m) => m@,
            Trap::Scheduler(m) => m@,
        }
    }

    /// A failure of one file that a directory walk reports and passes over:
    /// the walk goes on with the next entry.
    pub open spec fn is_per_file(&self) -> bool {
        self is Metadata || self is Copy || self is FS || self is Channel
    }

    /// A failure of the transport's setup, which ends the run before anything
    /// is recorded.
    pub open spec fn is_setup_failure(&self) -> bool {
        self is Connect || self is Session || self is Handshake || self is Auth
    }

    /// A failed stat of a remote file, which the sweep for deletions reads
    /// as "the file is gone".
    pub open spec fn is_gone_signal(&self) -> bool {
        self is Metadata
    }

    /// Whether the sweep for deletions reads this failure as "the file is
    /// gone".
    pub fn gone_signal(&self) -> (r: bool)
        ensures
            r == self.is_gone_signal(),
    {
        match self {
            Trap::Metadata(_) => true,
            _ => false,
        }
    }

    /// The word that names the failure class.
    pub fn kind(&self) -> (r: &'static str)
        ensures
            r@ == self.label(),
    {
        match self {
            Trap::STD(_) => "STD",
            Trap::Connect(_) => "Connect",
            Trap::Session(_) => "Session",
            Trap::Handshake(_) => "Handshake",
            Trap::KeyLoad(_) => "KeyLoad",
            Trap::Auth(_) => "Auth",
            Trap::Channel(_) => "Channel",
            Trap::FS(_) => "FS",
            Trap::Config(_) => "Config",
            Trap::Copy(_) => "Copy",
            Trap::Missing(_) => "Missing",
            Trap::InvalidInput(_) => "InvalidInput",
            Trap::ReadInput(_) => "ReadInput",
            Trap::Deserialize(_) => "Deserialize",
            Trap::Serialize(_) => "Serialize",
            Trap::Metadata(_) => "Metadata",
            Trap::Scheduler(_) => "Scheduler",
        }
    }

    /// The message for the operator.
    pub fn text(&self) -> (r: &String)
        ensures
            r@ == self.message(),
    {
        match self {
            Trap::STD(m) => m,
            Trap::Connect(m) => m,
            Trap::Session(m) => m,
            Trap::Handshake(m) => m,
            Trap::KeyLoad(m) => m,
            Trap::Auth(m) => m,
            Trap::Channel(m) => m,
            Trap::FS(m) => m,
            Trap::Config(m) => m,
            Trap::Copy(m) => m,
            Trap::Missing(m) => m,
            Trap::InvalidInput(m) => m,
            Trap::ReadInput(m) => m,
            Trap::Deserialize(m) => m,
            Trap::Serialize(m) => m,
            Trap::Metadata(m) => m,
            Trap::Scheduler(m) => m,
        }
    }

    /// Whether a directory walk goes on after this failure.
    pub fn per_file(&self) -> (r: bool)
        ensures
            r == self.is_per_file(),
    {
        match self {
            Trap::Metadata(_) | Trap::Copy(_) | Trap::FS(_) | Trap::Channel(_) => true,
            _ => false,
        }
    }

    /// Whether this failure ends a run before anything is recorded.
    pub fn setup_failure(&self) -> (r: bool)
        ensures
            r == self.is_setup_failure(),
    {
        match self {
            Trap::Connect(_) | Trap::Session(_) | Trap::Handshake(_) | Trap::Auth(_) => true,
            _ => false,
        }
    }

    /// The failure as one line of text: its class, a colon, its message.
    pub fn describe(&self) -> (r: String)
        ensures
            r@ == trap_text(*self),
    {
        let mut r = String::from_str(self.kind());
        r.append(": ");
        r.append(self.text().as_str());
        r
    }
}

/// A failure as text: its class, a colon and a space, its message.
pub open spec fn trap_text(trap: Trap) -> Seq<char> {
    trap.label() + ": "@ + trap.message()
}

/// A line of the log: the time in square brackets, then the failure.
pub open spec fn log_line(datetime: Seq<char>, trap: Trap) -> Seq<char> {
    "["@ + datetime + "] "@ + trap_text(trap)
}

/// The line that records `trap` in the log, stamped with `datetime`.
pub fn log_trap(datetime: &str, trap: &Trap) -> (line: String)
    ensures
        line@ == log_line(datetime@, *trap),
{
    let mut line = String::from_str("[");
    line.append(datetime);
    line.append("] ");
    let text = trap.describe();
    line.append(text.as_str());
    assert(line@ =~= log_line(datetime@, *trap));
    line
}

} // verus!
