use vstd::prelude::*;
use crate::command::{
    after_line, command_of, first_line, read_command, request_bytes, request_line, Command,
    CommandView, Direction,
};
use crate::text::text_of;

verus! {

/// Bytes asked for in one read; also the most that one read hands back.
pub const BUFFER_SIZE: usize = 1024;

/// The side of the connection a session stands on.
#[derive(Clone, Copy, PartialEq, Eq, Structural, Debug)]
pub enum Role {
    /// Accepted the connection and waits for a command.
    Server,
    /// Opened the connection to carry out one request.
    Client,
}

/// The I/O request a session waits on.
#[derive(Clone, Copy, PartialEq, Eq, Structural, Debug)]
pub enum Phase {
    /// Nothing asked yet.
    Start,
    /// Server: the first read of the connection, which carries the command.
    AwaitCommand,
    /// Whether the file exists.
    Checking,
    /// Client: the connection to the server.
    Connecting,
    /// Client: the write of the request line.
    SendingRequest,
    /// The creation (or truncation) of the file that receives the bytes.
    Creating,
    /// The opening of the file to send.
    Opening,
    /// A read from the connection, whose bytes go to the file.
    Receiving,
    /// A write of received bytes to the file.
    Storing,
    /// A read from the file, whose bytes go to the connection.
    Loading,
    /// A write of file bytes to the connection.
    Sending,
    /// None: the session is over.
    Finished,
}

/// What came of the I/O that the session last asked for.
#[derive(PartialEq, Eq, Debug)]
pub enum Event {
    /// The session is to take its first step.
    Started,
    /// A read from the connection gave these bytes; none means the peer closed.
    Received(Vec<u8>),
    /// A read from the file gave these bytes; none means end of file.
    Loaded(Vec<u8>),
    /// The answer to `CheckFile`.
    Checked(bool),
    /// A connect, create, open or write succeeded.
    Completed,
    /// The requested operation failed with this message.
    Failed(String),
}

pub enum EventView {
    Started,
    Received(Seq<u8>),
    Loaded(Seq<u8>),
    Checked(bool),
    Completed,
    Failed(Seq<char>),
}

/// How a session ended.
#[derive(PartialEq, Eq, Debug)]
pub enum Outcome {
    /// A file of this name went to the server.
    Uploaded(String),
    /// A file of this name came from the server.
    Downloaded(String),
    /// There is no file of this name to send.
    NotFound(String),
    /// The first line named no known command.
    Invalid(String),
    /// An I/O operation failed with this message.
    Failed(String),
    /// An event came that answers nothing the session asked for.
    Unexpected,
}

pub enum OutcomeView {
    Uploaded(Seq<char>),
    Downloaded(Seq<char>),
    NotFound(Seq<char>),
    Invalid(Seq<char>),
    Failed(Seq<char>),
    Unexpected,
}

/// The I/O that the session asks its driver to perform next.
#[derive(PartialEq, Eq, Debug)]
pub enum Action {
    /// Read up to `BUFFER_SIZE` bytes from the connection.
    ReadStream,
    /// Write all these bytes to the connection.
    WriteStream(Vec<u8>),
    /// Find out whether a file of this name exists.
    CheckFile(String),
    /// Create or truncate the file of this name, to write to.
    CreateFile(String),
    /// Open the file of this name, to read from.
    OpenFile(String),
    /// Read up to `BUFFER_SIZE` bytes from the open file.
    ReadFile,
    /// Write all these bytes to the open file.
    WriteFile(Vec<u8>),
    /// Connect to the server.
    Connect,
    /// Close the file and the connection: the session is over.
    Finish(Outcome),
}

pub enum ActionView {
    ReadStream,
    WriteStream(Seq<u8>),
    CheckFile(Seq<char>),
    CreateFile(Seq<char>),
    OpenFile(Seq<char>),
    ReadFile,
    WriteFile(Seq<u8>),
    Connect,
    Finish(OutcomeView),
}

impl View for Event {
    type V = EventView;

    open spec fn view(&self) -> EventView {
        match self {
            Event::Started => EventView::Started,
            Event::Received(b) => EventView::Received(b@),
            Event::Loaded(b) => EventView::Loaded(b@),
            Event::Checked(f) => EventView::Checked(*f),
            Event::Completed => EventView::Completed,
            Event::Failed(m) => EventView::Failed(m@),
        }
    }
}

impl View for Outcome {
    type V = OutcomeView;

    open spec fn view(&self) -> OutcomeView {
        match self {
            Outcome::Uploaded(n) => OutcomeView::Uploaded(n@),
            Outcome::Downloaded(n) => OutcomeView::Downloaded(n@),
            Outcome::NotFound(n) => OutcomeView::NotFound(n@),
            Outcome::Invalid(t) => OutcomeView::Invalid(t@),
            Outcome::Failed(m) => OutcomeView::Failed(m@),
            Outcome::Unexpected => OutcomeView::Unexpected,
        }
    }
}

impl View for Action {
    type V = ActionView;

    open spec fn view(&self) -> ActionView {
        match self {
            Action::ReadStream => ActionView::ReadStream,
            Action::WriteStream(b) => ActionView::WriteStream(b@),
            Action::CheckFile(n) => ActionView::CheckFile(n@),
            Action::CreateFile(n) => ActionView::CreateFile(n@),
            Action::OpenFile(n) => ActionView::OpenFile(n@),
            Action::ReadFile => ActionView::ReadFile,
            Action::WriteFile(b) => ActionView::WriteFile(b@),
            Action::Connect => ActionView::Connect,
            Action::Finish(o) => ActionView::Finish(o@),
        }
    }
}

/// One transfer over one connection, without its I/O: the driver performs
/// each action that `step` returns and hands back what came of it.
pub struct Session {
    role: Role,
    dir: Direction,
    name: String,
    phase: Phase,
    pending: Vec<u8>,
}

pub struct SessionView {
    pub role: Role,
    pub dir: Direction,
    /// The file's name (on the server, empty until the command is read).
    pub name: Seq<char>,
    pub phase: Phase,
    /// Payload bytes that came with the command and still go to the file.
    pub pending: Seq<u8>,
}

impl View for Session {
    type V = SessionView;

    closed spec fn view(&self) -> SessionView {
        SessionView {
            role: self.role,
            dir: self.dir,
            name: self.name@,
            phase: self.phase,
            pending: self.pending@,
        }
    }
}

pub open spec fn new_server() -> SessionView {
    SessionView {
        role: Role::Server,
        dir: Direction::Upload,
        name: Seq::empty(),
        phase: Phase::Start,
        pending: Seq::empty(),
    }
}

pub open spec fn new_client(dir: Direction, name: Seq<char>) -> SessionView {
    SessionView { role: Role::Client, dir, name, phase: Phase::Start, pending: Seq::empty() }
}

/// The outcome of a transfer that ran to its end.
pub open spec fn done(s: SessionView) -> OutcomeView {
    match s.dir {
        Direction::Upload => OutcomeView::Uploaded(s.name),
        Direction::Download => OutcomeView::Downloaded(s.name),
    }
}

pub open spec fn enter(s: SessionView, p: Phase, a: ActionView) -> (SessionView, ActionView) {
    (SessionView { phase: p, ..s }, a)
}

pub open spec fn finish(s: SessionView, o: OutcomeView) -> (SessionView, ActionView) {
    enter(s, Phase::Finished, ActionView::Finish(o))
}

/// The session's decision on `e`: its next state and the action it asks for.
pub open spec fn next(s: SessionView, e: EventView) -> (SessionView, ActionView) {
    if s.phase == Phase::Finished {
        finish(s, OutcomeView::Unexpected)
    } else {
        match e {
            EventView::Failed(m) => finish(s, OutcomeView::Failed(m)),
            EventView::Started => {
                if s.phase != Phase::Start {
                    finish(s, OutcomeView::Unexpected)
                } else if s.role == Role::Server {
                    enter(s, Phase::AwaitCommand, ActionView::ReadStream)
                } else if s.dir == Direction::Upload {
                    enter(s, Phase::Checking, ActionView::CheckFile(s.name))
                } else {
                    enter(s, Phase::Connecting, ActionView::Connect)
                }
            },
            EventView::Received(b) => {
                if s.phase == Phase::AwaitCommand {
                    match command_of(text_of(first_line(b))) {
                        CommandView::Upload(n) => (
                            SessionView {
                                dir: Direction::Upload,
                                name: n,
                                phase: Phase::Creating,
                                pending: after_line(b),
                                ..s
                            },
                            ActionView::CreateFile(n),
                        ),
                        CommandView::Download(n) => (
                            SessionView {
                                dir: Direction::Download,
                                name: n,
                                phase: Phase::Checking,
                                ..s
                            },
                            ActionView::CheckFile(n),
                        ),
                        CommandView::Invalid(t) => finish(s, OutcomeView::Invalid(t)),
                    }
                } else if s.phase == Phase::Receiving {
                    if b.len() == 0 {
                        finish(s, done(s))
                    } else {
                        enter(s, Phase::Storing, ActionView::WriteFile(b))
                    }
                } else {
                    finish(s, OutcomeView::Unexpected)
                }
            },
            EventView::Loaded(b) => {
                if s.phase != Phase::Loading {
                    finish(s, OutcomeView::Unexpected)
                } else if b.len() == 0 {
                    finish(s, done(s))
                } else {
                    enter(s, Phase::Sending, ActionView::WriteStream(b))
                }
            },
            EventView::Checked(found) => {
                if s.phase != Phase::Checking {
                    finish(s, OutcomeView::Unexpected)
                } else if !found {
                    finish(s, OutcomeView::NotFound(s.name))
                } else if s.role == Role::Server {
                    enter(s, Phase::Opening, ActionView::OpenFile(s.name))
                } else {
                    enter(s, Phase::Connecting, ActionView::Connect)
                }
            },
            EventView::Completed => {
                if s.phase == Phase::Connecting {
                    enter(s, Phase::SendingRequest, ActionView::WriteStream(request_bytes(s.dir, s.name)))
                } else if s.phase == Phase::SendingRequest {
                    if s.dir == Direction::Upload {
                        enter(s, Phase::Opening, ActionView::OpenFile(s.name))
                    } else {
                        enter(s, Phase::Creating, ActionView::CreateFile(s.name))
                    }
                } else if s.phase == Phase::Creating {
                    if s.pending.len() > 0 {
                        (
                            SessionView { phase: Phase::Storing, pending: Seq::empty(), ..s },
                            ActionView::WriteFile(s.pending),
                        )
                    } else {
                        enter(s, Phase::Receiving, ActionView::ReadStream)
                    }
                } else if s.phase == Phase::Storing {
                    enter(s, Phase::Receiving, ActionView::ReadStream)
                } else if s.phase == Phase::Opening || s.phase == Phase::Sending {
                    enter(s, Phase::Loading, ActionView::ReadFile)
                } else {
                    finish(s, OutcomeView::Unexpected)
                }
            },
        }
    }
}

impl Session {
    /// A session on an accepted connection, before its command is read.
    pub fn server() -> (s: Session)
        ensures
            s@ == new_server(),
    {
        Session {
            role: Role::Server,
            dir: Direction::Upload,
            name: String::new(),
            phase: Phase::Start,
            pending: Vec::new(),
        }
    }

    /// A session that will carry out `dir` on the file `name`.
    pub fn client(dir: Direction, name: String) -> (s: Session)
        ensures
            s@ == new_client(dir, name@),
    {
        Session { role: Role::Client, dir, name, phase: Phase::Start, pending: Vec::new() }
    }

    pub fn phase(&self) -> (p: Phase)
        ensures
            p == self@.phase,
    {
        self.phase
    }

    pub fn is_finished(&self) -> (r: bool)
        ensures
            r == (self@.phase == Phase::Finished),
    {
        self.phase == Phase::Finished
    }

    fn enter(&mut self, p: Phase, a: Action) -> (r: Action)
        ensures
            (final(self)@, r@) == enter(old(self)@, p, a@),
    {
        self.phase = p;
        a
    }

    fn outcome(&self) -> (o: Outcome)
        ensures
            o@ == done(self@),
    {
        match self.dir {
            Direction::Upload => Outcome::Uploaded(self.name.clone()),
            Direction::Download => Outcome::Downloaded(self.name.clone()),
        }
    }

    /// Takes what came of the last action and decides the next one.
    pub fn step(&mut self, e: Event) -> (a: Action)
        ensures
            (final(self)@, a@) == next(old(self)@, e@),
    {
        if self.phase == Phase::Finished {
            return self.enter(Phase::Finished, Action::Finish(Outcome::Unexpected));
        }
        match e {
            Event::Failed(m) => self.enter(Phase::Finished, Action::Finish(Outcome::Failed(m))),
            Event::Started => {
                if self.phase != Phase::Start {
                    self.enter(Phase::Finished, Action::Finish(Outcome::Unexpected))
                } else if self.role == Role::Server {
                    self.enter(Phase::AwaitCommand, Action::ReadStream)
                } else if self.dir == Direction::Upload {
                    let n = self.name.clone();
                    self.enter(Phase::Checking, Action::CheckFile(n))
                } else {
                    self.enter(Phase::Connecting, Action::Connect)
                }
            },
            Event::Received(b) => {
                if self.phase == Phase::AwaitCommand {
                    let (c, rest) = read_command(b.as_slice());
                    match c {
                        Command::Upload(n) => {
                            self.dir = Direction::Upload;
                            self.name = n.clone();
                            self.pending = rest;
                            self.enter(Phase::Creating, Action::CreateFile(n))
                        },
                        Command::Download(n) => {
                            self.dir = Direction::Download;
                            self.name = n.clone();
                            self.enter(Phase::Checking, Action::CheckFile(n))
                        },
                        Command::Invalid(t) => {
                            self.enter(Phase::Finished, Action::Finish(Outcome::Invalid(t)))
                        },
                    }
                } else if self.phase == Phase::Receiving {
                    if b.len() == 0 {
                        let o = self.outcome();
                        self.enter(Phase::Finished, Action::Finish(o))
                    } else {
                        self.enter(Phase::Storing, Action::WriteFile(b))
                    }
                } else {
                    self.enter(Phase::Finished, Action::Finish(Outcome::Unexpected))
                }
            },
            Event::Loaded(b) => {
                if self.phase != Phase::Loading {
                    self.enter(Phase::Finished, Action::Finish(Outcome::Unexpected))
                } else if b.len() == 0 {
                    let o = self.outcome();
                    self.enter(Phase::Finished, Action::Finish(o))
                } else {
                    self.enter(Phase::Sending, Action::WriteStream(b))
                }
            },
            Event::Checked(found) => {
                if self.phase != Phase::Checking {
                    self.enter(Phase::Finished, Action::Finish(Outcome::Unexpected))
                } else if !found {
                    let n = self.name.clone();
                    self.enter(Phase::Finished, Action::Finish(Outcome::NotFound(n)))
                } else if self.role == Role::Server {
                    let n = self.name.clone();
                    self.enter(Phase::Opening, Action::OpenFile(n))
                } else {
                    self.enter(Phase::Connecting, Action::Connect)
                }
            },
            Event::Completed => {
                if self.phase == Phase::Connecting {
                    let line = request_line(self.dir, self.name.as_str());
                    self.enter(Phase::SendingRequest, Action::WriteStream(line))
                } else if self.phase == Phase::SendingRequest {
                    let n = self.name.clone();
                    if self.dir == Direction::Upload {
                        self.enter(Phase::Opening, Action::OpenFile(n))
                    } else {
                        self.enter(Phase::Creating, Action::CreateFile(n))
                    }
                } else if self.phase == Phase::Creating {
                    if self.pending.len() > 0 {
                        let mut p: Vec<u8> = Vec::new();
                        core::mem::swap(&mut p, &mut self.pending);
                        self.enter(Phase::Storing, Action::WriteFile(p))
                    } else {
                        self.enter(Phase::Receiving, Action::ReadStream)
                    }
                } else if self.phase == Phase::Storing {
                    self.enter(Phase::Receiving, Action::ReadStream)
                } else if self.phase == Phase::Opening || self.phase == Phase::Sending {
                    self.enter(Phase::Loading, Action::ReadFile)
                } else {
                    self.enter(Phase::Finished, Action::Finish(Outcome::Unexpected))
                }
            },
        }
    }
}

} // verus!
