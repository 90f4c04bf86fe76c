//! The connection side: the handshake, the lines a member sends, and the
//! identities that keep connections apart.

use crate::chat::room::{Event, EventView, User};
use crate::chat::text::{
    is_valid_name, strip_newline, trim, trim_end, trim_end_of, trimmed, valid_name,
    without_newline,
};
use vstd::prelude::*;

verus! {

/// How many events may wait between the sessions and the room before a
/// session has to wait itself.
pub const CHANNEL_CAPACITY: usize = 32;

/// Why a candidate name was turned down.
#[derive(Debug, Clone, Copy, PartialEq, Eq, Structural)]
pub enum Rejection {
    /// Nothing is left of the line once it is trimmed.
    TooShort,
    /// The name holds a character that is no ASCII letter or digit.
    Invalid,
}

/// Where a connection stands.
#[derive(Debug, Clone, Copy, PartialEq, Eq, Structural)]
pub enum Phase {
    /// The prompt is out, the name has not come yet.
    Greeting,
    /// The user is in the room.
    Joined,
    /// Nothing more comes of this connection.
    Closed,
}

/// One connection: its identity, and how far it has come.
#[derive(Debug)]
pub struct Session {
    id: usize,
    phase: Phase,
}

/// Hands out identities, each one once.
#[derive(Debug)]
pub struct Server {
    next_id: usize,
}

/// A session as contracts see it.
pub struct SessionView {
    pub id: usize,
    pub phase: Phase,
}

/// What a connection brings: a line, or its end (the peer is gone, or the
/// read failed).
pub enum InputView {
    Line(Seq<char>),
    End,
}

impl View for Session {
    type V = SessionView;

    closed spec fn view(&self) -> SessionView {
        SessionView { id: self.id, phase: self.phase }
    }
}

impl View for Server {
    type V = nat;

    /// The identity that is handed out next.
    closed spec fn view(&self) -> nat {
        self.next_id as nat
    }
}

/// The prompt that opens every connection.
pub open spec fn welcome_line() -> Seq<char> {
    "Welcome to budgetchat! What shall I call you?\n"@
}

/// The name that a line of the handshake proposes.
pub open spec fn candidate(line: Seq<char>) -> Seq<char> {
    trim_end_of(line)
}

/// What the handshake makes of a line.
pub open spec fn handshake(line: Seq<char>) -> Result<Seq<char>, Rejection> {
    if candidate(line).len() == 0 {
        Err(Rejection::TooShort)
    } else if !valid_name(candidate(line)) {
        Err(Rejection::Invalid)
    } else {
        Ok(candidate(line))
    }
}

/// What a session does with one input: where it stands afterwards, and the
/// event it reports to the room, if any.
pub open spec fn on_input(s: SessionView, input: InputView) -> (SessionView, Option<EventView>) {
    match s.phase {
        Phase::Greeting => match input {
            InputView::Line(line) => match handshake(line) {
                Ok(name) => (
                    SessionView { id: s.id, phase: Phase::Joined },
                    Some(EventView::Enter(s.id, name)),
                ),
                Err(_) => (SessionView { id: s.id, phase: Phase::Closed }, None),
            },
            InputView::End => (SessionView { id: s.id, phase: Phase::Closed }, None),
        },
        Phase::Joined => match input {
            InputView::Line(line) => if without_newline(line).len() == 0 {
                (s, None)
            } else {
                (s, Some(EventView::Message(s.id, trimmed(without_newline(line)))))
            },
            InputView::End => (
                SessionView { id: s.id, phase: Phase::Closed },
                Some(EventView::Leave(s.id)),
            ),
        },
        Phase::Closed => (s, None),
    }
}

/// Where a session stands after `inputs`.
pub open spec fn after_inputs(s: SessionView, inputs: Seq<InputView>) -> SessionView
    decreases inputs.len(),
{
    if inputs.len() == 0 {
        s
    } else {
        on_input(after_inputs(s, inputs.drop_last()), inputs.last()).0
    }
}

/// The events a session reports over `inputs`, in order.
pub open spec fn reported(s: SessionView, inputs: Seq<InputView>) -> Seq<EventView>
    decreases inputs.len(),
{
    if inputs.len() == 0 {
        Seq::empty()
    } else {
        let sofar = reported(s, inputs.drop_last());
        match on_input(after_inputs(s, inputs.drop_last()), inputs.last()).1 {
            Some(event) => sofar.push(event),
            None => sofar,
        }
    }
}

/// An optional event by its view.
pub open spec fn event_view(event: Option<Event>) -> Option<EventView> {
    match event {
        Some(e) => Some(e@),
        None => None,
    }
}

/// The prompt that is written to a connection before anything is read.
pub fn welcome() -> (line: &'static str)
    ensures
        line@ == welcome_line(),
{
    "Welcome to budgetchat! What shall I call you?\n"
}

impl Server {
    /// A server that has handed out no identity yet.
    pub fn new() -> (server: Server)
        ensures
            server@ == 0,
    {
        Server { next_id: 0 }
    }

    /// Opens the session of a new connection under an identity that no
    /// earlier one had.  `None` once the identities are used up.
    pub fn connect(&mut self) -> (session: Option<Session>)
        ensures
            match session {
                Some(s) => s@ == (SessionView { id: old(self)@ as usize, phase: Phase::Greeting })
                    && final(self)@ == old(self)@ + 1,
                None => old(self)@ == usize::MAX && final(self)@ == old(self)@,
            },
    {
        if self.next_id == usize::MAX {
            None
        } else {
            let id = self.next_id;
            self.next_id = id + 1;
            Some(Session::new(id))
        }
    }

    /// The handshake: makes a user of the line that answers the prompt.
    ///
    /// The name is the line without its trailing whitespace.  It is turned
    /// down when it is empty or holds anything but ASCII letters and digits.
    pub fn accept_user(line: &str) -> (user: Result<User, Rejection>)
        ensures
            match user {
                Ok(u) => handshake(line@) == Ok::<Seq<char>, Rejection>(u@),
                Err(e) => handshake(line@) == Err::<Seq<char>, Rejection>(e),
            },
    {
        let name = trim_end(line);
        if name.is_empty() {
            Err(Rejection::TooShort)
        } else if !is_valid_name(name) {
            Err(Rejection::Invalid)
        } else {
            Ok(User { name: String::from_str(name) })
        }
    }
}

impl Default for Server {
    fn default() -> (server: Server)
        ensures
            server@ == 0,
    {
        Server::new()
    }
}

impl Session {
    /// The session of a connection that has just been greeted.
    pub fn new(id: usize) -> (session: Session)
        ensures
            session@ == (SessionView { id, phase: Phase::Greeting }),
    {
        Session { id, phase: Phase::Greeting }
    }

    /// The identity of this connection.
    pub fn id(&self) -> (id: usize)
        ensures
            id == self@.id,
    {
        self.id
    }

    /// Where this connection stands.
    pub fn phase(&self) -> (phase: Phase)
        ensures
            phase == self@.phase,
    {
        self.phase
    }

    /// Takes a line that was read from the connection.
    ///
    /// The first line is the answer to the prompt: a valid name joins the
    /// room, any other closes the session without a word to the room.
    /// Every later line is a message, but for the empty line, which is
    /// passed over.
    pub fn on_line(&mut self, line: &str) -> (event: Option<Event>)
        ensures
            (final(self)@, event_view(event)) == on_input(old(self)@, InputView::Line(line@)),
    {
        match self.phase {
            Phase::Greeting => match Server::accept_user(line) {
                Ok(user) => {
                    self.phase = Phase::Joined;
                    Some(Event::UserEnter(self.id, user))
                },
                Err(_) => {
                    self.phase = Phase::Closed;
                    None
                },
            },
            Phase::Joined => {
                let body = strip_newline(line);
                if body.is_empty() {
                    None
                } else {
                    Some(Event::NewMessage(self.id, String::from_str(trim(body))))
                }
            },
            Phase::Closed => None,
        }
    }

    /// Takes the end of the connection: a user who had joined leaves, once.
    pub fn on_end(&mut self) -> (event: Option<Event>)
        ensures
            (final(self)@, event_view(event)) == on_input(old(self)@, InputView::End),
    {
        match self.phase {
            Phase::Joined => {
                self.phase = Phase::Closed;
                Some(Event::UserLeave(self.id))
            },
            _ => {
                self.phase = Phase::Closed;
                None
            },
        }
    }
}

} // verus!
