//! The room: the one owner of the membership, and the fan-out of lines.

use std::collections::HashMap;
use vstd::prelude::*;

verus! {

broadcast use vstd::std_specs::hash::group_hash_axioms;

/// A participant that has completed the handshake.
#[derive(Debug, Clone, PartialEq, Eq)]
pub struct User {
    pub name: String,
}

/// What a session reports to the room.
#[derive(Debug, Clone, PartialEq, Eq)]
pub enum Event {
    UserEnter(usize, User),
    NewMessage(usize, String),
    UserLeave(usize),
}

/// One line owed to one member's connection.
#[derive(Debug, Clone, PartialEq, Eq)]
pub struct Delivery {
    pub to: usize,
    pub text: String,
}

/// What the room owes after one event: the lines for the other members and,
/// after a join, the roster line for the user who joined.
#[derive(Debug, Clone, PartialEq, Eq)]
pub struct Reaction {
    pub broadcast: Vec<Delivery>,
    pub roster: Option<String>,
}

/// The membership: who is present, under which name.
pub struct Room {
    users: HashMap<usize, User>,
}

/// The membership as contracts see it: the name of each identity present.
pub type Roster = Map<usize, Seq<char>>;

/// An event as contracts see it.
pub enum EventView {
    Enter(usize, Seq<char>),
    Message(usize, Seq<char>),
    Leave(usize),
}

/// A delivery as contracts see it.
pub struct Notice {
    pub to: usize,
    pub text: Seq<char>,
}

/// A reaction as contracts see it.
pub struct ReactionView {
    pub broadcast: Seq<Notice>,
    pub roster: Option<Seq<char>>,
}

impl View for User {
    type V = Seq<char>;

    open spec fn view(&self) -> Seq<char> {
        self.name@
    }
}

impl View for Event {
    type V = EventView;

    open spec fn view(&self) -> EventView {
        match *self {
            Event::UserEnter(id, user) => EventView::Enter(id, user.name@),
            Event::NewMessage(id, text) => EventView::Message(id, text@),
            Event::UserLeave(id) => EventView::Leave(id),
        }
    }
}

impl View for Delivery {
    type V = Notice;

    open spec fn view(&self) -> Notice {
        Notice { to: self.to, text: self.text@ }
    }
}

impl View for Reaction {
    type V = ReactionView;

    open spec fn view(&self) -> ReactionView {
        ReactionView {
            broadcast: notices(self.broadcast@),
            roster: match self.roster {
                Some(line) => Some(line@),
                None => None,
            },
        }
    }
}

impl View for Room {
    type V = Roster;

    closed spec fn view(&self) -> Roster {
        Map::new(|id: usize| self.users@.contains_key(id), |id: usize| self.users@[id].name@)
    }
}

/// The deliveries of a vector, each by its view.
pub open spec fn notices(out: Seq<Delivery>) -> Seq<Notice> {
    out.map_values(|d: Delivery| d@)
}

/// The events of a vector, each by its view.
pub open spec fn event_views(events: Seq<Event>) -> Seq<EventView> {
    events.map_values(|e: Event| e@)
}

/// The reactions of a vector, each by its view.
pub open spec fn reaction_views(out: Seq<Reaction>) -> Seq<ReactionView> {
    out.map_values(|r: Reaction| r@)
}

/// The line the others read when `name` joins.
pub open spec fn entered_line(name: Seq<char>) -> Seq<char> {
    "* "@ + name + " has entered the room\n"@
}

/// The line the others read when `name` leaves.
pub open spec fn left_line(name: Seq<char>) -> Seq<char> {
    "* "@ + name + " has left the room\n"@
}

/// The line the others read when `name` says `text`.
pub open spec fn message_line(name: Seq<char>, text: Seq<char>) -> Seq<char> {
    "["@ + name + "] "@ + text + "\n"@
}

/// `names`, separated by a comma and a space.
pub open spec fn join_names(names: Seq<Seq<char>>) -> Seq<char>
    decreases names.len(),
{
    if names.len() == 0 {
        Seq::empty()
    } else if names.len() == 1 {
        names[0]
    } else {
        join_names(names.drop_last()) + ", "@ + names.last()
    }
}

/// The line a new member reads: the names of those already present.
pub open spec fn roster_line(names: Seq<Seq<char>>) -> Seq<char> {
    "* The room contains: "@ + join_names(names) + "\n"@
}

/// `order` lists each identity of `ids` once, and nothing else.
pub open spec fn is_order_of(order: Seq<usize>, ids: Set<usize>) -> bool {
    order.no_duplicates() && order.to_set() == ids
}

/// Whom the deliveries of `out` are addressed to, in order.
pub open spec fn recipients_of(out: Seq<Notice>) -> Seq<usize> {
    out.map_values(|d: Notice| d.to)
}

/// `out` hands `line` to each of `recipients` once, and to nobody else.
pub open spec fn is_fanout(out: Seq<Notice>, recipients: Set<usize>, line: Seq<char>) -> bool {
    &&& is_order_of(recipients_of(out), recipients)
    &&& forall|i: int| 0 <= i < out.len() ==> (#[trigger] out[i]).text == line
}

/// The names that `members` gives to the identities of `order`.
pub open spec fn names_in(members: Roster, order: Seq<usize>) -> Seq<Seq<char>> {
    order.map_values(|id: usize| members[id])
}

/// `line` is the roster line for a user who joins `members` as `joiner`:
/// it names every member but `joiner` once, in some order.
pub open spec fn is_roster_for(line: Seq<char>, members: Roster, joiner: usize) -> bool {
    exists|order: Seq<usize>| #[trigger]
        is_order_of(order, members.dom().remove(joiner)) && line == roster_line(
            names_in(members, order),
        )
}

/// The identity an event is about.
pub open spec fn actor(event: EventView) -> usize {
    match event {
        EventView::Enter(id, _) => id,
        EventView::Message(id, _) => id,
        EventView::Leave(id) => id,
    }
}

/// Whether the room acts on `event`: a join always counts, a message when
/// it is nonempty and its sender is present, a leave when its user is.
pub open spec fn takes_effect(members: Roster, event: EventView) -> bool {
    match event {
        EventView::Enter(_, _) => true,
        EventView::Message(id, text) => text.len() > 0 && members.contains_key(id),
        EventView::Leave(id) => members.contains_key(id),
    }
}

/// The line that `event` makes the room send to the others.
pub open spec fn announcement(members: Roster, event: EventView) -> Seq<char> {
    match event {
        EventView::Enter(_, name) => entered_line(name),
        EventView::Message(id, text) => message_line(members[id], text),
        EventView::Leave(id) => left_line(members[id]),
    }
}

/// The membership after `event`.
pub open spec fn step(members: Roster, event: EventView) -> Roster {
    match event {
        EventView::Enter(id, name) => members.insert(id, name),
        EventView::Message(_, _) => members,
        EventView::Leave(id) => members.remove(id),
    }
}

/// The membership after `events`, taken in order.
pub open spec fn run(members: Roster, events: Seq<EventView>) -> Roster
    decreases events.len(),
{
    if events.len() == 0 {
        members
    } else {
        step(run(members, events.drop_last()), events.last())
    }
}

/// What the room owes for `event` when `members` are present.
///
/// An event that takes effect is announced to every member but its actor;
/// one that does not is answered with nothing.  A join is answered, beside
/// that, with the roster line for the user who joined.
pub open spec fn reacts(members: Roster, event: EventView, reaction: ReactionView) -> bool {
    &&& if takes_effect(members, event) {
        is_fanout(
            reaction.broadcast,
            members.dom().remove(actor(event)),
            announcement(members, event),
        )
    } else {
        reaction.broadcast.len() == 0
    }
    &&& match event {
        EventView::Enter(id, _) => reaction.roster matches Some(line) && is_roster_for(
            line,
            members,
            id,
        ),
        _ => reaction.roster is None,
    }
}

impl Room {
    /// An empty room.
    pub fn new() -> (room: Room)
        ensures
            room@ == Map::<usize, Seq<char>>::empty(),
    {
        let room = Room { users: HashMap::new() };
        assert(room@ =~= Map::<usize, Seq<char>>::empty());
        room
    }

    /// Only finitely many users are ever present.
    pub proof fn lemma_finite(&self)
        ensures
            self@.dom().finite(),
    {
        assert(self@.dom() =~= self.users@.dom());
    }

    /// How many users are present.
    pub fn len(&self) -> (n: usize)
        ensures
            n == self@.dom().len(),
    {
        assert(self@.dom() =~= self.users@.dom());
        self.users.len()
    }

    /// The name under which `id` is present, if it is.
    pub fn name_of(&self, id: usize) -> (name: Option<&str>)
        ensures
            match name {
                Some(n) => self@.contains_key(id) && n@ == self@[id],
                None => !self@.contains_key(id),
            },
    {
        match self.users.get(&id) {
            Some(user) => Some(user.name.as_str()),
            None => None,
        }
    }

    /// The members other than `id`, each once.
    fn others(&self, id: usize) -> (ids: Vec<usize>)
        ensures
            is_order_of(ids@, self@.dom().remove(id)),
    {
        let mut ids: Vec<usize> = Vec::new();
        for kv in it: self.users.iter()
            invariant
                it.seq().no_duplicates(),
                forall|i: int|
                    0 <= i < it.seq().len() ==> self.users@.contains_key(
                        *(#[trigger] it.seq()[i]).0,
                    ) && self.users@[*it.seq()[i].0] == *it.seq()[i].1,
                ids@.no_duplicates(),
                forall|j: int|
                    0 <= j < ids@.len() ==> (#[trigger] ids@[j]) != id && exists|i: int|
                        0 <= i < it.index() && *(#[trigger] it.seq()[i]).0 == ids@[j],
                forall|k: usize| #[trigger]
                    self.users@.contains_key(k) && k != id ==> ids@.contains(k) || exists|i: int|
                        it.index() <= i < it.seq().len() && *(#[trigger] it.seq()[i]).0 == k,
        {
            let (k, _) = kv;
            let ghost before = ids@;
            if *k != id {
                assert forall|j: int| 0 <= j < before.len() implies before[j] != *k by {
                    let i = choose|i: int|
                        0 <= i < it.index() && *(#[trigger] it.seq()[i]).0 == before[j];
                    if before[j] == *k {
                        assert(it.seq()[i] == it.seq()[it.index() as int]);
                    }
                }
                ids.push(*k);
                assert(ids@[ids@.len() - 1] == *k);
            }
            assert forall|key: usize| #[trigger]
                self.users@.contains_key(key) && key != id implies ids@.contains(key)
                || exists|i: int|
                it.index() + 1 <= i < it.seq().len() && *(#[trigger] it.seq()[i]).0 == key by {
                if before.contains(key) {
                    let j = choose|j: int| 0 <= j < before.len() && before[j] == key;
                    assert(ids@[j] == key);
                }
            }
        }
        assert(ids@.to_set() =~= self@.dom().remove(id));
        ids
    }

    /// Addresses `msg` to every member but `from_id`.
    pub fn broadcast(&self, from_id: usize, msg: String) -> (out: Vec<Delivery>)
        ensures
            is_fanout(notices(out@), self@.dom().remove(from_id), msg@),
    {
        let ids = self.others(from_id);
        let mut out: Vec<Delivery> = Vec::new();
        let mut i: usize = 0;
        while i < ids.len()
            invariant
                i <= ids.len(),
                out@.len() == i,
                forall|j: int|
                    0 <= j < i ==> (#[trigger] out@[j]).to == ids@[j] && out@[j].text@ == msg@,
            decreases ids.len() - i,
        {
            out.push(Delivery { to: ids[i], text: msg.clone() });
            i = i + 1;
        }
        assert(recipients_of(notices(out@)) =~= ids@);
        out
    }

    /// The roster line for a user who joins as `id`.
    fn roster(&self, id: usize) -> (line: String)
        ensures
            is_roster_for(line@, self@, id),
    {
        let ids = self.others(id);
        let mut line = String::from_str("* The room contains: ");
        let mut i: usize = 0;
        proof {
            assert(names_in(self@, ids@.take(0)) =~= Seq::empty());
            assert(line@ =~= "* The room contains: "@ + join_names(
                names_in(self@, ids@.take(0)),
            ));
        }
        while i < ids.len()
            invariant
                i <= ids.len(),
                is_order_of(ids@, self@.dom().remove(id)),
                line@ == "* The room contains: "@ + join_names(
                    names_in(self@, ids@.take(i as int)),
                ),
            decreases ids.len() - i,
        {
            let ghost before = names_in(self@, ids@.take(i as int));
            let ghost after = names_in(self@, ids@.take(i + 1));
            proof {
                assert(ids@.to_set().contains(ids@[i as int]));
                assert(after.drop_last() =~= before);
                assert(after.last() == self@[ids@[i as int]]);
            }
            if i > 0 {
                line.append(", ");
            }
            match self.users.get(&ids[i]) {
                Some(user) => {
                    line.append(user.name.as_str());
                },
                None => {},
            }
            assert(line@ =~= "* The room contains: "@ + join_names(after));
            i = i + 1;
        }
        line.append("\n");
        proof {
            assert(ids@.take(ids@.len() as int) =~= ids@);
        }
        line
    }

    /// Takes one event: says what is owed for it, and joins or removes its
    /// user.
    ///
    /// A join is announced to those who are present before it, and answered
    /// with their names; only then is the user a member.  Who joins under
    /// an identity that is present takes the place of that member.  A
    /// message or a leave of somebody who is not present, and an empty
    /// message, change nothing and are answered with nothing.
    pub fn handle(&mut self, event: Event) -> (reaction: Reaction)
        ensures
            reacts(old(self)@, event@, reaction@),
            final(self)@ == step(old(self)@, event@),
    {
        match event {
            Event::UserEnter(id, user) => {
                let broadcast = self.broadcast(id, entered_text(user.name.as_str()));
                let roster = self.roster(id);
                let ghost name = user.name@;
                self.users.insert(id, user);
                assert(self@ =~= old(self)@.insert(id, name));
                Reaction { broadcast, roster: Some(roster) }
            },
            Event::NewMessage(from_id, text) => {
                let line = match self.users.get(&from_id) {
                    Some(user) => {
                        if text.as_str().is_empty() {
                            None
                        } else {
                            Some(message_text(user.name.as_str(), text.as_str()))
                        }
                    },
                    None => None,
                };
                match line {
                    Some(line) => Reaction { broadcast: self.broadcast(from_id, line), roster: None },
                    None => Reaction { broadcast: Vec::new(), roster: None },
                }
            },
            Event::UserLeave(id) => {
                let line = match self.users.get(&id) {
                    Some(user) => Some(left_text(user.name.as_str())),
                    None => None,
                };
                match line {
                    Some(line) => {
                        let broadcast = self.broadcast(id, line);
                        self.users.remove(&id);
                        assert(self@ =~= old(self)@.remove(id));
                        Reaction { broadcast, roster: None }
                    },
                    None => {
                        assert(self@ =~= old(self)@.remove(id));
                        Reaction { broadcast: Vec::new(), roster: None }
                    },
                }
            },
        }
    }

    /// Takes `events` in order, as they arrived, and says what is owed for
    /// each: every event is dealt with to the end before the next one is
    /// looked at.
    pub fn open(&mut self, events: Vec<Event>) -> (out: Vec<Reaction>)
        ensures
            final(self)@ == run(old(self)@, event_views(events@)),
            out@.len() == events@.len(),
            forall|i: int|
                0 <= i < events@.len() ==> reacts(
                    run(old(self)@, event_views(events@).take(i)),
                    event_views(events@)[i],
                    #[trigger] reaction_views(out@)[i],
                ),
    {
        let mut out: Vec<Reaction> = Vec::new();
        let ghost all = event_views(events@);
        let ghost start = self@;
        proof {
            assert(all.take(0) =~= Seq::empty());
        }
        for event in it: events
            invariant
                it.seq() == events@,
                all == event_views(events@),
                start == old(self)@,
                self@ == run(start, all.take(it.index() as int)),
                out@.len() == it.index(),
                forall|i: int|
                    0 <= i < it.index() ==> reacts(
                        run(start, all.take(i)),
                        all[i],
                        #[trigger] reaction_views(out@)[i],
                    ),
        {
            let ghost n = it.index() as int;
            let ghost done = reaction_views(out@);
            let reaction = self.handle(event);
            out.push(reaction);
            proof {
                assert(all.take(n + 1).drop_last() =~= all.take(n));
                assert(all.take(n + 1).last() == all[n]);
                assert forall|i: int| 0 <= i < n + 1 implies reacts(
                    run(start, all.take(i)),
                    all[i],
                    #[trigger] reaction_views(out@)[i],
                ) by {
                    if i < n {
                        assert(reaction_views(out@)[i] == done[i]);
                    }
                }
            }
        }
        proof {
            assert(all.take(all.len() as int) =~= all);
        }
        out
    }

    /// What follows when a line could not be written to `to`: the member is
    /// taken to have disconnected, and its leave is to be put in the queue.
    /// For somebody who is not present nothing follows.
    pub fn write_failed(&self, to: usize) -> (event: Option<Event>)
        ensures
            match event {
                Some(e) => self@.contains_key(to) && e@ == EventView::Leave(to),
                None => !self@.contains_key(to),
            },
    {
        if self.users.contains_key(&to) {
            Some(Event::UserLeave(to))
        } else {
            None
        }
    }
}

impl Default for Room {
    fn default() -> (room: Room)
        ensures
            room@ == Map::<usize, Seq<char>>::empty(),
    {
        Room::new()
    }
}

/// The line for the others when `name` joins.
pub fn entered_text(name: &str) -> (line: String)
    ensures
        line@ == entered_line(name@),
{
    let mut line = String::from_str("* ");
    line.append(name);
    line.append(" has entered the room\n");
    line
}

/// The line for the others when `name` leaves.
pub fn left_text(name: &str) -> (line: String)
    ensures
        line@ == left_line(name@),
{
    let mut line = String::from_str("* ");
    line.append(name);
    line.append(" has left the room\n");
    line
}

/// The line for the others when `name` says `text`.
pub fn message_text(name: &str, text: &str) -> (line: String)
    ensures
        line@ == message_line(name@, text@),
{
    let mut line = String::from_str("[");
    line.append(name);
    line.append("] ");
    line.append(text);
    line.append("\n");
    line
}

} // verus!
