//! What holds of the room and of its sessions whatever they are sent.

use crate::chat::room::{
    actor, is_order_of, reacts, recipients_of, roster_line, run, step, takes_effect, EventView,
    ReactionView, Roster,
};
use crate::chat::session::{
    after_inputs, handshake, on_input, reported, InputView, Phase, Rejection, SessionView,
};
use crate::chat::text::{is_alnum, is_space, lemma_trailing_spaces, trim_end_of, valid_name};
use vstd::prelude::*;

verus! {

/// `event` is the join of `id`.
pub open spec fn joins(event: EventView, id: usize) -> bool {
    event matches EventView::Enter(who, _) && who == id
}

/// `event` is the leave of `id`.
pub open spec fn leaves(event: EventView, id: usize) -> bool {
    event matches EventView::Leave(who) && who == id
}

/// Who has joined in the course of `events` and not left since.
pub open spec fn present(events: Seq<EventView>) -> Set<usize> {
    Set::new(
        |id: usize|
            exists|j: int|
                0 <= j < events.len() && #[trigger] joins(events[j], id) && forall|k: int|
                    j < k < events.len() ==> !#[trigger] leaves(events[k], id),
    )
}

/// The name under which `id` joined last in the course of `events`.
pub open spec fn joined_as(events: Seq<EventView>, id: usize) -> Seq<char>
    decreases events.len(),
{
    if events.len() == 0 {
        Seq::empty()
    } else {
        match events.last() {
            EventView::Enter(who, name) if who == id => name,
            _ => joined_as(events.drop_last(), id),
        }
    }
}

/// The session of connection `id` before anything was read.
pub open spec fn fresh(id: usize) -> SessionView {
    SessionView { id, phase: Phase::Greeting }
}

/// A room that starts empty holds, after any events, exactly the users who
/// joined and have not left since, each under the name of its last join.
pub proof fn lemma_members_are_present(events: Seq<EventView>)
    ensures
        run(Map::empty(), events).dom() == present(events),
        forall|id: usize| #[trigger]
            present(events).contains(id) ==> run(Map::empty(), events)[id] == joined_as(
                events,
                id,
            ),
    decreases events.len(),
{
    let members = run(Map::empty(), events);
    if events.len() == 0 {
        assert(members.dom() =~= present(events));
    } else {
        let earlier = events.drop_last();
        let last = events.last();
        let n = earlier.len() as int;
        lemma_members_are_present(earlier);
        assert forall|id: usize| members.dom().contains(id) <==> present(events).contains(
            id,
        ) by {
            if present(earlier).contains(id) {
                let j = choose|j: int|
                    0 <= j < earlier.len() && #[trigger] joins(earlier[j], id) && forall|k: int|
                        j < k < earlier.len() ==> !#[trigger] leaves(earlier[k], id);
                assert(joins(events[j], id));
                if !leaves(last, id) {
                    assert forall|k: int| j < k < events.len() implies !#[trigger] leaves(
                        events[k],
                        id,
                    ) by {
                        if k < n {
                            assert(events[k] == earlier[k]);
                        }
                    }
                }
            }
            if joins(last, id) {
                assert(joins(events[n], id));
            }
            if present(events).contains(id) {
                let j = choose|j: int|
                    0 <= j < events.len() && #[trigger] joins(events[j], id) && forall|k: int|
                        j < k < events.len() ==> !#[trigger] leaves(events[k], id);
                if j < n {
                    assert(joins(earlier[j], id));
                    assert forall|k: int| j < k < earlier.len() implies !#[trigger] leaves(
                        earlier[k],
                        id,
                    ) by {
                        assert(earlier[k] == events[k]);
                    }
                    assert(!leaves(events[n], id));
                }
            }
        }
        assert(members.dom() =~= present(events));
    }
}

/// The roster line that a join is answered with names exactly the users
/// who joined earlier and have not left, each once and under the name it
/// joined with.  The user who joins is not one of them; its name is on the
/// line only where somebody else who is present bears that name too.
pub proof fn lemma_roster_names_the_present(
    events: Seq<EventView>,
    id: usize,
    name: Seq<char>,
    reaction: ReactionView,
)
    requires
        reacts(run(Map::empty(), events), EventView::Enter(id, name), reaction),
    ensures
        exists|order: Seq<usize>|
            {
                let names = order.map_values(|who: usize| joined_as(events, who));
                &&& #[trigger] is_order_of(order, present(events).remove(id))
                &&& !order.contains(id)
                &&& reaction.roster == Some(roster_line(names))
                &&& (forall|who: usize|
                    present(events).contains(who) && who != id ==> joined_as(events, who)
                        != name) ==> !names.contains(name)
            },
{
    let members = run(Map::empty(), events);
    lemma_members_are_present(events);
    let line = reaction.roster->0;
    let order = choose|order: Seq<usize>| #[trigger]
        is_order_of(order, members.dom().remove(id)) && line == roster_line(
            order.map_values(|who: usize| members[who]),
        );
    let names = order.map_values(|who: usize| joined_as(events, who));
    assert forall|i: int| 0 <= i < order.len() implies present(events).contains(order[i])
        && order[i] != id by {
        assert(order.to_set().contains(order[i]));
    }
    assert(names =~= order.map_values(|who: usize| members[who]));
    assert(is_order_of(order, present(events).remove(id)));
}

/// Nobody is sent the announcement of their own join, message or leave.
pub proof fn lemma_actor_is_not_addressed(
    members: Roster,
    event: EventView,
    reaction: ReactionView,
)
    requires
        reacts(members, event, reaction),
    ensures
        forall|i: int|
            0 <= i < reaction.broadcast.len() ==> (#[trigger] reaction.broadcast[i]).to != actor(
                event,
            ),
{
    assert forall|i: int| 0 <= i < reaction.broadcast.len() implies (
    #[trigger] reaction.broadcast[i]).to != actor(event) by {
        let to = recipients_of(reaction.broadcast);
        assert(to[i] == reaction.broadcast[i].to);
        assert(to.to_set().contains(to[i]));
    }
}

/// An event that takes effect is announced to everybody in the room but
/// its actor: to one fewer than the members, the actor counted among them.
/// An event that does not is announced to nobody.
pub proof fn lemma_fanout_reaches_all_others(
    members: Roster,
    event: EventView,
    reaction: ReactionView,
)
    requires
        members.dom().finite(),
        reacts(members, event, reaction),
    ensures
        takes_effect(members, event) ==> reaction.broadcast.len() == members.dom().insert(
            actor(event),
        ).len() - 1,
        !takes_effect(members, event) ==> reaction.broadcast.len() == 0,
        forall|who: usize|
            takes_effect(members, event) && members.contains_key(who) && who != actor(event)
                ==> exists|i: int|
                0 <= i < reaction.broadcast.len() && (#[trigger] reaction.broadcast[i]).to == who,
{
    if takes_effect(members, event) {
        let to = recipients_of(reaction.broadcast);
        to.unique_seq_to_set();
        assert(members.dom().insert(actor(event)).remove(actor(event)) =~= members.dom().remove(
            actor(event),
        ));
        assert forall|who: usize| members.contains_key(who) && who != actor(event) implies exists|
            i: int,
        |
            0 <= i < reaction.broadcast.len() && (#[trigger] reaction.broadcast[i]).to == who by {
            assert(to.to_set().contains(who));
            let i = choose|i: int| 0 <= i < to.len() && to[i] == who;
            assert(reaction.broadcast[i].to == who);
        }
    }
}

/// A message or a leave of somebody who is not in the room, and an empty
/// message, leave the room as it is and are answered with nothing.
pub proof fn lemma_stray_events_are_ignored(
    members: Roster,
    event: EventView,
    reaction: ReactionView,
)
    requires
        !takes_effect(members, event),
        reacts(members, event, reaction),
    ensures
        step(members, event) == members,
        reaction.broadcast.len() == 0,
        reaction.roster is None,
{
    assert(step(members, event) =~= members);
}

/// The room acts on a leave only for somebody whose join it took before
/// and who has not left since: at whatever point of whatever events a
/// leave takes effect, its user is among those present.
pub proof fn lemma_only_the_present_leave(events: Seq<EventView>, i: int, id: usize)
    requires
        0 <= i < events.len(),
        events[i] == EventView::Leave(id),
        takes_effect(run(Map::empty(), events.take(i)), events[i]),
    ensures
        present(events.take(i)).contains(id),
        exists|j: int| 0 <= j < i && #[trigger] joins(events[j], id),
{
    let earlier = events.take(i);
    lemma_members_are_present(earlier);
    assert(run(Map::empty(), earlier).dom().contains(id));
    let j = choose|j: int|
        0 <= j < earlier.len() && #[trigger] joins(earlier[j], id) && forall|k: int|
            j < k < earlier.len() ==> !#[trigger] leaves(earlier[k], id);
    assert(joins(events[j], id));
}

/// What a session has reported, by where it stands: nothing while it
/// waits for the name; a join and then messages while it is in the room;
/// after it closed, nothing at all or a join, messages and one leave.
pub open spec fn well_ordered(id: usize, phase: Phase, trace: Seq<EventView>) -> bool {
    &&& forall|i: int| 0 <= i < trace.len() ==> actor(#[trigger] trace[i]) == id
    &&& forall|i: int| 0 <= i < trace.len() ==> ((#[trigger] trace[i]) is Enter <==> i == 0)
    &&& forall|i: int|
        0 <= i < trace.len() ==> ((#[trigger] trace[i]) is Leave ==> i == trace.len() - 1)
    &&& match phase {
        Phase::Greeting => trace.len() == 0,
        Phase::Joined => trace.len() > 0 && !(trace.last() is Leave),
        Phase::Closed => trace.len() == 0 || trace.last() is Leave,
    }
}

/// A session reports a leave only after it reported a join, and then as
/// the last thing it reports: whatever it reads, its events are a join,
/// then messages, then at most one leave, all under its own identity; and
/// a session that never joined reports nothing.
pub proof fn lemma_leave_follows_enter(id: usize, inputs: Seq<InputView>)
    ensures
        after_inputs(fresh(id), inputs).id == id,
        well_ordered(id, after_inputs(fresh(id), inputs).phase, reported(fresh(id), inputs)),
        forall|i: int|
            0 <= i < reported(fresh(id), inputs).len() && (#[trigger] reported(
                fresh(id),
                inputs,
            )[i]) is Leave ==> i > 0 && reported(fresh(id), inputs)[0] is Enter,
    decreases inputs.len(),
{
    if inputs.len() > 0 {
        lemma_leave_follows_enter(id, inputs.drop_last());
        let before = after_inputs(fresh(id), inputs.drop_last());
        let sofar = reported(fresh(id), inputs.drop_last());
        match on_input(before, inputs.last()).1 {
            Some(e) => {
                let trace = sofar.push(e);
                assert forall|i: int| 0 <= i < trace.len() implies actor(#[trigger] trace[i])
                    == id && (trace[i] is Enter <==> i == 0) && (trace[i] is Leave ==> i
                    == trace.len() - 1) by {
                    if i < sofar.len() {
                        assert(trace[i] == sofar[i]);
                    }
                }
            },
            None => {},
        }
    }
}

/// Every valid name passes the handshake, whatever whitespace ends its
/// line, and is the name the user then bears.
pub proof fn lemma_valid_names_are_accepted(name: Seq<char>, ending: Seq<char>)
    requires
        valid_name(name),
        forall|i: int| 0 <= i < ending.len() ==> is_space(#[trigger] ending[i]),
    ensures
        handshake(name + ending) == Ok::<Seq<char>, Rejection>(name),
{
    let line = name + ending;
    assert forall|i: int| line.len() - ending.len() <= i < line.len() implies is_space(
        #[trigger] line[i],
    ) by {
        assert(line[i] == ending[i - name.len()]);
    }
    assert(line[name.len() - 1] == name[name.len() - 1]);
    lemma_trailing_spaces(line, ending.len() as int);
    assert(trim_end_of(line) =~= name);
}

/// A line passes the handshake only where what is left of it without its
/// trailing whitespace is a valid name: an empty line, and one with a
/// space, a punctuation mark or a character beyond ASCII in its name, are
/// turned down.
pub proof fn lemma_other_names_are_rejected(line: Seq<char>)
    ensures
        handshake(line) is Ok <==> valid_name(trim_end_of(line)),
        trim_end_of(line).len() == 0 ==> handshake(line) == Err::<Seq<char>, Rejection>(
            Rejection::TooShort,
        ),
        (exists|i: int|
            0 <= i < trim_end_of(line).len() && !is_alnum(#[trigger] trim_end_of(line)[i]))
            ==> handshake(line) is Err,
{
}

/// A session whose handshake fails, or whose connection ends before the
/// name came, never reports anything: neither a join nor a leave.
pub proof fn lemma_failed_handshake_reports_nothing(id: usize, inputs: Seq<InputView>)
    requires
        inputs.len() > 0,
        inputs[0] matches InputView::Line(line) ==> handshake(line) is Err,
    ensures
        reported(fresh(id), inputs).len() == 0,
        after_inputs(fresh(id), inputs) == (SessionView { id, phase: Phase::Closed }),
    decreases inputs.len(),
{
    if inputs.len() > 1 {
        assert(inputs.drop_last()[0] == inputs[0]);
        lemma_failed_handshake_reports_nothing(id, inputs.drop_last());
    } else {
        reveal_with_fuel(reported, 2);
        reveal_with_fuel(after_inputs, 2);
        assert(inputs.last() == inputs[0]);
    }
}

} // verus!
