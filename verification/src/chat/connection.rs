//! Per-connection handler logic: the name-registration handshake, the relay
//! of chat lines, and the departure cleanup.
//!
//! A connection handler moves through four phases: it greets the client,
//! waits for a candidate name, relays the client's lines while it is in the
//! room, and announces the departure when the connection ends.  Everything
//! the handler decides — which directory change to make and which line to
//! deliver to which member — is computed here from plain values; the caller
//! only performs the reads and writes.  Each function that touches the
//! shared directory is meant to run as a single critical section on it, and
//! the returned deliveries are then performed without holding it.

use vstd::prelude::*;
use vstd::seq_lib::group_seq_properties;

use crate::chat::db::Db;
use crate::chat::users::{valid_name, ChatError, Username};

verus! {

/// The greeting sent to every client immediately on connect.
pub open spec fn welcome_text() -> Seq<char> {
    "Welcome to budgetchat! What shall I call you?\n"@
}

/// The line announcing to present members that `name` joined.
pub open spec fn entered_line(name: Seq<char>) -> Seq<char> {
    "* "@ + name + " has entered the room\n"@
}

/// The line announcing to remaining members that `name` left.
pub open spec fn left_line(name: Seq<char>) -> Seq<char> {
    "* "@ + name + " has left the room\n"@
}

/// The relayed form of a chat line `text` sent by `sender`.
pub open spec fn chat_line(sender: Seq<char>, text: Seq<char>) -> Seq<char> {
    "["@ + sender + "] "@ + text + "\n"@
}

/// `names` joined with a comma and a space between each pair.
pub open spec fn joined_names(names: Seq<Seq<char>>) -> Seq<char>
    decreases names.len(),
{
    if names.len() == 0 {
        Seq::empty()
    } else if names.len() == 1 {
        names[0]
    } else {
        joined_names(names.drop_last()) + ", "@ + names.last()
    }
}

/// The roster line presented to a client that joins a non-empty room.
pub open spec fn roster_line(names: Seq<Seq<char>>) -> Seq<char> {
    "* The room contains: "@ + joined_names(names) + "\n"@
}

/// The predicate selecting every name other than `sender`.
pub open spec fn not_name(sender: Seq<char>) -> spec_fn(Seq<char>) -> bool {
    |n: Seq<char>| n != sender
}

/// The members a relayed line goes to: every registered name but the
/// sender's own.
pub open spec fn others(names: Seq<Seq<char>>, sender: Seq<char>) -> Seq<Seq<char>> {
    names.filter(not_name(sender))
}

/// The sink registered under `n`: the first entry's, and with unique
/// names the only one.
pub open spec fn sink_for<S>(contents: Seq<(Seq<char>, S)>, n: Seq<char>) -> S
    decreases contents.len(),
{
    if contents.len() == 0 {
        arbitrary()
    } else if contents[0].0 == n {
        contents[0].1
    } else {
        sink_for(contents.drop_first(), n)
    }
}

/// In a directory free of duplicate names, the sink registered under an
/// entry's name is that entry's own.
proof fn lemma_sink_for_index<S>(contents: Seq<(Seq<char>, S)>, i: int)
    requires
        forall|a: int, b: int| 0 <= a < b < contents.len() ==> contents[a].0 != contents[b].0,
        0 <= i < contents.len(),
    ensures
        sink_for(contents, contents[i].0) == contents[i].1,
    decreases contents.len(),
{
    if i > 0 {
        let t = contents.drop_first();
        assert(contents[0].0 != contents[i].0);
        assert forall|a: int, b: int| 0 <= a < b < t.len() implies t[a].0 != t[b].0 by {
            assert(t[a] == contents[a + 1] && t[b] == contents[b + 1]);
        }
        assert(t[i - 1] == contents[i]);
        lemma_sink_for_index(t, i - 1);
    }
}

/// One line to hand to one member: the recipient's name, a copy of that
/// member's sink, and the full text to write to it.
#[derive(Debug)]
pub struct Delivery<S> {
    pub name: Username,
    pub sink: S,
    pub line: String,
}

/// The outcome of a successful handshake: the registered name, the join
/// announcement for each member that was already present, and the roster
/// line for the new client itself (absent when the room was empty).
#[derive(Debug)]
pub struct Joined<S> {
    pub name: Username,
    pub announcements: Vec<Delivery<S>>,
    pub roster: Option<String>,
}

/// The names carried by a list of deliveries, in order.
pub open spec fn delivery_names<S>(ds: Seq<Delivery<S>>) -> Seq<Seq<char>> {
    ds.map_values(|d: Delivery<S>| d.name@)
}

/// Filtering a sequence extended by one element keeps the element exactly
/// when it satisfies the predicate.
pub proof fn lemma_filter_push<A>(s: Seq<A>, x: A, pred: spec_fn(A) -> bool)
    ensures
        s.push(x).filter(pred) == if pred(x) {
            s.filter(pred).push(x)
        } else {
            s.filter(pred)
        },
{
    reveal_with_fuel(Seq::filter, 2);
    assert(s.push(x).drop_last() =~= s);
    assert(s.push(x).last() == x);
}

/// The greeting, as sent on connect.
pub fn welcome_prompt() -> (r: String)
    ensures
        r@ == welcome_text(),
{
    String::from_str("Welcome to budgetchat! What shall I call you?\n")
}

fn entered_msg(name: &Username) -> (r: String)
    ensures
        r@ == entered_line(name@),
{
    let mut s = String::from_str("* ");
    s.append(name.as_str());
    s.append(" has entered the room\n");
    s
}

fn left_msg(name: &Username) -> (r: String)
    ensures
        r@ == left_line(name@),
{
    let mut s = String::from_str("* ");
    s.append(name.as_str());
    s.append(" has left the room\n");
    s
}

fn chat_msg(sender: &Username, text: &str) -> (r: String)
    ensures
        r@ == chat_line(sender@, text@),
{
    let mut s = String::from_str("[");
    s.append(sender.as_str());
    s.append("] ");
    s.append(text);
    s.append("\n");
    s
}

fn roster_msg<S>(us: &Vec<(Username, S)>) -> (r: String)
    ensures
        r@ == roster_line(us@.map_values(|e: (Username, S)| e.0@)),
{
    let ghost names = us@.map_values(|e: (Username, S)| e.0@);
    let mut s = String::from_str("* The room contains: ");
    let n = us.len();
    let mut i: usize = 0;
    proof {
        assert(s@ + joined_names(names.take(0)) =~= s@);
    }
    while i < n
        invariant
            n == names.len(),
            n == us@.len(),
            0 <= i <= n,
            forall|j: int| 0 <= j < n ==> names[j] == us@[j].0@,
            s@ == "* The room contains: "@ + joined_names(names.take(i as int)),
        decreases n - i,
    {
        if i > 0 {
            s.append(", ");
        }
        s.append(us[i].0.as_str());
        proof {
            let t = names.take(i + 1);
            assert(t.drop_last() =~= names.take(i as int));
            assert(t.last() == names[i as int]);
            if i == 0 {
                assert(joined_names(t) == names[0]);
                assert("* The room contains: "@ + joined_names(names.take(0)) + names[0]
                    =~= "* The room contains: "@ + joined_names(t));
            } else {
                assert(joined_names(t) == joined_names(names.take(i as int)) + ", "@
                    + names[i as int]);
                assert("* The room contains: "@ + joined_names(names.take(i as int)) + ", "@
                    + names[i as int] =~= "* The room contains: "@ + joined_names(t));
            }
        }
        i = i + 1;
    }
    proof {
        assert(names.take(n as int) =~= names);
    }
    s.append("\n");
    s
}

/// Turn a member snapshot into one delivery of `line` per member, in
/// order, each delivery carrying that member's own sink from the snapshot.
fn deliveries_to_all<S>(us: Vec<(Username, S)>, line: &String) -> (ds: Vec<Delivery<S>>)
    ensures
        ds@.len() == us@.len(),
        forall|i: int|
            0 <= i < ds@.len() ==> ds@[i].name@ == us@[i].0@ && ds@[i].sink == us@[i].1
                && ds@[i].line@ == line@,
{
    let ghost orig = us@;
    let mut us = us;
    let mut ds: Vec<Delivery<S>> = Vec::new();
    while us.len() > 0
        invariant
            ds@.len() + us@.len() == orig.len(),
            us@ =~= orig.skip(ds@.len() as int),
            forall|j: int|
                0 <= j < ds@.len() ==> ds@[j].name@ == orig[j].0@ && ds@[j].sink == orig[j].1
                    && ds@[j].line@ == line@,
        decreases us@.len(),
    {
        let ghost done = ds@.len() as int;
        let (name, sink) = us.remove(0);
        proof {
            assert(name == orig[done].0 && sink == orig[done].1);
            assert(us@ =~= orig.skip(done + 1));
        }
        ds.push(Delivery { name, sink, line: line.clone() });
    }
    ds
}

/// The name-registration handshake, run when the client's first line
/// arrives.
///
/// Validates the candidate, takes the pre-registration snapshot, and then
/// registers the new client, all in one critical section on the directory.
/// On success it returns the join announcement for every member that was
/// already present — each addressed to that member's own registered sink —
/// and, when the room was not empty, the roster line showing exactly those
/// already-present members (never the new client itself).  On `InvalidName`
/// or `NameTaken` the directory, sinks included, is unchanged and nothing
/// is announced.
pub fn handshake<S: Clone>(db: &mut Db<S>, candidate: String, sink: S) -> (r: Result<
    Joined<S>,
    ChatError,
>)
    requires
        old(db).wf(),
    ensures
        final(db).wf(),
        match r {
            Ok(j) => {
                &&& valid_name(candidate@)
                &&& !old(db).has_name(candidate@)
                &&& j.name@ == candidate@
                &&& final(db).names() =~= old(db).names().push(candidate@)
                &&& final(db).contents().len() == old(db).contents().len() + 1
                &&& final(db).contents().take(old(db).contents().len() as int) =~= old(
                    db).contents()
                &&& final(db).contents().last().0 == candidate@
                &&& cloned::<S>(sink, final(db).contents().last().1)
                &&& delivery_names(j.announcements@) =~= old(db).names()
                &&& forall|i: int|
                    0 <= i < j.announcements@.len() ==> j.announcements@[i].line@ == entered_line(
                        candidate@,
                    )
                &&& forall|i: int|
                    0 <= i < j.announcements@.len() ==> cloned::<S>(
                        sink_for(old(db).contents(), j.announcements@[i].name@),
                        j.announcements@[i].sink,
                    )
                &&& (old(db).names().len() == 0 <==> j.roster is None)
                &&& (old(db).names().len() > 0 ==> (j.roster matches Some(ros) && ros@
                    == roster_line(old(db).names())))
            },
            Err(e) => {
                &&& final(db).contents() =~= old(db).contents()
                &&& final(db).names() =~= old(db).names()
                &&& (e == ChatError::InvalidName ==> !valid_name(candidate@))
                &&& (e == ChatError::NameTaken ==> valid_name(candidate@)
                    && old(db).has_name(candidate@))
                &&& (e == ChatError::InvalidName || e == ChatError::NameTaken)
            },
        },
{
    let username = match Username::new(candidate) {
        Ok(u) => u,
        Err(e) => {
            return Err(e);
        },
    };
    let us = db.get_users();
    let ghost snap = us@;
    match db.add_user(&username, &sink) {
        Ok(()) => {},
        Err(e) => {
            return Err(e);
        },
    }
    let line = entered_msg(&username);
    let roster = if us.len() == 0 {
        None
    } else {
        Some(roster_msg(&us))
    };
    let announcements = deliveries_to_all(us, &line);
    proof {
        let c0 = old(db).contents();
        assert(snap.map_values(|e: (Username, S)| e.0@) =~= old(db).names());
        assert(delivery_names(announcements@) =~= old(db).names());
        assert forall|a: int, b: int| 0 <= a < b < c0.len() implies c0[a].0 != c0[b].0 by {
            assert(old(db).names()[a] == c0[a].0 && old(db).names()[b] == c0[b].0);
        }
        assert forall|i: int| 0 <= i < announcements@.len() implies cloned::<S>(
            sink_for(c0, announcements@[i].name@),
            announcements@[i].sink,
        ) by {
            assert(announcements@[i].name@ == snap[i].0@ && announcements@[i].sink == snap[i].1);
            assert(snap[i].0@ == c0[i].0);
            lemma_sink_for_index(c0, i);
        }
    }
    Ok(Joined { name: username, announcements, roster })
}

/// Relay one chat line: from a fresh snapshot of the directory, one
/// delivery of `[sender] text` to every member except the sender, in
/// directory order, each delivery carrying the sink registered under the
/// name it is addressed to.
pub fn relay<S: Clone>(db: &Db<S>, sender: &Username, text: &str) -> (ds: Vec<Delivery<S>>)
    requires
        db.wf(),
    ensures
        delivery_names(ds@) =~= others(db.names(), sender@),
        forall|i: int|
            0 <= i < ds@.len() ==> ds@[i].line@ == chat_line(sender@, text@) && ds@[i].name@
                != sender@ && db.names().contains(ds@[i].name@),
        forall|i: int|
            0 <= i < ds@.len() ==> cloned::<S>(
                sink_for(db.contents(), ds@[i].name@),
                ds@[i].sink,
            ),
{
    broadcast use group_seq_properties;

    let us = db.get_users();
    let ghost snap = us@;
    let line = chat_msg(sender, text);
    let n = us.len();
    let mut us = us;
    let mut ds: Vec<Delivery<S>> = Vec::new();
    let mut i: usize = 0;
    proof {
        assert(db.names().take(0).filter(not_name(sender@)) =~= Seq::<Seq<char>>::empty());
        assert(delivery_names(ds@) =~= Seq::<Seq<char>>::empty());
        assert(us@ =~= snap.skip(0));
    }
    while i < n
        invariant
            n == db.names().len(),
            n == snap.len(),
            db.wf(),
            forall|j: int|
                0 <= j < n ==> snap[j].0@ == db.contents()[j].0 && cloned::<S>(
                    db.contents()[j].1,
                    snap[j].1,
                ),
            0 <= i <= n,
            i + us@.len() == n,
            us@ =~= snap.skip(i as int),
            line@ == chat_line(sender@, text@),
            delivery_names(ds@) == db.names().take(i as int).filter(not_name(sender@)),
            forall|j: int|
                0 <= j < ds@.len() ==> ds@[j].line@ == chat_line(sender@, text@) && ds@[j].name@
                    != sender@ && db.names().contains(ds@[j].name@),
            forall|j: int|
                0 <= j < ds@.len() ==> cloned::<S>(
                    sink_for(db.contents(), ds@[j].name@),
                    ds@[j].sink,
                ),
        decreases n - i,
    {
        let ghost names = db.names();
        let ghost ds_before = delivery_names(ds@);
        proof {
            assert(names.take(i + 1) =~= names.take(i as int).push(names[i as int]));
            lemma_filter_push(names.take(i as int), names[i as int], not_name(sender@));
        }
        let (name, sink) = us.remove(0);
        proof {
            assert(name == snap[i as int].0 && sink == snap[i as int].1);
            assert(us@ =~= snap.skip(i + 1));
        }
        if !name.same_name(sender) {
            ds.push(Delivery { name, sink, line: line.clone() });
            proof {
                assert(not_name(sender@)(names[i as int]));
                assert(delivery_names(ds@) =~= ds_before.push(names[i as int]));
                assert(delivery_names(ds@) =~= names.take(i + 1).filter(not_name(sender@)));
                let c = db.contents();
                assert forall|a: int, b: int| 0 <= a < b < c.len() implies c[a].0 != c[b].0 by {
                    assert(names[a] == c[a].0 && names[b] == c[b].0);
                }
                lemma_sink_for_index(c, i as int);
            }
        } else {
            proof {
                assert(!not_name(sender@)(names[i as int]));
                assert(delivery_names(ds@) =~= names.take(i + 1).filter(not_name(sender@)));
            }
        }
        i = i + 1;
    }
    proof {
        assert(db.names().take(n as int) =~= db.names());
    }
    ds
}

/// Departure cleanup, run on every exit path out of the room: unregister
/// the name, then announce `* name has left the room` to every remaining
/// member of the post-removal snapshot, each over that member's own
/// registered sink.  Idempotent on the directory.
pub fn depart<S: Clone>(db: &mut Db<S>, name: &Username) -> (ds: Vec<Delivery<S>>)
    requires
        old(db).wf(),
    ensures
        final(db).wf(),
        !final(db).has_name(name@),
        old(db).has_name(name@) ==> final(db).contents() =~= old(db).contents().remove(
            old(db).name_index(name@),
        ),
        !old(db).has_name(name@) ==> final(db).contents() =~= old(db).contents(),
        old(db).has_name(name@) ==> final(db).names() =~= old(db).names().remove(
            old(db).name_index(name@),
        ),
        !old(db).has_name(name@) ==> final(db).names() =~= old(db).names(),
        delivery_names(ds@) =~= final(db).names(),
        forall|i: int| 0 <= i < ds@.len() ==> ds@[i].line@ == left_line(name@),
        forall|i: int|
            0 <= i < ds@.len() ==> cloned::<S>(
                sink_for(final(db).contents(), ds@[i].name@),
                ds@[i].sink,
            ),
{
    db.remove_user(name);
    let us = db.get_users();
    let ghost snap = us@;
    let line = left_msg(name);
    let ds = deliveries_to_all(us, &line);
    proof {
        let c = db.contents();
        assert(delivery_names(ds@) =~= db.names());
        assert forall|a: int, b: int| 0 <= a < b < c.len() implies c[a].0 != c[b].0 by {
            assert(db.names()[a] == c[a].0 && db.names()[b] == c[b].0);
        }
        assert forall|i: int| 0 <= i < ds@.len() implies cloned::<S>(
            sink_for(c, ds@[i].name@),
            ds@[i].sink,
        ) by {
            assert(ds@[i].name@ == snap[i].0@ && ds@[i].sink == snap[i].1);
            assert(snap[i].0@ == c[i].0);
            lemma_sink_for_index(c, i);
        }
    }
    ds
}

} // verus!
