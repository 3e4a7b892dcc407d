//! Room-wide laws of the chat relay, proved over the directory's pure
//! transition model and the relay's target computation.
//!
//! The executable operations tie themselves to these models in their
//! `ensures` clauses (`Db::add_user` to [`register_step`], `relay` to
//! [`others`]), so what is proved here holds of the running directory.

use vstd::prelude::*;

use crate::chat::connection::{lemma_filter_push, not_name, others};
use crate::chat::db::{register_step, unique_names};

verus! {

/// The room after a whole sequence of registration attempts, applied in
/// the order the directory lock serialises them.
pub open spec fn register_all(names: Seq<Seq<char>>, candidates: Seq<Seq<char>>) -> Seq<Seq<char>>
    decreases candidates.len(),
{
    if candidates.len() == 0 {
        names
    } else {
        register_all(register_step(names, candidates[0]).0, candidates.drop_first())
    }
}

/// How many times `x` occurs in `names`.
pub open spec fn occurrences(names: Seq<Seq<char>>, x: Seq<char>) -> nat
    decreases names.len(),
{
    if names.len() == 0 {
        0
    } else {
        occurrences(names.drop_last(), x) + (if names.last() == x {
            1nat
        } else {
            0nat
        })
    }
}

/// Counting distributes over appending one name.
pub proof fn lemma_occurrences_push(names: Seq<Seq<char>>, y: Seq<char>, x: Seq<char>)
    ensures
        occurrences(names.push(y), x) == occurrences(names, x) + (if y == x {
            1nat
        } else {
            0nat
        }),
{
    assert(names.push(y).drop_last() =~= names);
}

/// A name that is not present occurs zero times.
pub proof fn lemma_occurrences_absent(names: Seq<Seq<char>>, x: Seq<char>)
    requires
        !names.contains(x),
    ensures
        occurrences(names, x) == 0,
    decreases names.len(),
{
    if names.len() > 0 {
        assert forall|i: int| 0 <= i < names.drop_last().len() implies names.drop_last()[i]
            != x by {
            assert(names[i] == names.drop_last()[i]);
        }
        lemma_occurrences_absent(names.drop_last(), x);
        assert(names.last() != x);
    }
}

/// In a duplicate-free room, a present name occurs exactly once.
pub proof fn lemma_occurrences_in_unique(names: Seq<Seq<char>>, x: Seq<char>)
    requires
        unique_names(names),
        names.contains(x),
    ensures
        occurrences(names, x) == 1,
    decreases names.len(),
{
    let prefix = names.drop_last();
    assert(names.len() > 0);
    if names.last() == x {
        assert forall|i: int| 0 <= i < prefix.len() implies prefix[i] != x by {
            assert(names[i] == prefix[i]);
            assert(names[i] != names[names.len() - 1]);
        }
        lemma_occurrences_absent(prefix, x);
    } else {
        let k = choose|i: int| 0 <= i < names.len() && names[i] == x;
        assert(k < names.len() - 1);
        assert(prefix[k] == x);
        assert(prefix.contains(x));
        assert forall|i: int, j: int| 0 <= i < j < prefix.len() implies prefix[i] != prefix[j] by {
            assert(names[i] == prefix[i] && names[j] == prefix[j]);
        }
        lemma_occurrences_in_unique(prefix, x);
    }
}

/// One registration attempt keeps the room free of duplicate names.
pub proof fn lemma_register_step_keeps_names_unique(names: Seq<Seq<char>>, n: Seq<char>)
    requires
        unique_names(names),
    ensures
        unique_names(register_step(names, n).0),
{
    if !names.contains(n) {
        let after = names.push(n);
        assert forall|i: int, j: int| 0 <= i < j < after.len() implies after[i] != after[j] by {
            if j == after.len() - 1 {
                assert(after[i] == names[i]);
                if names[i] == n {
                    assert(names.contains(n));
                }
            } else {
                assert(after[i] == names[i] && after[j] == names[j]);
            }
        }
    }
}

/// However many registrations arrive, and in whatever order the directory
/// lock serialises them, the directory never holds two entries with the
/// same display name.
pub proof fn lemma_no_duplicate_names(names: Seq<Seq<char>>, candidates: Seq<Seq<char>>)
    requires
        unique_names(names),
    ensures
        unique_names(register_all(names, candidates)),
    decreases candidates.len(),
{
    if candidates.len() > 0 {
        lemma_register_step_keeps_names_unique(names, candidates[0]);
        lemma_no_duplicate_names(register_step(names, candidates[0]).0, candidates.drop_first());
    }
}

/// Two registrations of the same free name, serialised by the directory
/// lock in either order: the one the lock admits first succeeds, the other
/// fails, and the room afterwards holds exactly one entry under that name.
pub proof fn lemma_same_name_race(names: Seq<Seq<char>>, n: Seq<char>)
    requires
        unique_names(names),
        !names.contains(n),
    ensures
        register_step(names, n).1,
        !register_step(register_step(names, n).0, n).1,
        register_step(register_step(names, n).0, n).0 =~= register_step(names, n).0,
        occurrences(register_step(names, n).0, n) == 1,
{
    let after = register_step(names, n).0;
    assert(after[names.len() as int] == n);
    assert(after.contains(n));
    lemma_register_step_keeps_names_unique(names, n);
    lemma_occurrences_in_unique(after, n);
}

/// Filtering out the sender does not change how often any other name
/// occurs.
pub proof fn lemma_occurrences_others(names: Seq<Seq<char>>, sender: Seq<char>, p: Seq<char>)
    requires
        p != sender,
    ensures
        occurrences(others(names, sender), p) == occurrences(names, p),
    decreases names.len(),
{
    reveal_with_fuel(Seq::filter, 1);
    if names.len() == 0 {
        assert(others(names, sender) =~= names);
    } else {
        let prefix = names.drop_last();
        let last = names.last();
        assert(names =~= prefix.push(last));
        lemma_filter_push(prefix, last, not_name(sender));
        lemma_occurrences_others(prefix, sender, p);
        if last != sender {
            lemma_occurrences_push(prefix.filter(not_name(sender)), last, p);
        } else {
            assert(last != p);
        }
    }
}

/// A single relayed line reaches each other member of the room exactly
/// once, and the sender not at all.
pub proof fn lemma_relay_each_member_once(names: Seq<Seq<char>>, sender: Seq<char>, p: Seq<char>)
    requires
        unique_names(names),
        names.contains(p),
        p != sender,
    ensures
        occurrences(others(names, sender), p) == 1,
        occurrences(others(names, sender), sender) == 0,
{
    lemma_occurrences_in_unique(names, p);
    lemma_occurrences_others(names, sender, p);
    assert forall|i: int| 0 <= i < others(names, sender).len() implies others(names, sender)[i]
        != sender by {
        Seq::lemma_filter_pred(names, not_name(sender), i);
    }
    lemma_occurrences_absent(others(names, sender), sender);
}

/// The relay deliveries a member receives from one client's whole session:
/// one for each line the client sends, the room standing still meanwhile.
pub open spec fn total_relays_to(
    names: Seq<Seq<char>>,
    sender: Seq<char>,
    texts: Seq<Seq<char>>,
    p: Seq<char>,
) -> nat
    decreases texts.len(),
{
    if texts.len() == 0 {
        0
    } else {
        occurrences(others(names, sender), p) + total_relays_to(
            names,
            sender,
            texts.drop_first(),
            p,
        )
    }
}

/// The round trip of one client's session, seen by one peer: a client that
/// joins a room it is not yet named in, sends its lines, and disconnects,
/// causes exactly one join announcement, exactly one relay broadcast per
/// line, and exactly one departure announcement to each peer present
/// throughout.
pub proof fn lemma_session_round_trip(
    names: Seq<Seq<char>>,
    joiner: Seq<char>,
    texts: Seq<Seq<char>>,
    p: Seq<char>,
)
    requires
        unique_names(names),
        !names.contains(joiner),
        names.contains(p),
        p != joiner,
    ensures
        register_step(names, joiner).1,
        occurrences(names, p) == 1,
        total_relays_to(names.push(joiner), joiner, texts, p) == texts.len(),
        names.push(joiner).remove(names.push(joiner).index_of(joiner)) =~= names,
{
    lemma_occurrences_in_unique(names, p);
    let room = names.push(joiner);
    lemma_register_step_keeps_names_unique(names, joiner);
    assert(room[names.len() as int] == joiner);
    assert(room.contains(p)) by {
        let k = choose|i: int| 0 <= i < names.len() && names[i] == p;
        assert(room[k] == p);
    }
    lemma_relay_each_member_once(room, joiner, p);
    lemma_total_relays(room, joiner, texts, p);
    let k = room.index_of(joiner);
    assert(room.contains(joiner));
    assert(0 <= k < room.len() && room[k] == joiner);
    if k < names.len() {
        assert(names[k] == joiner);
        assert(names.contains(joiner));
    }
    assert(k == names.len());
    assert(room.remove(k) =~= names);
}

proof fn lemma_total_relays(
    names: Seq<Seq<char>>,
    sender: Seq<char>,
    texts: Seq<Seq<char>>,
    p: Seq<char>,
)
    requires
        occurrences(others(names, sender), p) == 1,
    ensures
        total_relays_to(names, sender, texts, p) == texts.len(),
    decreases texts.len(),
{
    if texts.len() > 0 {
        lemma_total_relays(names, sender, texts.drop_first(), p);
    }
}

} // verus!
