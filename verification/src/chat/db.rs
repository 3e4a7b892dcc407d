//! The shared user directory: the one piece of state all connection
//! handlers see.
//!
//! `Db` maps each registered display name to that client's outbound sink.
//! It is a plain sequential value; the process wraps one instance in a lock
//! and performs each operation below as a single critical section, which is
//! what makes `add_user` an atomic check-and-insert with respect to racing
//! registrations.  The sink type is a parameter: the directory's own logic
//! never looks inside a sink, it only stores and hands out copies.

use vstd::prelude::*;

use crate::chat::users::{ChatError, Username};

verus! {

/// No display name occurs twice.
pub open spec fn unique_names(names: Seq<Seq<char>>) -> bool {
    forall|i: int, j: int| 0 <= i < j < names.len() ==> names[i] != names[j]
}

/// What one registration attempt does to the room, as a pure transition:
/// the names afterwards, and whether the attempt succeeded.  `add_user`
/// ensures that it follows this model, so room-wide laws proved over it
/// hold of the executable directory.
pub open spec fn register_step(names: Seq<Seq<char>>, n: Seq<char>) -> (Seq<Seq<char>>, bool) {
    if names.contains(n) {
        (names, false)
    } else {
        (names.push(n), true)
    }
}

/// The directory of currently connected, named clients.
pub struct Db<S> {
    entries: Vec<(Username, S)>,
}

impl<S> Db<S> {
    /// The directory's contents: each registered display name, in
    /// registration order, paired with the sink stored for it.
    pub closed spec fn contents(&self) -> Seq<(Seq<char>, S)> {
        self.entries@.map_values(|e: (Username, S)| (e.0@, e.1))
    }

    /// The registered names, in registration order.
    pub open spec fn names(&self) -> Seq<Seq<char>> {
        self.contents().map_values(|p: (Seq<char>, S)| p.0)
    }

    /// The directory invariant: at most one entry per display name.
    pub open spec fn wf(&self) -> bool {
        unique_names(self.names())
    }

    /// Whether `n` is currently registered.
    pub open spec fn has_name(&self, n: Seq<char>) -> bool {
        self.names().contains(n)
    }

    /// The position of `n` among the registered names.
    pub open spec fn name_index(&self, n: Seq<char>) -> int {
        self.names().index_of(n)
    }

    /// An empty directory.
    pub fn new() -> (db: Db<S>)
        ensures
            db.contents() =~= Seq::<(Seq<char>, S)>::empty(),
            db.names() =~= Seq::<Seq<char>>::empty(),
            db.wf(),
    {
        Db { entries: Vec::new() }
    }

    /// Find the index of `username` among the entries, if present.
    fn find(&self, username: &Username) -> (r: Option<usize>)
        ensures
            match r {
                Some(i) => i < self.names().len() && self.names()[i as int] == username@,
                None => !self.has_name(username@),
            },
    {
        let n = self.entries.len();
        let mut i: usize = 0;
        while i < n
            invariant
                n == self.names().len(),
                0 <= i <= n,
                forall|j: int| 0 <= j < i ==> self.names()[j] != username@,
            decreases n - i,
        {
            if self.entries[i].0.same_name(username) {
                return Some(i);
            }
            i = i + 1;
        }
        None
    }

    /// A point-in-time copy of the directory: each registered name, in
    /// order, paired with a copy of that very client's sink.  Callers
    /// iterate the copy without touching the directory again.
    pub fn get_users(&self) -> (us: Vec<(Username, S)>)
        where S: Clone
        ensures
            us@.len() == self.contents().len(),
            forall|i: int|
                0 <= i < us@.len() ==> us@[i].0@ == self.contents()[i].0 && cloned::<S>(
                    self.contents()[i].1,
                    us@[i].1,
                ),
    {
        let n = self.entries.len();
        let mut us: Vec<(Username, S)> = Vec::new();
        let mut i: usize = 0;
        while i < n
            invariant
                n == self.contents().len(),
                n == self.entries@.len(),
                0 <= i <= n,
                us@.len() == i,
                forall|j: int|
                    0 <= j < i ==> us@[j].0@ == self.contents()[j].0 && cloned::<S>(
                        self.contents()[j].1,
                        us@[j].1,
                    ),
            decreases n - i,
        {
            let name = self.entries[i].0.clone();
            let sink = self.entries[i].1.clone();
            us.push((name, sink));
            i = i + 1;
        }
        us
    }

    /// Atomic check-and-insert: register `username` with a copy of the
    /// given sink unless the name is already present.  Exactly one of two
    /// racing registrations of the same name can succeed, because each call
    /// runs as one critical section on the shared directory and the loser
    /// then finds the name present.  On success the one new entry carries
    /// the given sink and every earlier entry — name and sink — stands
    /// untouched; on failure the whole directory, sinks included, is
    /// unchanged, so the winner's sink is kept.
    pub fn add_user(&mut self, username: &Username, connection: &S) -> (r: Result<(), ChatError>)
        where S: Clone
        requires
            old(self).wf(),
        ensures
            final(self).wf(),
            final(self).names() =~= register_step(old(self).names(), username@).0,
            (r is Ok) == register_step(old(self).names(), username@).1,
            match r {
                Ok(()) => {
                    &&& !old(self).has_name(username@)
                    &&& final(self).names() =~= old(self).names().push(username@)
                    &&& final(self).contents().len() == old(self).contents().len() + 1
                    &&& final(self).contents().take(old(self).contents().len() as int) =~= old(
                        self).contents()
                    &&& final(self).contents().last().0 == username@
                    &&& cloned::<S>(*connection, final(self).contents().last().1)
                },
                Err(e) => e == ChatError::NameTaken && old(self).has_name(username@) && final(
                    self).contents() =~= old(self).contents(),
            },
    {
        match self.find(username) {
            Some(_) => Err(ChatError::NameTaken),
            None => {
                self.entries.push((username.clone(), connection.clone()));
                proof {
                    assert(self.contents().take(old(self).contents().len() as int) =~= old(
                        self).contents());
                    assert(self.names() =~= old(self).names().push(username@));
                }
                Ok(())
            },
        }
    }

    /// Idempotent removal: after the call `username` is not registered; the
    /// other entries — name and sink alike — keep their order and values.
    /// A no-op if the name is absent.
    pub fn remove_user(&mut self, username: &Username)
        requires
            old(self).wf(),
        ensures
            final(self).wf(),
            !final(self).has_name(username@),
            old(self).has_name(username@) ==> final(self).contents() =~= old(
                self).contents().remove(old(self).name_index(username@)),
            !old(self).has_name(username@) ==> final(self).contents() =~= old(self).contents(),
            old(self).has_name(username@) ==> final(self).names() =~= old(self).names().remove(
                old(self).name_index(username@),
            ),
            !old(self).has_name(username@) ==> final(self).names() =~= old(self).names(),
    {
        match self.find(username) {
            Some(i) => {
                proof {
                    assert(old(self).names().contains(username@));
                }
                self.entries.remove(i);
                proof {
                    let names0 = old(self).names();
                    let k = old(self).name_index(username@);
                    assert(0 <= k < names0.len() && names0[k] == username@);
                    assert(k == i as int);
                    assert(self.contents() =~= old(self).contents().remove(i as int));
                    assert(self.names() =~= names0.remove(i as int));
                    assert forall|j: int| 0 <= j < self.names().len() implies self.names()[j]
                        != username@ by {
                        if j < i {
                            assert(self.names()[j] == names0[j]);
                        } else {
                            assert(self.names()[j] == names0[j + 1]);
                        }
                    }
                    assert forall|a: int, b: int|
                        0 <= a < b < self.names().len() implies self.names()[a]
                        != self.names()[b] by {
                        let a0: int = if a < i { a } else { a + 1 };
                        let b0: int = if b < i { b } else { b + 1 };
                        assert(self.names()[a] == names0[a0]);
                        assert(self.names()[b] == names0[b0]);
                    }
                }
            },
            None => {},
        }
    }
}

} // verus!
