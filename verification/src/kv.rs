//! The key-value datagram protocol: each datagram is either an insert
//! (`key=value`, split at the first `=`), a retrieve (any other text, taken
//! whole as the key), or the version query (the text that is `version`
//! once surrounding whitespace is trimmed).
//!
//! The store maps keys to values, one value per key, later inserts
//! replacing earlier ones; the key `version` is reserved and never stored.

use vstd::prelude::*;

verus! {

/// The reserved key answered with the server version and never stored.
pub const VERSION_SPECIAL_KEY: &'static str = "version";

/// A request to bind `key` to `value`.
#[derive(Debug, PartialEq, Eq)]
pub struct InsertMessage {
    pub key: String,
    pub value: String,
}

/// A request for the value bound to `key`.
#[derive(Debug, PartialEq, Eq)]
pub struct RetrieveMessage {
    pub key: String,
}

/// One decoded datagram.
#[derive(Debug, PartialEq, Eq)]
pub enum Message {
    Insert(InsertMessage),
    Retrieve(RetrieveMessage),
    Version,
}

/// The position of the first `=` in `s`, or `s.len()` if there is none.
pub open spec fn eq_pos(s: Seq<char>) -> int
    decreases s.len(),
{
    if s.len() == 0 {
        0
    } else if s[0] == '=' {
        0
    } else {
        1 + eq_pos(s.drop_first())
    }
}

/// A whitespace character, as the Unicode `White_Space` property defines
/// them.
pub open spec fn is_space(c: char) -> bool {
    c == '\u{9}' || c == '\u{a}' || c == '\u{b}' || c == '\u{c}' || c == '\u{d}' || c == ' '
        || c == '\u{85}' || c == '\u{a0}' || c == '\u{1680}' || ('\u{2000}' <= c && c
        <= '\u{200a}') || c == '\u{2028}' || c == '\u{2029}' || c == '\u{202f}' || c == '\u{205f}'
        || c == '\u{3000}'
}

/// `s` with its leading whitespace removed.
pub open spec fn trim_front(s: Seq<char>) -> Seq<char>
    decreases s.len(),
{
    if s.len() > 0 && is_space(s[0]) {
        trim_front(s.drop_first())
    } else {
        s
    }
}

/// `s` with its trailing whitespace removed.
pub open spec fn trim_back(s: Seq<char>) -> Seq<char>
    decreases s.len(),
{
    if s.len() > 0 && is_space(s.last()) {
        trim_back(s.drop_last())
    } else {
        s
    }
}

/// `s` with whitespace removed from both ends.
pub open spec fn trimmed(s: Seq<char>) -> Seq<char> {
    trim_back(trim_front(s))
}

/// A scan that passed `i` non-`=` characters and stopped at an `=` (or at
/// the end) has found the first `=`.
proof fn lemma_eq_pos_from_scan(s: Seq<char>, i: int)
    requires
        0 <= i <= s.len(),
        forall|j: int| 0 <= j < i ==> s[j] != '=',
        i < s.len() ==> s[i] == '=',
    ensures
        eq_pos(s) == i,
    decreases i,
{
    if i == 0 {
    } else {
        let t = s.drop_first();
        assert forall|j: int| 0 <= j < i - 1 implies t[j] != '=' by {
            assert(t[j] == s[j + 1]);
        }
        assert(i - 1 < t.len() ==> t[i - 1] == s[i]);
        lemma_eq_pos_from_scan(t, i - 1);
    }
}

/// Leading whitespace up to `lo` and a non-space at `lo` pin down
/// `trim_front`.
proof fn lemma_trim_front_from_scan(s: Seq<char>, lo: int)
    requires
        0 <= lo <= s.len(),
        forall|j: int| 0 <= j < lo ==> is_space(s[j]),
        lo < s.len() ==> !is_space(s[lo as int]),
    ensures
        trim_front(s) =~= s.skip(lo),
    decreases lo,
{
    if lo == 0 {
        assert(s.skip(0) =~= s);
    } else {
        let t = s.drop_first();
        assert forall|j: int| 0 <= j < lo - 1 implies is_space(t[j]) by {
            assert(t[j] == s[j + 1]);
        }
        assert(lo - 1 < t.len() ==> t[lo - 1] == s[lo as int]);
        lemma_trim_front_from_scan(t, lo - 1);
        assert(t.skip(lo - 1) =~= s.skip(lo));
    }
}

/// Trailing whitespace from `hi` on and a non-space at `hi - 1` pin down
/// `trim_back`.
proof fn lemma_trim_back_from_scan(s: Seq<char>, hi: int)
    requires
        0 <= hi <= s.len(),
        forall|j: int| hi <= j < s.len() ==> is_space(s[j]),
        hi > 0 ==> !is_space(s[hi - 1]),
    ensures
        trim_back(s) =~= s.take(hi),
    decreases s.len(),
{
    if hi == s.len() {
        if s.len() > 0 && is_space(s.last()) {
            assert(false);
        }
        assert(s.take(hi) =~= s);
    } else {
        let t = s.drop_last();
        assert(is_space(s.last()));
        assert forall|j: int| hi <= j < t.len() implies is_space(t[j]) by {
            assert(t[j] == s[j]);
        }
        lemma_trim_back_from_scan(t, hi);
        assert(t.take(hi) =~= s.take(hi));
    }
}

/// Whether `c` has the Unicode `White_Space` property.
fn is_space_char(c: char) -> (r: bool)
    ensures
        r == is_space(c),
{
    c == '\u{9}' || c == '\u{a}' || c == '\u{b}' || c == '\u{c}' || c == '\u{d}' || c == ' '
        || c == '\u{85}' || c == '\u{a0}' || c == '\u{1680}' || ('\u{2000}' <= c && c
        <= '\u{200a}') || c == '\u{2028}' || c == '\u{2029}' || c == '\u{202f}' || c == '\u{205f}'
        || c == '\u{3000}'
}

impl Message {
    /// Decode one datagram.  Text with an `=` anywhere is an insert, split
    /// at the first `=` (so the value may itself contain `=`, and key or
    /// value may be empty).  Otherwise, text that trims to `version` is
    /// the version query, and anything else is a retrieve whose key is the
    /// text exactly as received, untrimmed.
    pub fn new(s: String) -> (r: Message)
        ensures
            eq_pos(s@) < s@.len() ==> (r matches Message::Insert(m) && m.key@ == s@.take(eq_pos(s@))
                && m.value@ == s@.skip(eq_pos(s@) + 1)),
            eq_pos(s@) == s@.len() && trimmed(s@) == "version"@ ==> r == Message::Version,
            eq_pos(s@) == s@.len() && trimmed(s@) != "version"@ ==> (r matches Message::Retrieve(m)
                && m.key@ == s@),
    {
        let len = s.as_str().unicode_len();
        let mut i: usize = 0;
        while i < len && s.as_str().get_char(i) != '='
            invariant
                len == s@.len(),
                0 <= i <= len,
                forall|j: int| 0 <= j < i ==> s@[j] != '=',
            decreases len - i,
        {
            i = i + 1;
        }
        proof {
            lemma_eq_pos_from_scan(s@, i as int);
        }
        if i < len {
            let key = s.as_str().substring_char(0, i).to_owned();
            let value = s.as_str().substring_char(i + 1, len).to_owned();
            proof {
                assert(s@.subrange(0, i as int) =~= s@.take(i as int));
                assert(s@.subrange(i + 1, len as int) =~= s@.skip(i + 1));
            }
            return Message::Insert(InsertMessage { key, value });
        }
        let mut lo: usize = 0;
        while lo < len && is_space_char(s.as_str().get_char(lo))
            invariant
                len == s@.len(),
                0 <= lo <= len,
                forall|j: int| 0 <= j < lo ==> is_space(s@[j]),
            decreases len - lo,
        {
            lo = lo + 1;
        }
        let mut hi: usize = len;
        while hi > lo && is_space_char(s.as_str().get_char(hi - 1))
            invariant
                len == s@.len(),
                lo <= hi <= len,
                lo < len ==> !is_space(s@[lo as int]),
                forall|j: int| hi <= j < len ==> is_space(s@[j]),
            decreases hi,
        {
            hi = hi - 1;
        }
        let t = s.as_str().substring_char(lo, hi).to_owned();
        proof {
            lemma_trim_front_from_scan(s@, lo as int);
            let rest = s@.skip(lo as int);
            if lo == len {
                assert(hi == lo);
            }
            assert forall|j: int| hi - lo <= j < rest.len() implies is_space(rest[j]) by {
                assert(rest[j] == s@[j + lo]);
            }
            assert(hi > lo ==> !is_space(rest[hi - lo - 1]));
            lemma_trim_back_from_scan(rest, hi - lo);
            assert(rest.take(hi - lo) =~= s@.subrange(lo as int, hi as int));
            assert(trimmed(s@) == s@.subrange(lo as int, hi as int));
        }
        let version = String::from_str(VERSION_SPECIAL_KEY);
        if t == version {
            Message::Version
        } else {
            Message::Retrieve(RetrieveMessage { key: s })
        }
    }
}

/// The value the store binds `k` to, if any.
pub open spec fn lookup(s: Seq<(Seq<char>, Seq<char>)>, k: Seq<char>) -> Option<Seq<char>>
    decreases s.len(),
{
    if s.len() == 0 {
        None
    } else if s.last().0 == k {
        Some(s.last().1)
    } else {
        lookup(s.drop_last(), k)
    }
}

/// A bound key in a duplicate-free store is looked up at its entry.
proof fn lemma_lookup_index(s: Seq<(Seq<char>, Seq<char>)>, i: int)
    requires
        forall|a: int, b: int| 0 <= a < b < s.len() ==> s[a].0 != s[b].0,
        0 <= i < s.len(),
    ensures
        lookup(s, s[i].0) == Some(s[i].1),
    decreases s.len(),
{
    if i < s.len() - 1 {
        let t = s.drop_last();
        assert(s.last().0 != s[i].0);
        assert forall|a: int, b: int| 0 <= a < b < t.len() implies t[a].0 != t[b].0 by {
            assert(t[a] == s[a] && t[b] == s[b]);
        }
        assert(t[i] == s[i]);
        lemma_lookup_index(t, i);
    }
}

/// A key bound by no entry is not looked up.
proof fn lemma_lookup_absent(s: Seq<(Seq<char>, Seq<char>)>, k: Seq<char>)
    requires
        forall|j: int| 0 <= j < s.len() ==> s[j].0 != k,
    ensures
        lookup(s, k) is None,
    decreases s.len(),
{
    if s.len() > 0 {
        let t = s.drop_last();
        assert forall|j: int| 0 <= j < t.len() implies t[j].0 != k by {
            assert(t[j] == s[j]);
        }
        lemma_lookup_absent(t, k);
    }
}

/// Two stores with the same keys that agree on every entry whose key is
/// not `k` look up every key other than `k` alike.
proof fn lemma_lookup_agree(
    s1: Seq<(Seq<char>, Seq<char>)>,
    s2: Seq<(Seq<char>, Seq<char>)>,
    k: Seq<char>,
    k2: Seq<char>,
)
    requires
        s1.len() == s2.len(),
        forall|j: int|
            0 <= j < s1.len() ==> s1[j].0 == s2[j].0 && (s1[j].0 != k ==> s1[j] == s2[j]),
        k2 != k,
    ensures
        lookup(s1, k2) == lookup(s2, k2),
    decreases s1.len(),
{
    if s1.len() > 0 {
        assert(s1.last().0 == s2.last().0);
        if s1.last().0 != k2 {
            let t1 = s1.drop_last();
            let t2 = s2.drop_last();
            assert forall|j: int| 0 <= j < t1.len() implies t1[j].0 == t2[j].0 && (t1[j].0 != k
                ==> t1[j] == t2[j]) by {
                assert(t1[j] == s1[j] && t2[j] == s2[j]);
            }
            lemma_lookup_agree(t1, t2, k, k2);
        }
    }
}

/// The shared key-value store: one value per key, later inserts replacing
/// earlier ones.  A plain sequential value; the process wraps one instance
/// in a lock and performs each operation as a single critical section.
pub struct Db {
    entries: Vec<(String, String)>,
}

impl View for Db {
    type V = Seq<(Seq<char>, Seq<char>)>;

    closed spec fn view(&self) -> Seq<(Seq<char>, Seq<char>)> {
        self.entries@.map_values(|e: (String, String)| (e.0@, e.1@))
    }
}

impl Db {
    /// The store invariant: no key occurs twice.
    pub open spec fn wf(&self) -> bool {
        forall|i: int, j: int| 0 <= i < j < self@.len() ==> self@[i].0 != self@[j].0
    }

    /// An empty store.
    pub fn new() -> (db: Db)
        ensures
            db@ =~= Seq::<(Seq<char>, Seq<char>)>::empty(),
            db.wf(),
    {
        Db { entries: Vec::new() }
    }

    /// Find the index of the entry bound to `key`, if any.
    fn find(&self, key: &String) -> (r: Option<usize>)
        ensures
            match r {
                Some(i) => i < self@.len() && self@[i as int].0 == key@,
                None => forall|j: int| 0 <= j < self@.len() ==> self@[j].0 != key@,
            },
    {
        let n = self.entries.len();
        let mut i: usize = 0;
        while i < n
            invariant
                n == self@.len(),
                n == self.entries@.len(),
                0 <= i <= n,
                forall|j: int| 0 <= j < i ==> self@[j].0 != key@,
            decreases n - i,
        {
            if self.entries[i].0 == *key {
                return Some(i);
            }
            i = i + 1;
        }
        None
    }

    /// The value bound to `k`, or nothing if `k` is unbound.
    pub fn get_value(&self, k: &str) -> (r: Option<String>)
        requires
            self.wf(),
        ensures
            match r {
                Some(v) => lookup(self@, k@) == Some(v@),
                None => lookup(self@, k@) is None,
            },
    {
        let key = k.to_owned();
        match self.find(&key) {
            Some(i) => {
                proof {
                    lemma_lookup_index(self@, i as int);
                }
                Some(self.entries[i].1.clone())
            },
            None => {
                proof {
                    lemma_lookup_absent(self@, k@);
                }
                None
            },
        }
    }

    /// Bind `k` to `v`, replacing any earlier binding of `k` and leaving
    /// every other key's binding as it was.
    pub fn set_value(&mut self, k: String, v: String)
        requires
            old(self).wf(),
        ensures
            final(self).wf(),
            lookup(final(self)@, k@) == Some(v@),
            forall|k2: Seq<char>|
                k2 != k@ ==> lookup(final(self)@, k2) == lookup(old(self)@, k2),
    {
        let ghost k_view = k@;
        let ghost v_view = v@;
        match self.find(&k) {
            Some(i) => {
                self.entries.set(i, (k, v));
                proof {
                    let s0 = old(self)@;
                    let s = self@;
                    assert(s =~= s0.update(i as int, (k_view, v_view)));
                    assert forall|a: int, b: int| 0 <= a < b < s.len() implies s[a].0 != s[b].0 by {
                        assert(s0[a].0 == s[a].0 && s0[b].0 == s[b].0);
                    }
                    lemma_lookup_index(s, i as int);
                    assert forall|k2: Seq<char>| k2 != k_view implies lookup(s, k2) == lookup(
                        s0,
                        k2,
                    ) by {
                        lemma_lookup_agree(s, s0, k_view, k2);
                    }
                }
            },
            None => {
                self.entries.push((k, v));
                proof {
                    let s0 = old(self)@;
                    let s = self@;
                    assert(s =~= s0.push((k_view, v_view)));
                    assert(s.drop_last() =~= s0);
                    assert forall|a: int, b: int| 0 <= a < b < s.len() implies s[a].0 != s[b].0 by {
                        if b == s.len() - 1 {
                            assert(s[a].0 == s0[a].0);
                        } else {
                            assert(s[a].0 == s0[a].0 && s[b].0 == s0[b].0);
                        }
                    }
                    assert(lookup(s, k_view) == Some(v_view));
                    assert forall|k2: Seq<char>| k2 != k_view implies lookup(s, k2) == lookup(
                        s0,
                        k2,
                    ) by {
                        assert(s.last().0 == k_view);
                    }
                }
            },
        }
    }
}

impl Default for Db {
    /// An empty store.
    fn default() -> (db: Db)
        ensures
            db@ =~= Seq::<(Seq<char>, Seq<char>)>::empty(),
            db.wf(),
    {
        Db::new()
    }
}

/// The reply to the version query.
pub open spec fn version_reply() -> Seq<char> {
    "version=1.0"@
}

/// The reply to a retrieve: the key, `=`, and the stored value (empty if
/// the key is unbound).
pub open spec fn retrieve_reply(k: Seq<char>, stored: Option<Seq<char>>) -> Seq<char> {
    k + "="@ + (match stored {
        Some(v) => v,
        None => Seq::empty(),
    })
}

/// Apply one decoded datagram to the store and say what reply, if any,
/// goes back to the sender.  Inserts are silent, and an insert under the
/// reserved key `version` is ignored entirely; a retrieve answers
/// `key=value` with an empty value for an unbound key; the version query
/// answers `version=1.0`.
pub fn handle_message(message: Message, db: &mut Db) -> (r: Option<String>)
    requires
        old(db).wf(),
    ensures
        final(db).wf(),
        match message {
            Message::Insert(m) => r is None && (if m.key@ == "version"@ {
                final(db)@ =~= old(db)@
            } else {
                lookup(final(db)@, m.key@) == Some(m.value@) && forall|k2: Seq<char>|
                    k2 != m.key@ ==> lookup(final(db)@, k2) == lookup(old(db)@, k2)
            }),
            Message::Retrieve(m) => final(db)@ =~= old(db)@ && (r matches Some(line) && line@
                == retrieve_reply(m.key@, lookup(old(db)@, m.key@))),
            Message::Version => final(db)@ =~= old(db)@ && (r matches Some(line) && line@
                == version_reply()),
        },
{
    match message {
        Message::Insert(m) => {
            let version = String::from_str("version");
            if m.key == version {
                None
            } else {
                db.set_value(m.key, m.value);
                None
            }
        },
        Message::Retrieve(m) => {
            let stored = db.get_value(m.key.as_str());
            let ghost stored_view = lookup(db@, m.key@);
            let mut line = m.key;
            line.append("=");
            match stored {
                Some(v) => {
                    line.append(v.as_str());
                },
                None => {
                    proof {
                        assert(line@ + Seq::<char>::empty() =~= line@);
                    }
                },
            }
            Some(line)
        },
        Message::Version => Some(String::from_str("version=1.0")),
    }
}

} // verus!
