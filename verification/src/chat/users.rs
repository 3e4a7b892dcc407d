//! Display names and their validation.
//!
//! A `Username` is the identity a client carries for the length of one
//! connection: a non-empty string of ASCII letters and digits, validated
//! once at construction and immutable afterwards.

use vstd::prelude::*;

verus! {

/// The errors a connection handshake can end with: the candidate name was
/// malformed, or another client already holds it.
#[derive(Clone, Copy, Debug, PartialEq, Eq, Structural)]
pub enum ChatError {
    InvalidName,
    NameTaken,
}

/// A display-name character: an ASCII letter or digit.
pub open spec fn is_name_char(c: char) -> bool {
    ('a' <= c && c <= 'z') || ('A' <= c && c <= 'Z') || ('0' <= c && c <= '9')
}

/// A valid display name: non-empty, every character an ASCII letter or digit.
pub open spec fn valid_name(s: Seq<char>) -> bool {
    s.len() > 0 && forall|i: int| 0 <= i < s.len() ==> is_name_char(s[i])
}

/// A validated display name.  Construction through [`Username::new`] is the
/// only way to obtain one, so every `Username` in circulation satisfies
/// [`valid_name`].
#[derive(Debug)]
pub struct Username {
    name: String,
}

impl View for Username {
    type V = Seq<char>;

    closed spec fn view(&self) -> Seq<char> {
        self.name@
    }
}

impl Clone for Username {
    fn clone(&self) -> (r: Self)
        ensures
            r@ == self@,
    {
        Username { name: self.name.clone() }
    }
}

impl Username {
    /// Validate a candidate display name.  Succeeds exactly on non-empty
    /// strings of ASCII letters and digits, and then carries the candidate
    /// unchanged; fails with `InvalidName` on every other string.
    pub fn new(name: String) -> (r: Result<Username, ChatError>)
        ensures
            match r {
                Ok(u) => valid_name(name@) && u@ == name@,
                Err(e) => e == ChatError::InvalidName && !valid_name(name@),
            },
    {
        let len = name.as_str().unicode_len();
        if len == 0 {
            return Err(ChatError::InvalidName);
        }
        let mut i: usize = 0;
        while i < len
            invariant
                len == name@.len(),
                0 <= i <= len,
                forall|j: int| 0 <= j < i ==> is_name_char(name@[j]),
            decreases len - i,
        {
            let c = name.as_str().get_char(i);
            let ok = ('a' <= c && c <= 'z') || ('A' <= c && c <= 'Z') || ('0' <= c && c <= '9');
            if !ok {
                return Err(ChatError::InvalidName);
            }
            i = i + 1;
        }
        Ok(Username { name })
    }

    /// The name as text, for building protocol lines.
    pub fn as_str(&self) -> (r: &str)
        ensures
            r@ == self@,
    {
        self.name.as_str()
    }

    /// Whether two display names are the same (case-sensitive).
    pub fn same_name(&self, other: &Username) -> (r: bool)
        ensures
            r == (self@ == other@),
    {
        self.name == other.name
    }
}

} // verus!
