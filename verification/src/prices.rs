//! The asset-price session protocol: fixed nine-byte requests that either
//! record a timestamped price or ask for the mean price over a time window.
//!
//! A request is one type byte (`I` or `Q`) followed by two big-endian
//! 32-bit signed integers.  Each connection owns one [`SessionPrices`]
//! store; inserts with a duplicate timestamp are an error, and a query
//! returns the mean (truncated towards zero) of the prices whose timestamp
//! lies in the closed window, or zero when the window is empty or inverted.

use vstd::arithmetic::div_mod::{
    lemma_div_is_ordered, lemma_div_pos_is_pos, lemma_fundamental_div_mod,
    lemma_multiply_divide_le,
};
use vstd::prelude::*;

verus! {

/// Number of seconds since the UNIX Epoch.
pub type Timestamp = i32;

/// Price of the asset in pennies.
pub type Price = i32;

/// The big-endian reading of four bytes as an unsigned integer.
pub open spec fn be_u32(b: Seq<u8>) -> int {
    b[0] * 0x1000000 + b[1] * 0x10000 + b[2] * 0x100 + b[3]
}

/// The big-endian reading of four bytes as a two's-complement signed
/// 32-bit integer.
pub open spec fn be_i32(b: Seq<u8>) -> int {
    if be_u32(b) < 0x80000000 {
        be_u32(b)
    } else {
        be_u32(b) - 0x100000000
    }
}

/// Read a big-endian signed 32-bit integer from four bytes of `bytes`
/// starting at `start`.
fn i32_from_be(bytes: &[u8], start: usize) -> (r: i32)
    requires
        start + 4 <= bytes@.len(),
    ensures
        r as int == be_i32(bytes@.subrange(start as int, start + 4)),
{
    let b0 = bytes[start] as u32;
    let b1 = bytes[start + 1] as u32;
    let b2 = bytes[start + 2] as u32;
    let b3 = bytes[start + 3] as u32;
    let u: u32 = b0 * 0x1000000 + b1 * 0x10000 + b2 * 0x100 + b3;
    proof {
        let s = bytes@.subrange(start as int, start + 4);
        assert(s[0] == bytes@[start as int] && s[1] == bytes@[start + 1] && s[2] == bytes@[start
            + 2] && s[3] == bytes@[start + 3]);
    }
    if u < 0x80000000 {
        u as i32
    } else {
        let d: u32 = u - 0x80000000;
        -((0x7FFFFFFFu32 - d) as i32) - 1
    }
}

/// Write `x` as four big-endian bytes.
fn i32_to_be(x: i32) -> (r: [u8; 4])
    ensures
        r@.len() == 4,
        be_i32(r@) == x as int,
{
    let u: u32 = if x >= 0 {
        x as u32
    } else {
        let shifted: i64 = (x as i64) + 0x80000000i64;
        (shifted as u32) + 0x80000000u32
    };
    let b3: u8 = (u % 256) as u8;
    let r1: u32 = u / 256;
    let b2: u8 = (r1 % 256) as u8;
    let r2: u32 = r1 / 256;
    let b1: u8 = (r2 % 256) as u8;
    let b0: u8 = (r2 / 256) as u8;
    proof {
        lemma_fundamental_div_mod(u as int, 256);
        lemma_fundamental_div_mod(r1 as int, 256);
        lemma_fundamental_div_mod(r2 as int, 256);
        lemma_div_is_ordered(r2 as int, 0xFFFFFF, 256);
    }
    let r: [u8; 4] = [b0, b1, b2, b3];
    proof {
        assert(r@[0] == b0 && r@[1] == b1 && r@[2] == b2 && r@[3] == b3);
    }
    r
}

/// An instruction to record one price observation.
#[derive(Debug, PartialEq, Eq, Structural)]
pub struct InsertMessage {
    /// Number of seconds since the UNIX Epoch.
    pub timestamp: Timestamp,
    /// Price of the asset in pennies.
    pub price: Price,
}

/// A request for the mean price over a closed time window.
#[derive(Debug, PartialEq, Eq, Structural)]
pub struct QueryMessage {
    /// Earliest timestamp of the period.
    pub min_time: Timestamp,
    /// Latest timestamp of the period.
    pub max_time: Timestamp,
}

/// One decoded nine-byte request.
#[derive(Debug, PartialEq, Eq, Structural)]
pub enum Request {
    Insert(InsertMessage),
    Query(QueryMessage),
}

/// The reply to a query.
pub struct Response {
    /// The mean of the inserted prices with timestamps T, where
    /// `min_time` <= T <= `max_time`; 0 if there are no samples.  The mean
    /// is truncated towards zero when it is not an integer.
    pub mean: Price,
}

/// What a nine-byte frame decodes to; anything else is rejected.
pub open spec fn parsed_request(b: Seq<u8>) -> Option<Request> {
    if b.len() == 9 && b[0] == 73u8 {
        Some(
            Request::Insert(
                InsertMessage {
                    timestamp: be_i32(b.subrange(1, 5)) as i32,
                    price: be_i32(b.subrange(5, 9)) as i32,
                },
            ),
        )
    } else if b.len() == 9 && b[0] == 81u8 {
        Some(
            Request::Query(
                QueryMessage {
                    min_time: be_i32(b.subrange(1, 5)) as i32,
                    max_time: be_i32(b.subrange(5, 9)) as i32,
                },
            ),
        )
    } else {
        None
    }
}

impl Request {
    /// Decode one request frame: the type byte `I` (0x49) or `Q` (0x51)
    /// followed by two big-endian 32-bit signed integers.  Succeeds exactly
    /// on the nine-byte frames [`parsed_request`] accepts; an unknown or
    /// missing type byte and a wrong field length are distinct errors.  A
    /// typed frame shorter than the five bytes its first field needs is the
    /// one input left out.
    pub fn new(bytes: &[u8]) -> (r: Result<Request, &'static str>)
        requires
            1 <= bytes@.len() < 5 ==> bytes@[0] != 73u8 && bytes@[0] != 81u8,
        ensures
            match r {
                Ok(req) => parsed_request(bytes@) == Some(req),
                Err(m) => parsed_request(bytes@) is None && (if bytes@.len() == 0 || (bytes@[0]
                    != 73u8 && bytes@[0] != 81u8) {
                    m@ == "Unknown message type"@
                } else {
                    m@ == "cannot convert to i32"@
                }),
            },
    {
        if bytes.len() == 0 {
            return Err("Unknown message type");
        }
        let t = bytes[0];
        if t == 73 {
            if bytes.len() != 9 {
                return Err("cannot convert to i32");
            }
            let timestamp = i32_from_be(bytes, 1);
            let price = i32_from_be(bytes, 5);
            Ok(Request::Insert(InsertMessage { timestamp, price }))
        } else if t == 81 {
            if bytes.len() != 9 {
                return Err("cannot convert to i32");
            }
            let min_time = i32_from_be(bytes, 1);
            let max_time = i32_from_be(bytes, 5);
            Ok(Request::Query(QueryMessage { min_time, max_time }))
        } else {
            Err("Unknown message type")
        }
    }
}

impl Response {
    /// The reply as it goes on the wire: the mean as four big-endian bytes.
    pub fn to_bytes(&self) -> (r: [u8; 4])
        ensures
            r@.len() == 4,
            be_i32(r@) == self.mean as int,
    {
        i32_to_be(self.mean)
    }
}

/// Whether some recorded observation carries timestamp `t`.
pub open spec fn has_time(s: Seq<(i32, i32)>, t: int) -> bool {
    exists|i: int| 0 <= i < s.len() && s[i].0 == t
}

/// The sum of the prices recorded with a timestamp in `[lo, hi]`.
pub open spec fn range_sum(s: Seq<(i32, i32)>, lo: int, hi: int) -> int
    decreases s.len(),
{
    if s.len() == 0 {
        0
    } else {
        range_sum(s.drop_last(), lo, hi) + (if lo <= s.last().0 <= hi {
            s.last().1 as int
        } else {
            0
        })
    }
}

/// How many recorded observations carry a timestamp in `[lo, hi]`.
pub open spec fn range_count(s: Seq<(i32, i32)>, lo: int, hi: int) -> nat
    decreases s.len(),
{
    if s.len() == 0 {
        0
    } else {
        range_count(s.drop_last(), lo, hi) + (if lo <= s.last().0 <= hi {
            1nat
        } else {
            0nat
        })
    }
}

/// Division truncated towards zero, as the wire protocol rounds its means.
pub open spec fn trunc_div(a: int, b: int) -> int {
    if a >= 0 {
        a / b
    } else {
        -((-a) / b)
    }
}

/// The mean a query must answer: zero for an inverted or empty window,
/// otherwise the truncated mean of the prices in the window.
pub open spec fn window_mean(s: Seq<(i32, i32)>, lo: int, hi: int) -> int {
    if lo > hi || range_count(s, lo, hi) == 0 {
        0
    } else {
        trunc_div(range_sum(s, lo, hi), range_count(s, lo, hi) as int)
    }
}

/// The prices one connection has recorded, ordered by timestamp.
///
/// The store keeps one observation per timestamp, sorted strictly by
/// timestamp; that ordering is the well-formedness invariant every
/// operation preserves.
pub struct SessionPrices {
    entries: Vec<(i32, i32)>,
}

impl View for SessionPrices {
    type V = Seq<(i32, i32)>;

    closed spec fn view(&self) -> Seq<(i32, i32)> {
        self.entries@
    }
}

impl SessionPrices {
    /// Timestamps strictly increase, so each occurs at most once.
    pub open spec fn wf(&self) -> bool {
        forall|i: int, j: int| 0 <= i < j < self@.len() ==> self@[i].0 < self@[j].0
    }

    /// An empty store.
    pub fn new() -> (s: SessionPrices)
        ensures
            s@ =~= Seq::<(i32, i32)>::empty(),
            s.wf(),
    {
        SessionPrices { entries: Vec::new() }
    }
}

impl InsertMessage {
    /// Record this observation.  Fails, leaving the store unchanged, exactly
    /// when the timestamp is already present; otherwise the pair is placed
    /// at its sorted position.
    pub fn process(&self, session_prices: &mut SessionPrices) -> (r: Result<(), &'static str>)
        requires
            old(session_prices).wf(),
        ensures
            final(session_prices).wf(),
            match r {
                Ok(()) => !has_time(old(session_prices)@, self.timestamp as int) && exists|k: int|
                    0 <= k <= old(session_prices)@.len() && final(session_prices)@ =~= old(
                    session_prices)@.insert(k, (self.timestamp, self.price)),
                Err(m) => has_time(old(session_prices)@, self.timestamp as int) && final(
                    session_prices)@ =~= old(session_prices)@ && m@ == "timestamp already exists"@,
            },
    {
        let n = session_prices.entries.len();
        let mut i: usize = 0;
        while i < n && session_prices.entries[i].0 < self.timestamp
            invariant
                n == session_prices@.len(),
                0 <= i <= n,
                session_prices.wf(),
                forall|j: int| 0 <= j < i ==> session_prices@[j].0 < self.timestamp,
            decreases n - i,
        {
            i = i + 1;
        }
        if i < n && session_prices.entries[i].0 == self.timestamp {
            return Err("timestamp already exists");
        }
        let ghost s0 = session_prices@;
        let ghost pos = i as int;
        proof {
            assert forall|j: int| 0 <= j < s0.len() implies s0[j].0 != self.timestamp as int by {
                if j >= pos {
                    assert(pos < s0.len());
                    if j > pos {
                        assert(s0[pos].0 < s0[j].0);
                    }
                }
            }
        }
        session_prices.entries.insert(i, (self.timestamp, self.price));
        proof {
            let x = (self.timestamp, self.price);
            let s = session_prices@;
            assert(s == s0.insert(pos, x));
            s0.insert_ensures(pos, x);
            assert forall|a: int, b: int| 0 <= a < b < s.len() implies s[a].0 < s[b].0 by {
                if a > pos {
                    assert(s0.insert(pos, x)[(a - 1) + 1] == s0[a - 1]);
                }
                if b > pos {
                    assert(s0.insert(pos, x)[(b - 1) + 1] == s0[b - 1]);
                }
                if b == pos {
                    assert(s[b] == x);
                } else if b > pos {
                    assert(s[b] == s0[b - 1]);
                    if b - 1 > pos {
                        assert(s0[pos as int].0 < s0[b - 1].0);
                    }
                }
            }
        }
        Ok(())
    }
}

impl QueryMessage {
    /// The mean, truncated towards zero, of the prices recorded with a
    /// timestamp in the closed window `[min_time, max_time]`; zero when
    /// the window is inverted or holds no sample.  Never fails.
    pub fn process(&self, session_prices: &SessionPrices) -> (r: Result<Price, &'static str>)
        requires
            session_prices.wf(),
        ensures
            r matches Ok(m) && m as int == window_mean(
                session_prices@,
                self.min_time as int,
                self.max_time as int,
            ),
    {
        let lo = self.min_time;
        let hi = self.max_time;
        if lo > hi {
            return Ok(0);
        }
        let n = session_prices.entries.len();
        let mut sum: i128 = 0;
        let mut count: usize = 0;
        let mut i: usize = 0;
        while i < n
            invariant
                n == session_prices@.len(),
                lo == self.min_time,
                hi == self.max_time,
                0 <= i <= n,
                count <= i,
                sum == range_sum(session_prices@.take(i as int), lo as int, hi as int),
                count == range_count(session_prices@.take(i as int), lo as int, hi as int),
                sum <= count * 0x7FFFFFFF,
                -sum <= count * 0x80000000,
            decreases n - i,
        {
            let t = session_prices.entries[i].0;
            let p = session_prices.entries[i].1;
            proof {
                assert(session_prices@.take(i + 1).drop_last() =~= session_prices@.take(i as int));
                assert(session_prices@.take(i + 1).last() == session_prices@[i as int]);
            }
            if lo <= t && t <= hi {
                sum = sum + (p as i128);
                count = count + 1;
            }
            i = i + 1;
        }
        proof {
            assert(session_prices@.take(n as int) =~= session_prices@);
        }
        if count == 0 {
            return Ok(0);
        }
        let mean: i128 = if sum >= 0 {
            let q = (sum as u128) / (count as u128);
            proof {
                lemma_div_pos_is_pos(sum as int, count as int);
                lemma_multiply_divide_le(sum as int, count as int, 0x7FFFFFFF);
            }
            q as i128
        } else {
            let q = ((-sum) as u128) / (count as u128);
            proof {
                lemma_div_pos_is_pos(-sum as int, count as int);
                lemma_multiply_divide_le(-sum as int, count as int, 0x80000000);
            }
            -(q as i128)
        };
        Ok(mean as i32)
    }
}

/// The compute step of one connection's read loop: decode one nine-byte
/// frame, apply it to the session store, and say what reply, if any, must
/// go back on the wire.  An undecodable frame and a duplicate timestamp
/// are errors, on which the caller drops the connection; a query always
/// succeeds and answers with the window mean.
pub fn handle_request(bytes: &[u8], session_prices: &mut SessionPrices) -> (r: Result<
    Option<Response>,
    &'static str,
>)
    requires
        bytes@.len() == 9,
        old(session_prices).wf(),
    ensures
        final(session_prices).wf(),
        match r {
            Ok(resp) => match parsed_request(bytes@) {
                Some(Request::Insert(m)) => resp is None && !has_time(
                    old(session_prices)@,
                    m.timestamp as int,
                ) && exists|k: int|
                    0 <= k <= old(session_prices)@.len() && final(session_prices)@ =~= old(
                    session_prices)@.insert(k, (m.timestamp, m.price)),
                Some(Request::Query(q)) => (resp matches Some(p) && p.mean as int == window_mean(
                    old(session_prices)@,
                    q.min_time as int,
                    q.max_time as int,
                )) && final(session_prices)@ =~= old(session_prices)@,
                None => false,
            },
            Err(_) => final(session_prices)@ =~= old(session_prices)@ && (parsed_request(bytes@)
                is None || (parsed_request(bytes@) matches Some(Request::Insert(m)) && has_time(
                old(session_prices)@,
                m.timestamp as int,
            ))),
        },
{
    match Request::new(bytes) {
        Err(e) => Err(e),
        Ok(Request::Insert(m)) => match m.process(session_prices) {
            Ok(()) => Ok(None),
            Err(e) => Err(e),
        },
        Ok(Request::Query(q)) => match q.process(session_prices) {
            Ok(mean) => Ok(Some(Response { mean })),
            Err(e) => Err(e),
        },
    }
}

} // verus!
