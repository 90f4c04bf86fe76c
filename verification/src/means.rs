//! Prices over time: a client records timestamped prices and asks for the
//! mean price of a period.

use std::collections::HashMap;
use vstd::prelude::*;

verus! {

broadcast use vstd::std_specs::hash::group_hash_axioms;

/// The length of every message, in bytes.
pub const MESSAGE_LEN: usize = 9;

/// What ends a conversation.
#[derive(Debug, Clone, Copy, PartialEq, Eq, Structural)]
pub enum ProtocolError {
    /// The client did what the protocol leaves undefined: it sent a
    /// message of an unknown kind, or a second price for one timestamp.
    UndefinedBehavior,
}

/// One message of a client.
#[derive(Debug, Clone, Copy, PartialEq, Eq, Structural)]
pub enum Message {
    Insert { timestamp: i32, price: i32 },
    Query { mintime: i32, maxtime: i32 },
}

/// The prices one client has recorded.
pub struct Session {
    entries: HashMap<i32, i32>,
}

/// The signed integer that four bytes hold, the most significant first.
pub open spec fn be_i32(b: Seq<u8>) -> int
    recommends
        b.len() == 4,
{
    let unsigned = b[0] as int * 0x100_0000 + b[1] as int * 0x1_0000 + b[2] as int * 0x100
        + b[3] as int;
    if unsigned >= 0x8000_0000 {
        unsigned - 0x1_0000_0000
    } else {
        unsigned
    }
}

/// What nine bytes say: a kind, and two integers.
pub open spec fn decoded(bytes: Seq<u8>) -> Result<Message, ProtocolError>
    recommends
        bytes.len() == MESSAGE_LEN,
{
    let first = be_i32(bytes.subrange(1, 5)) as i32;
    let second = be_i32(bytes.subrange(5, 9)) as i32;
    if bytes[0] == 0x49 {
        Ok(Message::Insert { timestamp: first, price: second })
    } else if bytes[0] == 0x51 {
        Ok(Message::Query { mintime: first, maxtime: second })
    } else {
        Err(ProtocolError::UndefinedBehavior)
    }
}

/// The price recorded for `t`, or nothing.
pub open spec fn price_at(prices: Map<i32, i32>, t: int) -> int {
    if prices.contains_key(t as i32) {
        prices[t as i32] as int
    } else {
        0
    }
}

/// The sum of the prices recorded from `lo` to `hi`.
pub open spec fn sum_between(prices: Map<i32, i32>, lo: int, hi: int) -> int
    decreases hi - lo + 1,
{
    if lo > hi {
        0
    } else {
        sum_between(prices, lo, hi - 1) + price_at(prices, hi)
    }
}

/// The number of prices recorded from `lo` to `hi`.
pub open spec fn count_between(prices: Map<i32, i32>, lo: int, hi: int) -> int
    decreases hi - lo + 1,
{
    if lo > hi {
        0
    } else {
        count_between(prices, lo, hi - 1) + if prices.contains_key(hi as i32) {
            1int
        } else {
            0int
        }
    }
}

/// The quotient of `a` by a positive `b`, rounded toward zero.
pub open spec fn toward_zero(a: int, b: int) -> int
    recommends
        b > 0,
{
    if a >= 0 {
        a / b
    } else {
        -((-a) / b)
    }
}

/// The mean of the prices recorded from `lo` to `hi`, rounded toward zero;
/// zero where there is none.
pub open spec fn mean_between(prices: Map<i32, i32>, lo: int, hi: int) -> int {
    if count_between(prices, lo, hi) == 0 {
        0
    } else {
        toward_zero(sum_between(prices, lo, hi), count_between(prices, lo, hi))
    }
}

/// What a session does with a message: the prices afterwards, and the
/// mean that is owed to the client, if one is.
pub open spec fn react(prices: Map<i32, i32>, message: Message) -> (
    Map<i32, i32>,
    Result<Option<i32>, ProtocolError>,
) {
    match message {
        Message::Insert { timestamp, price } => (
            prices.insert(timestamp, price),
            if prices.contains_key(timestamp) {
                Err(ProtocolError::UndefinedBehavior)
            } else {
                Ok(None)
            },
        ),
        Message::Query { mintime, maxtime } => (
            prices,
            Ok(Some(mean_between(prices, mintime as int, maxtime as int) as i32)),
        ),
    }
}

/// No price, no sum.
proof fn lemma_nothing_recorded(lo: int, hi: int)
    ensures
        sum_between(Map::empty(), lo, hi) == 0,
        count_between(Map::empty(), lo, hi) == 0,
    decreases hi - lo + 1,
{
    if lo <= hi {
        lemma_nothing_recorded(lo, hi - 1);
    }
}

/// One more price adds itself to the sum and one to the count, where its
/// timestamp lies in the period.
proof fn lemma_one_more(prices: Map<i32, i32>, t: i32, price: i32, lo: int, hi: int)
    requires
        !prices.contains_key(t),
        i32::MIN <= lo,
        hi <= i32::MAX,
    ensures
        sum_between(prices.insert(t, price), lo, hi) == sum_between(prices, lo, hi) + if lo <= t
            <= hi {
            price as int
        } else {
            0
        },
        count_between(prices.insert(t, price), lo, hi) == count_between(prices, lo, hi) + if lo
            <= t <= hi {
            1int
        } else {
            0
        },
    decreases hi - lo + 1,
{
    if lo <= hi {
        lemma_one_more(prices, t, price, lo, hi - 1);
    }
}

/// There are no more prices than timestamps in a period, and their sum is
/// no further from zero than so many prices can be.
pub proof fn lemma_sum_is_bounded(prices: Map<i32, i32>, lo: int, hi: int)
    requires
        i32::MIN <= lo,
        hi <= i32::MAX,
    ensures
        0 <= count_between(prices, lo, hi),
        lo <= hi + 1 ==> count_between(prices, lo, hi) <= hi - lo + 1,
        lo > hi ==> count_between(prices, lo, hi) == 0,
        i32::MIN * count_between(prices, lo, hi) <= sum_between(prices, lo, hi),
        sum_between(prices, lo, hi) <= i32::MAX * count_between(prices, lo, hi),
    decreases hi - lo + 1,
{
    if lo <= hi {
        lemma_sum_is_bounded(prices, lo, hi - 1);
    }
}

/// The mean of prices is a price: it lies where every price lies.
pub proof fn lemma_mean_is_a_price(prices: Map<i32, i32>, lo: int, hi: int)
    requires
        i32::MIN <= lo,
        hi <= i32::MAX,
    ensures
        i32::MIN <= mean_between(prices, lo, hi) <= i32::MAX,
{
    lemma_sum_is_bounded(prices, lo, hi);
    let n = count_between(prices, lo, hi);
    let s = sum_between(prices, lo, hi);
    if n > 0 {
        lemma_quotient_is_bounded(s, n);
    }
}

/// A sum of `n` prices, divided by `n`, is within the range of a price.
proof fn lemma_quotient_is_bounded(s: int, n: int)
    requires
        n > 0,
        i32::MIN * n <= s <= i32::MAX * n,
    ensures
        i32::MIN <= toward_zero(s, n) <= i32::MAX,
{
    if s >= 0 {
        assert(0 <= s / n <= i32::MAX) by (nonlinear_arith)
            requires
                n > 0,
                0 <= s <= i32::MAX * n,
        ;
    } else {
        assert(0 <= (-s) / n <= 0x8000_0000) by (nonlinear_arith)
            requires
                n > 0,
                0 <= -s <= 0x8000_0000 * n,
        ;
    }
}

impl View for Session {
    type V = Map<i32, i32>;

    /// The price recorded for each timestamp.
    closed spec fn view(&self) -> Map<i32, i32> {
        self.entries@
    }
}

/// The integer that the four bytes from `at` on hold, the most significant
/// first.
fn read_i32(bytes: &[u8], at: usize) -> (value: i32)
    requires
        at + 4 <= bytes@.len(),
    ensures
        value == be_i32(bytes@.subrange(at as int, at + 4)),
{
    let unsigned: u32 = (bytes[at] as u32) * 0x100_0000 + (bytes[at + 1] as u32) * 0x1_0000 + (
    bytes[at + 2] as u32) * 0x100 + (bytes[at + 3] as u32);
    if unsigned >= 0x8000_0000 {
        (unsigned - 0x8000_0000) as i32 - 0x7fff_ffff - 1
    } else {
        unsigned as i32
    }
}

impl Message {
    /// Reads a message of `MESSAGE_LEN` bytes: the kind, `I` or `Q`, and
    /// two big-endian integers.  Any other kind is undefined.
    pub fn from_bytes(bytes: &[u8]) -> (message: Result<Self, ProtocolError>)
        requires
            bytes@.len() == MESSAGE_LEN,
        ensures
            message == decoded(bytes@),
    {
        let lhs = read_i32(bytes, 1);
        let rhs = read_i32(bytes, 5);
        if bytes[0] == 0x49 {
            Ok(Message::Insert { timestamp: lhs, price: rhs })
        } else if bytes[0] == 0x51 {
            Ok(Message::Query { mintime: lhs, maxtime: rhs })
        } else {
            Err(ProtocolError::UndefinedBehavior)
        }
    }
}

impl Session {
    /// A session with no price recorded.
    pub fn new() -> (session: Session)
        ensures
            session@ == Map::<i32, i32>::empty(),
    {
        Session { entries: HashMap::new() }
    }

    /// Records `price` for `timestamp`.  A second price for a timestamp
    /// takes the place of the first, and is an error.
    pub fn insert(&mut self, timestamp: i32, price: i32) -> (done: Result<(), ProtocolError>)
        ensures
            final(self)@ == old(self)@.insert(timestamp, price),
            done is Err <==> old(self)@.contains_key(timestamp),
    {
        match self.entries.insert(timestamp, price) {
            Some(_) => Err(ProtocolError::UndefinedBehavior),
            None => Ok(()),
        }
    }

    /// The mean of the prices recorded from `mintime` to `maxtime`, both
    /// included, rounded toward zero; zero where there is none, and so
    /// where `mintime` comes after `maxtime`.
    pub fn calculate_avg(&self, mintime: i32, maxtime: i32) -> (avg: i32)
        ensures
            avg == mean_between(self@, mintime as int, maxtime as int),
    {
        let ghost lo = mintime as int;
        let ghost hi = maxtime as int;
        let ghost prices = self.entries@;
        let ghost mut seen: Set<i32> = Set::empty();
        let mut sum: i64 = 0;
        let mut count: i64 = 0;
        proof {
            assert(prices.restrict(seen) =~= Map::empty());
            lemma_nothing_recorded(lo, hi);
        }
        for entry in it: self.entries.iter()
            invariant
                lo == mintime,
                hi == maxtime,
                prices == self.entries@,
                it.seq().no_duplicates(),
                forall|i: int|
                    0 <= i < it.seq().len() ==> prices.contains_key(*(#[trigger] it.seq()[i]).0)
                        && prices[*it.seq()[i].0] == *it.seq()[i].1,
                forall|k: i32|
                    seen.contains(k) ==> exists|i: int|
                        0 <= i < it.index() && *(#[trigger] it.seq()[i]).0 == k,
                forall|k: i32| #[trigger]
                    prices.contains_key(k) ==> seen.contains(k) || exists|i: int|
                        it.index() <= i < it.seq().len() && *(#[trigger] it.seq()[i]).0 == k,
                sum == sum_between(prices.restrict(seen), lo, hi),
                count == count_between(prices.restrict(seen), lo, hi),
        {
            let (timestamp, price) = entry;
            proof {
                let n = it.index() as int;
                let t = *timestamp;
                assert(!seen.contains(t)) by {
                    if seen.contains(t) {
                        let i = choose|i: int| 0 <= i < n && *(#[trigger] it.seq()[i]).0 == t;
                        assert(it.seq()[i] == it.seq()[n]);
                    }
                }
                assert(prices.restrict(seen.insert(t)) =~= prices.restrict(seen).insert(
                    t,
                    *price,
                ));
                lemma_one_more(prices.restrict(seen), t, *price, lo, hi);
                lemma_sum_is_bounded(prices.restrict(seen.insert(t)), lo, hi);
                lemma_sum_is_bounded(prices.restrict(seen), lo, hi);
                let ghost earlier = seen;
                seen = seen.insert(t);
                assert forall|k: i32| #[trigger] prices.contains_key(k) implies seen.contains(k)
                    || exists|i: int|
                    n + 1 <= i < it.seq().len() && *(#[trigger] it.seq()[i]).0 == k by {
                    if !earlier.contains(k) {
                        let i = choose|i: int|
                            n <= i < it.seq().len() && *(#[trigger] it.seq()[i]).0 == k;
                        assert(i == n || n + 1 <= i);
                    }
                }
            }
            if *timestamp >= mintime && *timestamp <= maxtime {
                sum = sum + *price as i64;
                count = count + 1;
            }
        }
        proof {
            assert(prices.restrict(seen) =~= prices);
            lemma_sum_is_bounded(prices, lo, hi);
            lemma_mean_is_a_price(prices, lo, hi);
        }
        if count == 0 {
            return 0;
        }
        if sum >= 0 {
            (sum / count) as i32
        } else {
            let positive: i128 = -(sum as i128);
            (-(positive / (count as i128))) as i32
        }
    }

    /// Takes one message as it came off the wire, and says what is owed:
    /// `Ok(Some(mean))` is to be sent to the client, `Ok(None)` asks for
    /// nothing, and an error ends the conversation.
    pub fn handle(&mut self, frame: &[u8]) -> (reply: Result<Option<i32>, ProtocolError>)
        requires
            frame@.len() == MESSAGE_LEN,
        ensures
            match decoded(frame@) {
                Ok(message) => (final(self)@, reply) == react(old(self)@, message),
                Err(e) => final(self)@ == old(self)@ && reply == Err::<Option<i32>, ProtocolError>(e),
            },
    {
        match Message::from_bytes(frame) {
            Ok(Message::Insert { timestamp, price }) => match self.insert(timestamp, price) {
                Ok(()) => Ok(None),
                Err(e) => Err(e),
            },
            Ok(Message::Query { mintime, maxtime }) => Ok(
                Some(self.calculate_avg(mintime, maxtime)),
            ),
            Err(e) => Err(e),
        }
    }
}

impl Default for Session {
    fn default() -> (session: Session)
        ensures
            session@ == Map::<i32, i32>::empty(),
    {
        Session::new()
    }
}

} // verus!
