//! A key-value store spoken to in datagrams: `key=value` records a value,
//! a bare `key` asks for it.

use crate::strings::same_text;
use vstd::prelude::*;
use vstd::utf8::{decode_utf8, valid_utf8};

verus! {

/// The longest datagram that is read.
pub const PACKET_LEN: usize = 1000;

/// One datagram, taken apart.
#[derive(PartialEq, Eq, Debug)]
pub enum Request<'a> {
    /// `key=value`.  There is no key where the datagram begins with `=`.
    Insert(Option<&'a str>, &'a str),
    /// `key`.
    Get(&'a str),
}

/// A request as contracts see it.
pub enum RequestView {
    Insert(Option<Seq<char>>, Seq<char>),
    Get(Seq<char>),
}

/// The values that were recorded, each under its key.
pub struct Store {
    entries: Vec<(String, String)>,
}

impl<'a> View for Request<'a> {
    type V = RequestView;

    open spec fn view(&self) -> RequestView {
        match *self {
            Request::Insert(Some(key), value) => RequestView::Insert(Some(key@), value@),
            Request::Insert(None, value) => RequestView::Insert(None, value@),
            Request::Get(key) => RequestView::Get(key@),
        }
    }
}

/// How many bytes come before the first `=` of `buf`: all of them where it
/// has none.
pub open spec fn key_len(buf: Seq<u8>) -> int
    decreases buf.len(),
{
    if buf.len() == 0 || buf[0] == 0x3d {
        0
    } else {
        1 + key_len(buf.drop_first())
    }
}

/// Whether the parts of `buf` are text: the key and the value, each for
/// itself, are UTF-8.  Of a datagram that begins with `=` only the value
/// is looked at.
pub open spec fn readable(buf: Seq<u8>) -> bool {
    let k = key_len(buf);
    if k == buf.len() {
        valid_utf8(buf)
    } else if k == 0 {
        valid_utf8(buf.skip(1))
    } else {
        valid_utf8(buf.take(k)) && valid_utf8(buf.skip(k + 1))
    }
}

/// What `buf` asks for: it is cut at its first `=`, and is a query where
/// it has none.
pub open spec fn parsed(buf: Seq<u8>) -> RequestView {
    let k = key_len(buf);
    if k == buf.len() {
        RequestView::Get(decode_utf8(buf))
    } else if k == 0 {
        RequestView::Insert(None, decode_utf8(buf.skip(1)))
    } else {
        RequestView::Insert(Some(decode_utf8(buf.take(k))), decode_utf8(buf.skip(k + 1)))
    }
}

/// The answer to every query for the key `version`.
pub open spec fn version_line() -> Seq<char> {
    "version=bleh's Key-Value Store 2.0"@
}

/// The values after `request`.  A record without a key is dropped.
pub open spec fn recorded(
    values: Map<Seq<char>, Seq<char>>,
    request: RequestView,
) -> Map<Seq<char>, Seq<char>> {
    match request {
        RequestView::Insert(Some(key), value) => values.insert(key, value),
        _ => values,
    }
}

/// The datagram that answers `request`, if one does: a query is answered
/// with the key, `=` and the value, which is empty for a key that was
/// never recorded.  What was recorded under `version` is never shown.
pub open spec fn reply_to(values: Map<Seq<char>, Seq<char>>, request: RequestView) -> Option<
    Seq<char>,
> {
    match request {
        RequestView::Insert(_, _) => None,
        RequestView::Get(key) => Some(
            if key == "version"@ {
                version_line()
            } else if values.contains_key(key) {
                key + "="@ + values[key]
            } else {
                key + "="@
            },
        ),
    }
}

/// The first `=` of `buf` is at `k` as soon as none comes before it.
proof fn lemma_key_len(buf: Seq<u8>, k: int)
    requires
        0 <= k <= buf.len(),
        forall|i: int| 0 <= i < k ==> buf[i] != 0x3d,
        k < buf.len() ==> buf[k] == 0x3d,
    ensures
        key_len(buf) == k,
    decreases k,
{
    if k > 0 {
        let rest = buf.drop_first();
        assert forall|i: int| 0 <= i < k - 1 implies rest[i] != 0x3d by {
            assert(rest[i] == buf[i + 1]);
        }
        lemma_key_len(rest, k - 1);
    }
}

/// The text that `bytes` encode, where they are UTF-8.
///
/// This is `std::str::from_utf8`, which accepts exactly the well-formed
/// UTF-8 sequences and hands back the same bytes as a `str`.
#[verifier::external_body]
fn text_of(bytes: &[u8]) -> (text: Option<&str>)
    ensures
        match text {
            Some(s) => valid_utf8(bytes@) && s@ == decode_utf8(bytes@),
            None => !valid_utf8(bytes@),
        },
{
    std::str::from_utf8(bytes).ok()
}

impl<'a> Request<'a> {
    /// Takes a datagram apart, where its parts are text.
    pub fn try_from_buf(buf: &'a [u8]) -> (request: Option<Self>)
        ensures
            match request {
                Some(r) => readable(buf@) && r@ == parsed(buf@),
                None => !readable(buf@),
            },
    {
        let len = buf.len();
        let mut k: usize = 0;
        while k < len && buf[k] != 0x3d
            invariant
                k <= len == buf@.len(),
                forall|i: int| 0 <= i < k ==> buf@[i] != 0x3d,
            decreases len - k,
        {
            k = k + 1;
        }
        proof {
            lemma_key_len(buf@, k as int);
        }
        if k == len {
            match text_of(buf) {
                Some(key) => Some(Request::Get(key)),
                None => None,
            }
        } else {
            let rest = &buf[k + 1..len];
            assert(rest@ =~= buf@.skip(k + 1));
            let value = match text_of(rest) {
                Some(value) => value,
                None => {
                    return None;
                },
            };
            if k == 0 {
                Some(Request::Insert(None, value))
            } else {
                let head = &buf[0..k];
                assert(head@ =~= buf@.take(k as int));
                match text_of(head) {
                    Some(key) => Some(Request::Insert(Some(key), value)),
                    None => None,
                }
            }
        }
    }

    /// Takes a datagram apart.
    pub fn from_buf(buf: &'a [u8]) -> (request: Self)
        requires
            readable(buf@),
        ensures
            request@ == parsed(buf@),
    {
        Request::try_from_buf(buf).unwrap()
    }
}

impl Store {
    /// No two entries have the same key.
    #[verifier::type_invariant]
    spec fn distinct_keys(self) -> bool {
        forall|i: int, j: int|
            0 <= i < j < self.entries@.len() ==> (#[trigger] self.entries@[i]).0@ != (
            #[trigger] self.entries@[j]).0@
    }

    /// The index of the entry for `key`, if there is one.
    spec fn index_of(self, key: Seq<char>) -> Option<int> {
        if exists|i: int| 0 <= i < self.entries@.len() && (#[trigger] self.entries@[i]).0@ == key {
            Some(
                choose|i: int|
                    0 <= i < self.entries@.len() && (#[trigger] self.entries@[i]).0@ == key,
            )
        } else {
            None
        }
    }

    /// An empty store.
    pub fn new() -> (store: Store)
        ensures
            store@ == Map::<Seq<char>, Seq<char>>::empty(),
    {
        let store = Store { entries: Vec::new() };
        assert(store@ =~= Map::<Seq<char>, Seq<char>>::empty());
        store
    }

    /// Where the entry for `key` is, if there is one.
    fn position(&self, key: &str) -> (at: Option<usize>)
        ensures
            match at {
                Some(i) => i < self.entries@.len() && self.entries@[i as int].0@ == key@,
                None => forall|i: int|
                    0 <= i < self.entries@.len() ==> (#[trigger] self.entries@[i]).0@ != key@,
            },
    {
        let mut i: usize = 0;
        while i < self.entries.len()
            invariant
                i <= self.entries@.len(),
                forall|j: int| 0 <= j < i ==> (#[trigger] self.entries@[j]).0@ != key@,
            decreases self.entries.len() - i,
        {
            if same_text(self.entries[i].0.as_str(), key) {
                return Some(i);
            }
            i = i + 1;
        }
        None
    }

    /// Records `value` under `key`, in place of what was there.
    pub fn insert(&mut self, key: &str, value: &str)
        ensures
            final(self)@ == old(self)@.insert(key@, value@),
    {
        proof {
            use_type_invariant(&*self);
        }
        let ghost before = self.entries@;
        match self.position(key) {
            Some(i) => {
                let mut entries: Vec<(String, String)> = Vec::new();
                std::mem::swap(&mut self.entries, &mut entries);
                entries.set(i, (String::from_str(key), String::from_str(value)));
                self.entries = entries;
                proof {
                    let after = self.entries@;
                    assert forall|k: Seq<char>| #[trigger]
                        self@.dom().contains(k) == old(self)@.insert(key@, value@).dom().contains(
                            k,
                        ) by {
                        if old(self)@.dom().contains(k) {
                            let j = old(self).index_of(k)->0;
                            assert(after[j].0@ == k);
                        }
                        if self@.dom().contains(k) {
                            let j = self.index_of(k)->0;
                            assert(before[j].0@ == k);
                        }
                    }
                    assert forall|k: Seq<char>| self@.dom().contains(k) implies #[trigger] self@[k]
                        == old(self)@.insert(key@, value@)[k] by {
                        let j = self.index_of(k)->0;
                        if k != key@ {
                            assert(before[j].0@ == k);
                            let j0 = old(self).index_of(k)->0;
                            assert(j0 == j);
                        } else {
                            assert(j == i);
                        }
                    }
                    assert(self@ =~= old(self)@.insert(key@, value@));
                }
            },
            None => {
                let mut entries: Vec<(String, String)> = Vec::new();
                std::mem::swap(&mut self.entries, &mut entries);
                entries.push((String::from_str(key), String::from_str(value)));
                self.entries = entries;
                proof {
                    let after = self.entries@;
                    let n = before.len() as int;
                    assert forall|k: Seq<char>| #[trigger]
                        self@.dom().contains(k) == old(self)@.insert(key@, value@).dom().contains(
                            k,
                        ) by {
                        if old(self)@.dom().contains(k) {
                            let j = old(self).index_of(k)->0;
                            assert(after[j].0@ == k);
                        }
                        if k == key@ {
                            assert(after[n].0@ == k);
                        }
                        if self@.dom().contains(k) {
                            let j = self.index_of(k)->0;
                            if j < n {
                                assert(before[j].0@ == k);
                            }
                        }
                    }
                    assert forall|k: Seq<char>| self@.dom().contains(k) implies #[trigger] self@[k]
                        == old(self)@.insert(key@, value@)[k] by {
                        let j = self.index_of(k)->0;
                        if k != key@ {
                            assert(before[j].0@ == k);
                            let j0 = old(self).index_of(k)->0;
                            assert(j0 == j);
                        } else {
                            assert(after[n].0@ == k);
                            assert(j == n);
                        }
                    }
                    assert(self@ =~= old(self)@.insert(key@, value@));
                }
            },
        }
    }

    /// The value recorded under `key`, if there is one.
    pub fn get(&self, key: &str) -> (value: Option<&str>)
        ensures
            match value {
                Some(v) => self@.contains_key(key@) && v@ == self@[key@],
                None => !self@.contains_key(key@),
            },
    {
        proof {
            use_type_invariant(self);
        }
        match self.position(key) {
            Some(i) => {
                proof {
                    let j = self.index_of(key@)->0;
                    assert(j == i);
                }
                Some(self.entries[i].1.as_str())
            },
            None => None,
        }
    }

    /// Takes one request: records what it brings, and says what is to be
    /// sent back, if anything.
    pub fn apply(&mut self, request: &Request) -> (reply: Option<String>)
        ensures
            final(self)@ == recorded(old(self)@, request@),
            match reply {
                Some(line) => reply_to(old(self)@, request@) == Some(line@),
                None => reply_to(old(self)@, request@) is None,
            },
    {
        match request {
            Request::Insert(None, _) => None,
            Request::Insert(Some(key), value) => {
                self.insert(key, value);
                None
            },
            Request::Get(key) => {
                if same_text(key, "version") {
                    Some(String::from_str("version=bleh's Key-Value Store 2.0"))
                } else {
                    let mut line = String::from_str(key);
                    line.append("=");
                    match self.get(key) {
                        Some(value) => {
                            line.append(value);
                        },
                        None => {},
                    }
                    Some(line)
                }
            },
        }
    }
}

impl View for Store {
    type V = Map<Seq<char>, Seq<char>>;

    closed spec fn view(&self) -> Map<Seq<char>, Seq<char>> {
        Map::new(
            |key: Seq<char>| self.index_of(key) is Some,
            |key: Seq<char>| self.entries@[self.index_of(key)->0].1@,
        )
    }
}

impl Default for Store {
    fn default() -> (store: Store)
        ensures
            store@ == Map::<Seq<char>, Seq<char>>::empty(),
    {
        Store::new()
    }
}

} // verus!
