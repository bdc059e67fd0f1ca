use std::collections::HashMap;

use vstd::arithmetic::div_mod::{
    lemma_add_mod_noop, lemma_mod_add_multiples_vanish, lemma_mod_self_0, lemma_small_mod,
};
use vstd::prelude::*;

use crate::commons::tcpmux_comm::{
    encode_connect_msg, encode_disconnect_msg, msg_bytes, ChannelId, Msg, MsgModel,
};
use crate::commons::Address;
use crate::error::ProxyError;

verus! {

broadcast use {vstd::std_specs::hash::group_hash_axioms, vstd::seq_lib::group_seq_properties};

/// `i` is the first position of `k` in `s`.
pub open spec fn is_first_index(s: Seq<u32>, k: u32, i: int) -> bool {
    &&& 0 <= i < s.len()
    &&& s[i] == k
    &&& forall|j: int| 0 <= j < i ==> s[j] != k
}

/// A key that occurs in a list has a first position there.
pub proof fn lemma_first_index_exists(s: Seq<u32>, k: u32)
    requires
        s.contains(k),
    ensures
        exists|i: int| is_first_index(s, k, i),
    decreases s.len(),
{
    if s[0] == k {
        assert(is_first_index(s, k, 0));
    } else {
        let j = choose|j: int| 0 <= j < s.len() && s[j] == k;
        assert(s.drop_first()[j - 1] == k);
        lemma_first_index_exists(s.drop_first(), k);
        let i = choose|i: int| is_first_index(s.drop_first(), k, i);
        assert(is_first_index(s, k, i + 1)) by {
            assert forall|m: int| 0 <= m < i + 1 implies s[m] != k by {
                if m > 0 {
                    assert(s[m] == s.drop_first()[m - 1]);
                }
            }
        }
    }
}

/// The keys left after removing the first `k` from `s` by moving the last
/// key into its place; `s` itself where `k` does not occur.
pub open spec fn keys_after_remove(s: Seq<u32>, k: u32) -> Seq<u32> {
    if s.contains(k) {
        let i = choose|i: int| is_first_index(s, k, i);
        s.update(i, s.last()).drop_last()
    } else {
        s
    }
}

/// The counter after a selection among `n` connections: it moves on by one
/// and wraps to 0 at `n`; with fewer than two connections it stays.
pub open spec fn next_count(n: nat, count: nat) -> nat {
    if n <= 1 {
        count
    } else if n <= count + 1 {
        0
    } else {
        count + 1
    }
}

/// The position a selection among `n` connections picks: the only one, or
/// the counter after the step.
pub open spec fn selected_index(n: nat, count: nat) -> nat {
    if n <= 1 {
        0
    } else {
        next_count(n, count)
    }
}

/// The connections of a client to its servers, handed out in turn.
pub struct ConnectionPool<V> {
    db: HashMap<ChannelId, V>,
    keys: Vec<u32>,
    count: usize,
}

impl<V> ConnectionPool<V> {
    /// The keys in the order they are handed out.
    pub closed spec fn keys(&self) -> Seq<u32> {
        self.keys@
    }

    /// The connections by key.
    pub closed spec fn db(&self) -> Map<u32, V> {
        self.db@
    }

    /// The position of the connection handed out last.
    pub closed spec fn count(&self) -> nat {
        self.count as nat
    }

    /// The counter can always move on by one.
    pub closed spec fn wf(&self) -> bool {
        self.count < usize::MAX
    }

    /// An empty pool.
    pub fn new() -> (r: ConnectionPool<V>)
        ensures
            r.wf(),
            r.keys() == Seq::<u32>::empty(),
            r.db() == Map::<u32, V>::empty(),
            r.count() == 0,
    {
        ConnectionPool { db: HashMap::new(), keys: Vec::new(), count: 0 }
    }

    /// Adds connection `v` under key `k`, last in turn. A connection already
    /// under `k` is replaced, and `k` is then listed twice.
    pub fn put(&mut self, k: u32, v: V)
        requires
            old(self).wf(),
        ensures
            final(self).wf(),
            final(self).keys() == old(self).keys().push(k),
            final(self).db() == old(self).db().insert(k, v),
            final(self).count() == old(self).count(),
    {
        self.keys.push(k);
        self.db.insert(k, v);
    }

    /// Removes the connection under `key`: the first listing of `key` gets
    /// the last key in its place, and the connection leaves the map.
    /// Nothing changes where `key` is not listed.
    pub fn remove(&mut self, key: &u32) -> (r: Result<(), ProxyError>)
        requires
            old(self).wf(),
        ensures
            final(self).wf(),
            r is Ok,
            final(self).keys() == keys_after_remove(old(self).keys(), *key),
            final(self).db() == if old(self).keys().contains(*key) {
                old(self).db().remove(*key)
            } else {
                old(self).db()
            },
            final(self).count() == old(self).count(),
    {
        let k = *key;
        let mut i: usize = 0;
        let n = self.keys.len();
        while i < n
            invariant
                n == self.keys@.len(),
                k == *key,
                i <= n,
                self.keys@ == old(self).keys@,
                self.db@ == old(self).db@,
                self.count == old(self).count,
                self.count < usize::MAX,
                forall|j: int| 0 <= j < i ==> self.keys@[j] != k,
            decreases n - i,
        {
            if self.keys[i] == k {
                proof {
                    assert(is_first_index(self.keys@, k, i as int));
                    assert(self.keys@.contains(k));
                    let c = choose|c: int| is_first_index(self.keys@, k, c);
                    assert(c == i as int) by {
                        if c < i {
                        } else if c > i {
                            assert(self.keys@[i as int] != k);
                        }
                    }
                }
                let ghost before = self.keys@;
                self.keys.swap_remove(i);
                assert(self.keys@ == before.update(i as int, before.last()).drop_last());
                assert(self.keys@ == keys_after_remove(old(self).keys@, k));
                self.db.remove(&k);
                assert(self.db@ == old(self).db@.remove(k));
                return Ok(());
            }
            i = i + 1;
        }
        proof {
            assert(!self.keys@.contains(k)) by {
                if self.keys@.contains(k) {
                    let j = choose|j: int| 0 <= j < self.keys@.len() && self.keys@[j] == k;
                }
            }
        }
        Ok(())
    }
}

impl<V: Clone> ConnectionPool<V> {
    /// Hands out a connection: with one key, that key's connection; with
    /// more, the one after the last handed out, wrapping around. `None` when
    /// there is no key, or the chosen key has no connection.
    pub fn get(&mut self) -> (r: Option<V>)
        requires
            old(self).wf(),
        ensures
            final(self).wf(),
            final(self).keys() == old(self).keys(),
            final(self).db() == old(self).db(),
            final(self).count() == next_count(old(self).keys().len(), old(self).count()),
            old(self).keys().len() == 0 ==> r is None,
            old(self).keys().len() > 0 ==> ({
                let k = old(self).keys()[selected_index(
                    old(self).keys().len(),
                    old(self).count(),
                ) as int];
                &&& old(self).db().contains_key(k) ==> (r matches Some(v) && cloned(
                    old(self).db()[k],
                    v,
                ))
                &&& !old(self).db().contains_key(k) ==> r is None
            }),
    {
        if self.keys.len() == 0 {
            return None;
        } else if self.keys.len() == 1 {
            let key = self.keys[0];
            return match self.db.get(&key) {
                Some(v) => Some(v.clone()),
                None => None,
            };
        }
        let count = self.count + 1;

        if self.keys.len() <= count {
            self.count = 0;
        } else {
            self.count = count;
        }
        let key = self.keys[self.count];
        match self.db.get(&key) {
            Some(v) => Some(v.clone()),
            None => None,
        }
    }
}


/// Removing a key that was just put, and was not in the pool before, gives
/// back the pool's keys and connections as they were.
pub proof fn lemma_remove_undoes_put<V>(keys: Seq<u32>, db: Map<u32, V>, k: u32, v: V)
    requires
        !keys.contains(k),
        !db.contains_key(k),
    ensures
        keys_after_remove(keys.push(k), k) == keys,
        keys.push(k).contains(k),
        db.insert(k, v).remove(k) == db,
{
    let s = keys.push(k);
    let n = keys.len() as int;
    assert(s[n] == k);
    assert(is_first_index(s, k, n)) by {
        assert forall|j: int| 0 <= j < n implies s[j] != k by {
            assert(s[j] == keys[j]);
        }
    }
    assert(s.contains(k));
    let i = choose|i: int| is_first_index(s, k, i);
    assert(i == n) by {
        if i < n {
            assert(keys[i] == k);
            assert(keys.contains(k));
        }
    }
    assert(s.update(i, s.last()).drop_last() =~= keys);
    assert(db.insert(k, v).remove(k) =~= db);
}

/// The counter after `j` selections among `n` connections, from `count`.
pub open spec fn count_after(n: nat, count: nat, j: nat) -> nat
    decreases j,
{
    if j == 0 {
        count
    } else {
        next_count(n, count_after(n, count, (j - 1) as nat))
    }
}

/// Connections are handed out in turn: with at least two keys and a counter
/// inside the list, the counter after `j` selections is `count + j`, wrapped
/// around the number of keys.
pub proof fn lemma_round_robin(n: nat, count: nat, j: nat)
    requires
        n >= 2,
        count < n,
    ensures
        count_after(n, count, j) == ((count + j) as int) % (n as int),
    decreases j,
{
    if j == 0 {
        lemma_small_mod(count, n);
    } else {
        lemma_round_robin(n, count, (j - 1) as nat);
        let prev = (count + j - 1) % (n as int);
        assert(0 <= prev < n);
        lemma_add_mod_noop(count + j - 1, 1, n as int);
        lemma_small_mod(1, n);
        if prev + 1 == n {
            lemma_mod_self_0(n as int);
        } else {
            lemma_small_mod((prev + 1) as nat, n);
        }
    }
}

/// Every connection gets its turn: within `n` selections among `n` keys,
/// each position is selected once the counter lies inside the list.
pub proof fn lemma_every_position_served(n: nat, count: nat, i: nat)
    requires
        n >= 2,
        count < n,
        i < n,
    ensures
        exists|j: nat| 1 <= j <= n && count_after(n, count, j) == i,
{
    let j: nat = if i > count {
        (i - count) as nat
    } else {
        (i + n - count) as nat
    };
    lemma_round_robin(n, count, j);
    if i > count {
        lemma_small_mod(i, n);
    } else {
        lemma_mod_add_multiples_vanish(i as int, n as int);
        lemma_small_mod(i, n);
    }
    assert(count_after(n, count, j) == i);
}

/// The position that the selection after `j` earlier ones picks, among `n`
/// connections, from counter `count`.
pub open spec fn position_after(n: nat, count: nat, j: nat) -> nat {
    selected_index(n, count_after(n, count, j))
}

/// Position `i` is picked by one of the next `n` selections.
pub open spec fn picked_within(n: nat, count: nat, i: nat) -> bool {
    exists|j: nat| j < n && #[trigger] position_after(n, count, j) == i
}

/// Taking one more selection first is the same as starting from the counter
/// that one selection leaves.
proof fn lemma_count_after_shift(n: nat, count: nat, j: nat)
    ensures
        count_after(n, count, j + 1) == count_after(n, count_after(n, count, 1), j),
    decreases j,
{
    if j > 0 {
        lemma_count_after_shift(n, count, (j - 1) as nat);
    }
}

/// From a counter inside the list, the counter after `j` selections is
/// `c + j`, wrapped once around the number of keys.
proof fn lemma_count_after_wrap(n: nat, c: nat, j: nat)
    requires
        n >= 2,
        c < n,
        c + j < 2 * n,
    ensures
        count_after(n, c, j) == if c + j < n {
            c + j
        } else {
            (c + j - n) as nat
        },
    decreases j,
{
    if j > 0 {
        lemma_count_after_wrap(n, c, (j - 1) as nat);
    }
}

/// Connections are handed out in turn from any counter, also one that a
/// removal left past the end of the list: among `n >= 1` keys, the next `n`
/// selections pick each position exactly once.
pub proof fn lemma_each_position_once(n: nat, count: nat)
    requires
        n >= 1,
    ensures
        forall|j: nat| j < n ==> #[trigger] position_after(n, count, j) < n,
        forall|i: nat| i < n ==> #[trigger] picked_within(n, count, i),
        forall|j1: nat, j2: nat|
            j1 < n && j2 < n && #[trigger] position_after(n, count, j1) == #[trigger] position_after(
                n,
                count,
                j2,
            ) ==> j1 == j2,
{
    if n == 1 {
        assert forall|i: nat| i < n implies #[trigger] picked_within(n, count, i) by {
            assert(position_after(n, count, 0) == 0);
        }
    } else {
        let c1 = count_after(n, count, 1);
        assert(c1 < n);
        assert forall|j: nat| j < n implies #[trigger] position_after(n, count, j) == if c1 + j < n {
            c1 + j
        } else {
            (c1 + j - n) as nat
        } by {
            lemma_count_after_shift(n, count, j);
            lemma_count_after_wrap(n, c1, j);
        }
        assert forall|i: nat| i < n implies #[trigger] picked_within(n, count, i) by {
            let j: nat = if i >= c1 {
                (i - c1) as nat
            } else {
                (i + n - c1) as nat
            };
            assert(position_after(n, count, j) == i);
        }
    }
}

/// Closing a channel twice: after the first removal the channel is gone, so
/// a second removal finds nothing (no disconnect message goes out) and
/// leaves the table as the first one left it.
pub proof fn lemma_close_channel_twice<V>(channels: Map<ChannelId, V>, id: ChannelId)
    ensures
        !channels.remove(id).contains_key(id),
        channels.remove(id).remove(id) == channels.remove(id),
{
    assert(channels.remove(id).remove(id) =~= channels.remove(id));
}

/// The keys and the connections of a pool agree: no key is listed twice, and
/// the listed keys are the keys of the connections.
pub open spec fn pool_consistent<V>(keys: Seq<u32>, db: Map<u32, V>) -> bool {
    &&& keys.no_duplicates()
    &&& forall|k: u32| keys.contains(k) <==> db.contains_key(k)
}

/// Putting a connection under a new key keeps a pool consistent.
pub proof fn lemma_put_consistent<V>(keys: Seq<u32>, db: Map<u32, V>, k: u32, v: V)
    requires
        pool_consistent(keys, db),
        !keys.contains(k),
    ensures
        pool_consistent(keys.push(k), db.insert(k, v)),
{
    let s = keys.push(k);
    assert forall|x: u32| s.contains(x) <==> db.insert(k, v).contains_key(x) by {
        if s.contains(x) {
            let j = choose|j: int| 0 <= j < s.len() && s[j] == x;
            if j < keys.len() {
                assert(keys[j] == x);
                assert(keys.contains(x));
            }
        }
        if x != k && db.contains_key(x) {
            assert(keys.contains(x));
            let j = choose|j: int| 0 <= j < keys.len() && keys[j] == x;
            assert(s[j] == x);
        }
        if x == k {
            assert(s[keys.len() as int] == k);
        }
    }
    assert forall|a: int, b: int| 0 <= a < s.len() && 0 <= b < s.len() && a != b implies s[a]
        != s[b] by {
        if a < keys.len() && b < keys.len() {
        } else if a < keys.len() {
            assert(keys.contains(s[a]));
        } else {
            assert(keys.contains(s[b]));
        }
    }
}

/// Removing a key keeps a pool consistent.
pub proof fn lemma_remove_consistent<V>(keys: Seq<u32>, db: Map<u32, V>, k: u32)
    requires
        pool_consistent(keys, db),
    ensures
        pool_consistent(
            keys_after_remove(keys, k),
            if keys.contains(k) {
                db.remove(k)
            } else {
                db
            },
        ),
{
    if keys.contains(k) {
        lemma_first_index_exists(keys, k);
        let i = choose|i: int| is_first_index(keys, k, i);
        let n = keys.len() as int;
        let s = keys.update(i, keys.last()).drop_last();
        assert(s.len() == n - 1);
        assert forall|j: int| 0 <= j < s.len() implies #[trigger] s[j] == if j == i {
            keys[n - 1]
        } else {
            keys[j]
        } by {}
        assert forall|x: u32| s.contains(x) <==> db.remove(k).contains_key(x) by {
            if s.contains(x) {
                let j = choose|j: int| 0 <= j < s.len() && s[j] == x;
                if j == i {
                    assert(keys[n - 1] == x);
                    assert(keys.contains(x));
                    assert(i != n - 1);
                    assert(x != k);
                } else {
                    assert(keys[j] == x);
                    assert(keys.contains(x));
                    assert(x != k);
                }
            }
            if x != k && db.contains_key(x) {
                assert(keys.contains(x));
                let j = choose|j: int| 0 <= j < keys.len() && keys[j] == x;
                assert(j != i);
                if j == n - 1 {
                    assert(s[i] == x);
                } else {
                    assert(s[j] == x);
                }
            }
        }
        assert forall|a: int, b: int| 0 <= a < s.len() && 0 <= b < s.len() && a != b implies s[a]
            != s[b] by {
            let ka = if a == i {
                n - 1
            } else {
                a
            };
            let kb = if b == i {
                n - 1
            } else {
                b
            };
            assert(s[a] == keys[ka]);
            assert(s[b] == keys[kb]);
        }
        assert(keys_after_remove(keys, k) == s);
    }
}

/// In a consistent pool with at least one key, the key that the next
/// selection picks has a connection, so the selection gives one.
pub proof fn lemma_get_finds<V>(keys: Seq<u32>, db: Map<u32, V>, count: nat)
    requires
        pool_consistent(keys, db),
        keys.len() > 0,
    ensures
        selected_index(keys.len(), count) < keys.len(),
        db.contains_key(keys[selected_index(keys.len(), count) as int]),
{
    let i = selected_index(keys.len(), count) as int;
    assert(keys.contains(keys[i]));
}

/// What the program does with a message that came from the server.
#[derive(Clone, Copy, Debug, PartialEq, Eq)]
pub enum InboundAction {
    /// Hand the data to the local end of this channel.
    Forward(ChannelId),
    /// The channel was closed by the server; nothing more to do.
    Closed(ChannelId),
    /// The data is for a channel that is not open; drop it.
    Dropped(ChannelId),
}

/// The channels that one multiplexed connection to the server carries,
/// each with the local end that receives its data.
pub struct TcpMuxChannel<V> {
    db: HashMap<ChannelId, V>,
    buff_size: usize,
    is_closed: bool,
}

impl<V> TcpMuxChannel<V> {
    /// The open channels and their local ends.
    pub closed spec fn channels(&self) -> Map<ChannelId, V> {
        self.db@
    }

    /// Whether the connection has been closed.
    pub closed spec fn closed(&self) -> bool {
        self.is_closed
    }

    /// The buffer size of each channel's local pipe.
    pub closed spec fn buffer_size(&self) -> usize {
        self.buff_size
    }

    /// A closed connection carries no channel.
    pub open spec fn closed_is_empty(&self) -> bool {
        self.closed() ==> self.channels() == Map::<ChannelId, V>::empty()
    }

    /// A connection with no channel yet.
    pub fn new(buff_size: usize) -> (r: TcpMuxChannel<V>)
        ensures
            r.channels() == Map::<ChannelId, V>::empty(),
            !r.closed(),
            r.closed_is_empty(),
            r.buffer_size() == buff_size,
    {
        TcpMuxChannel { db: HashMap::new(), buff_size, is_closed: false }
    }

    /// The buffer size of each channel's local pipe.
    pub fn buff_size(&self) -> (r: usize)
        ensures
            r == self.buffer_size(),
    {
        self.buff_size
    }

    /// Marks the connection closed and drops every channel.
    pub fn close(&mut self)
        ensures
            final(self).closed(),
            final(self).channels() == Map::<ChannelId, V>::empty(),
            final(self).closed_is_empty(),
            final(self).buffer_size() == old(self).buffer_size(),
    {
        self.is_closed = true;
        self.db.clear();
    }

    /// Records channel `channel_id` with local end `child`, once its connect
    /// message has gone out. A closed connection refuses it.
    pub fn register(&mut self, channel_id: ChannelId, child: V) -> (r: Result<(), ProxyError>)
        ensures
            old(self).closed() ==> (r matches Err(ProxyError::Register) && final(self).channels()
                == old(self).channels()),
            !old(self).closed() ==> r is Ok && final(self).channels() == old(
                self,
            ).channels().insert(channel_id, child),
            final(self).closed() == old(self).closed(),
            final(self).buffer_size() == old(self).buffer_size(),
            old(self).closed_is_empty() ==> final(self).closed_is_empty(),
    {
        if self.is_closed {
            return Err(ProxyError::Register);
        }
        self.db.insert(channel_id, child);
        Ok(())
    }

    /// Records the channel of `request`, whose connect message has gone
    /// out, with local end `child`: the channel registered is the one that
    /// message names. A closed connection refuses it.
    pub fn open_channel(&mut self, request: &ConnectRequest, child: V) -> (r: Result<(), ProxyError>)
        ensures
            request.message() == msg_bytes(
                MsgModel::Connect(request.id(), request.target().0, request.target().1),
            ),
            old(self).closed() ==> (r matches Err(ProxyError::Register) && final(self).channels()
                == old(self).channels()),
            !old(self).closed() ==> r is Ok && final(self).channels() == old(
                self,
            ).channels().insert(request.id(), child),
            final(self).closed() == old(self).closed(),
            final(self).buffer_size() == old(self).buffer_size(),
            old(self).closed_is_empty() ==> final(self).closed_is_empty(),
    {
        proof {
            use_type_invariant(request);
        }
        self.register(request.channel_id, child)
    }

    /// Closes channel `channel_id` from the local side. While the way to the
    /// server is still open (`tx_closed` false) the channel leaves the table,
    /// and if it was there the disconnect message to send is returned.
    pub fn remove(&mut self, channel_id: ChannelId, tx_closed: bool) -> (r: Option<Vec<u8>>)
        ensures
            tx_closed ==> r is None && final(self).channels() == old(self).channels(),
            !tx_closed ==> final(self).channels() == old(self).channels().remove(channel_id),
            !tx_closed && old(self).channels().contains_key(channel_id) ==> (r matches Some(m)
                && m@ == msg_bytes(MsgModel::Disconnect(channel_id))),
            !tx_closed && !old(self).channels().contains_key(channel_id) ==> r is None,
            final(self).closed() == old(self).closed(),
            final(self).buffer_size() == old(self).buffer_size(),
            old(self).closed_is_empty() ==> final(self).closed_is_empty(),
    {
        assert(Map::<ChannelId, V>::empty().remove(channel_id) =~= Map::<ChannelId, V>::empty());
        if !tx_closed {
            if self.db.remove(&channel_id).is_some() {
                return Some(encode_disconnect_msg(channel_id));
            }
        }
        None
    }

    /// The local end of channel `channel_id`.
    pub fn get(&self, channel_id: ChannelId) -> (r: Option<&V>)
        ensures
            self.channels().contains_key(channel_id) ==> (r matches Some(v) && *v
                == self.channels()[channel_id]),
            !self.channels().contains_key(channel_id) ==> r is None,
    {
        self.db.get(&channel_id)
    }

    /// Deals with a message from the server: data goes to its channel if
    /// that is open, a disconnect closes its channel, and a connect is not
    /// allowed in this direction.
    pub fn handle_inbound(&mut self, msg: &Msg) -> (r: Result<InboundAction, ProxyError>)
        ensures
            final(self).closed() == old(self).closed(),
            final(self).buffer_size() == old(self).buffer_size(),
            old(self).closed_is_empty() ==> final(self).closed_is_empty(),
            match msg@ {
                MsgModel::Data(id, _) => final(self).channels() == old(self).channels() && if old(
                    self,
                ).channels().contains_key(id) {
                    r == Ok::<InboundAction, ProxyError>(InboundAction::Forward(id))
                } else {
                    r == Ok::<InboundAction, ProxyError>(InboundAction::Dropped(id))
                },
                MsgModel::Disconnect(id) => final(self).channels() == old(self).channels().remove(id)
                    && r == Ok::<InboundAction, ProxyError>(InboundAction::Closed(id)),
                MsgModel::Connect(_, _, _) => final(self).channels() == old(self).channels()
                    && (r matches Err(ProxyError::MessageType)),
            },
    {
        match msg {
            Msg::Data(channel_id, _) => {
                if self.db.contains_key(channel_id) {
                    Ok(InboundAction::Forward(*channel_id))
                } else {
                    Ok(InboundAction::Dropped(*channel_id))
                }
            },
            Msg::Disconnect(channel_id) => {
                assert(Map::<ChannelId, V>::empty().remove(*channel_id) =~= Map::<
                    ChannelId,
                    V,
                >::empty());
                self.db.remove(channel_id);
                Ok(InboundAction::Closed(*channel_id))
            },
            Msg::Connect(_, _) => Err(ProxyError::MessageType),
        }
    }
}

/// A random channel id from `rand::random`; any value may come out.
#[verifier::external_body]
fn random_channel_id() -> (r: ChannelId) {
    rand::random()
}

/// A channel that a local connection is about to open: its id, its target,
/// and the connect message that announces it to the server.
pub struct ConnectRequest {
    channel_id: ChannelId,
    message: Vec<u8>,
    target: Ghost<(Seq<u8>, u16)>,
}

impl ConnectRequest {
    /// The message is the connect message of the id and the target.
    #[verifier::type_invariant]
    spec fn announces(self) -> bool {
        self.message@ == msg_bytes(MsgModel::Connect(self.channel_id, self.target@.0, self.target@.1))
    }

    /// The id of the channel.
    pub closed spec fn id(&self) -> ChannelId {
        self.channel_id
    }

    /// The target host bytes and port.
    pub closed spec fn target(&self) -> (Seq<u8>, u16) {
        self.target@
    }

    /// The bytes of the connect message.
    pub closed spec fn message(&self) -> Seq<u8> {
        self.message@
    }

    /// The id of the channel.
    pub fn channel_id(&self) -> (r: ChannelId)
        ensures
            r == self.id(),
    {
        self.channel_id
    }

    /// The connect message to send for the channel: it names the channel's
    /// id and target.
    pub fn connect_message(&self) -> (r: &Vec<u8>)
        ensures
            r@ == self.message(),
            r@ == msg_bytes(MsgModel::Connect(self.id(), self.target().0, self.target().1)),
    {
        proof {
            use_type_invariant(self);
        }
        &self.message
    }
}

/// A fresh random channel id for a local connection to `addr`, and the
/// connect message to send for it.
pub fn connect_request(addr: Address) -> (r: ConnectRequest)
    ensures
        r.target() == (addr.0@, addr.1),
        r.message() == msg_bytes(MsgModel::Connect(r.id(), addr.0@, addr.1)),
{
    let channel_id = random_channel_id();
    let ghost target = (addr.0@, addr.1);
    let message = encode_connect_msg(addr, channel_id);
    ConnectRequest { channel_id, message, target: Ghost(target) }
}

/// The way local connections reach the server over multiplexed
/// connections.
pub struct TcpMuxHandle;

impl TcpMuxHandle {
    /// The connection that the next local connection goes through, from the
    /// pool; an error when the pool has none to give.
    pub fn pick_channel<V: Clone>(&self, pool: &mut ConnectionPool<V>) -> (r: Result<V, ProxyError>)
        requires
            old(pool).wf(),
        ensures
            final(pool).wf(),
            final(pool).keys() == old(pool).keys(),
            final(pool).db() == old(pool).db(),
            final(pool).count() == next_count(old(pool).keys().len(), old(pool).count()),
            old(pool).keys().len() == 0 ==> r matches Err(ProxyError::NoConnection),
            old(pool).keys().len() > 0 ==> ({
                let k = old(pool).keys()[selected_index(
                    old(pool).keys().len(),
                    old(pool).count(),
                ) as int];
                &&& old(pool).db().contains_key(k) ==> (r matches Ok(v) && cloned(
                    old(pool).db()[k],
                    v,
                ))
                &&& !old(pool).db().contains_key(k) ==> r matches Err(ProxyError::NoConnection)
            }),
    {
        match pool.get() {
            Some(channel) => Ok(channel),
            None => Err(ProxyError::NoConnection),
        }
    }
}

} // verus!
