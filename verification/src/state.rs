//! Persistent state of the contract: configuration, admin, and the channel
//! registry.
//!
//! The registry is the authoritative table of channels this contract may
//! send queries over.  It is populated exclusively by handshake completion
//! and consulted by every dispatch; its entries are kept strictly sorted
//! ascending by channel id, so listing them needs no further work.

use vstd::prelude::*;
use vstd::string::*;

verus! {

/// Global defaults, set at initialization and changed only through the
/// administrative migration path.
#[derive(Clone, Copy, Debug, PartialEq)]
pub struct Config {
    /// Timeout applied to a dispatch that names none, in seconds.
    pub default_timeout: u64,
    /// Default gas allowance for remote execution, if any.
    pub default_gas_limit: Option<u64>,
}

/// One end of a channel: a port on some chain and the channel's id there.
#[derive(Debug, PartialEq)]
pub struct IbcEndpoint {
    pub port_id: String,
    pub channel_id: String,
}

/// Static information on one registered channel; immutable once created.
#[derive(Debug, PartialEq)]
pub struct ChannelInfo {
    /// Id of this channel on our side; the registry's key.
    pub id: String,
    /// The remote channel/port we connect to.
    pub counterparty_endpoint: IbcEndpoint,
    /// The connection this channel exists on.
    pub connection_id: String,
}

impl Clone for IbcEndpoint {
    fn clone(&self) -> (r: Self)
        ensures
            r == *self,
    {
        IbcEndpoint { port_id: self.port_id.clone(), channel_id: self.channel_id.clone() }
    }
}

impl Clone for ChannelInfo {
    fn clone(&self) -> (r: Self)
        ensures
            r == *self,
    {
        ChannelInfo {
            id: self.id.clone(),
            counterparty_endpoint: self.counterparty_endpoint.clone(),
            connection_id: self.connection_id.clone(),
        }
    }
}

/// Strict lexicographic order on character sequences, by Unicode scalar
/// value.  This is the order channel ids are listed in.
pub open spec fn seq_char_lt(a: Seq<char>, b: Seq<char>) -> bool
    decreases a.len(),
{
    if b.len() == 0 {
        false
    } else if a.len() == 0 {
        true
    } else if (a[0] as u32) < (b[0] as u32) {
        true
    } else if a[0] == b[0] {
        seq_char_lt(a.drop_first(), b.drop_first())
    } else {
        false
    }
}

/// No sequence is lexicographically below itself.
pub proof fn lemma_seq_char_lt_irrefl(a: Seq<char>)
    ensures
        !seq_char_lt(a, a),
    decreases a.len(),
{
    if a.len() > 0 {
        lemma_seq_char_lt_irrefl(a.drop_first());
    }
}

/// Any two sequences are ordered one way, the other way, or equal.
pub proof fn lemma_seq_char_lt_trichotomy(a: Seq<char>, b: Seq<char>)
    ensures
        seq_char_lt(a, b) || seq_char_lt(b, a) || a == b,
    decreases a.len(),
{
    if a.len() == 0 && b.len() == 0 {
        assert(a =~= b);
    } else if a.len() > 0 && b.len() > 0 {
        if a[0] == b[0] {
            lemma_seq_char_lt_trichotomy(a.drop_first(), b.drop_first());
            if a.drop_first() == b.drop_first() {
                assert(a =~= b) by {
                    assert(a.len() == b.len());
                    assert forall|i: int| 0 <= i < a.len() implies a[i] == b[i] by {
                        if i >= 1 {
                            assert(a[i] == a.drop_first()[i - 1]);
                            assert(b[i] == b.drop_first()[i - 1]);
                        }
                    }
                }
            }
        } else if (a[0] as u32) == (b[0] as u32) {
            vstd::utf8::char_u32_cast(a[0], a[0] as u32);
            vstd::utf8::char_u32_cast(b[0], b[0] as u32);
        }
    }
}

/// Lexicographic order is transitive.
pub proof fn lemma_seq_char_lt_trans(a: Seq<char>, b: Seq<char>, c: Seq<char>)
    requires
        seq_char_lt(a, b),
        seq_char_lt(b, c),
    ensures
        seq_char_lt(a, c),
    decreases a.len(),
{
    if a.len() > 0 && b.len() > 0 && c.len() > 0 {
        if a[0] == b[0] && b[0] == c[0] {
            lemma_seq_char_lt_trans(a.drop_first(), b.drop_first(), c.drop_first());
        }
    }
}

/// Compares two strings in the lexicographic order of [`seq_char_lt`].
pub fn str_lt(a: &String, b: &String) -> (r: bool)
    ensures
        r == seq_char_lt(a@, b@),
{
    let r = str_lt_from(a.as_str(), b.as_str(), 0);
    proof {
        assert(a@.skip(0) =~= a@);
        assert(b@.skip(0) =~= b@);
    }
    r
}

fn str_lt_from(a: &str, b: &str, i: usize) -> (r: bool)
    requires
        i <= a@.len(),
        i <= b@.len(),
    ensures
        r == seq_char_lt(a@.skip(i as int), b@.skip(i as int)),
    decreases a@.len() - i,
{
    if i == b.unicode_len() {
        false
    } else if i == a.unicode_len() {
        true
    } else {
        let ca = a.get_char(i);
        let cb = b.get_char(i);
        proof {
            assert(a@.skip(i as int)[0] == a@[i as int]);
            assert(b@.skip(i as int)[0] == b@[i as int]);
            assert(a@.skip(i as int).drop_first() =~= a@.skip(i as int + 1));
            assert(b@.skip(i as int).drop_first() =~= b@.skip(i as int + 1));
        }
        if (ca as u32) < (cb as u32) {
            true
        } else if ca == cb {
            str_lt_from(a, b, i + 1)
        } else {
            false
        }
    }
}

/// The table of channels this contract may send queries over, sorted
/// strictly ascending by channel id.
pub struct ChannelRegistry {
    channels: Vec<ChannelInfo>,
}

impl View for ChannelRegistry {
    type V = Seq<ChannelInfo>;

    closed spec fn view(&self) -> Seq<ChannelInfo> {
        self.channels@
    }
}

impl ChannelRegistry {
    /// The registry's entries are strictly sorted ascending by id; in
    /// particular each id appears at most once.
    pub open spec fn wf(self) -> bool {
        forall|i: int, j: int|
            0 <= i < j < self@.len() ==> seq_char_lt(self@[i].id@, self@[j].id@)
    }

    /// Whether a channel with the given id is registered.
    pub open spec fn has_spec(self, id: Seq<char>) -> bool {
        exists|i: int| 0 <= i < self@.len() && self@[i].id@ == id
    }

    /// The index of the entry with the given id, if one exists.
    pub open spec fn idx_of(self, id: Seq<char>) -> int {
        choose|i: int| 0 <= i < self@.len() && self@[i].id@ == id
    }

    /// The registered entry for the given id, if any.
    pub open spec fn get_spec(self, id: Seq<char>) -> Option<ChannelInfo> {
        if self.has_spec(id) {
            Some(self@[self.idx_of(id)])
        } else {
            None
        }
    }

    /// In a well-formed registry the entry at any index is the one its id
    /// resolves to: ids are unique.
    pub proof fn lemma_entry_at(self, i: int)
        requires
            self.wf(),
            0 <= i < self@.len(),
        ensures
            self.has_spec(self@[i].id@),
            self.get_spec(self@[i].id@) == Some(self@[i]),
            self.idx_of(self@[i].id@) == i,
    {
        let id = self@[i].id@;
        assert(self.has_spec(id));
        let k = self.idx_of(id);
        if k != i {
            if k < i {
                assert(seq_char_lt(self@[k].id@, self@[i].id@));
            } else {
                assert(seq_char_lt(self@[i].id@, self@[k].id@));
            }
            lemma_seq_char_lt_irrefl(id);
        }
    }

    /// An empty registry.
    pub fn new() -> (r: ChannelRegistry)
        ensures
            r@ =~= Seq::<ChannelInfo>::empty(),
            r.wf(),
    {
        ChannelRegistry { channels: Vec::new() }
    }

    /// Whether the given channel id is registered.
    pub fn has(&self, id: &String) -> (r: bool)
        ensures
            r == self.has_spec(id@),
    {
        let n = self.channels.len();
        let mut i: usize = 0;
        while i < n
            invariant
                n == self@.len(),
                0 <= i <= n,
                forall|j: int| 0 <= j < i ==> self@[j].id@ != id@,
            decreases n - i,
        {
            if self.channels[i].id == *id {
                proof {
                    assert(self@[i as int].id@ == id@);
                }
                return true;
            }
            i += 1;
        }
        false
    }

    /// The registered entry for the given id, if any.
    pub fn get(&self, id: &String) -> (r: Option<&ChannelInfo>)
        requires
            self.wf(),
        ensures
            match r {
                Some(info) => self.get_spec(id@) == Some(*info),
                None => self.get_spec(id@) is None,
            },
    {
        let n = self.channels.len();
        let mut i: usize = 0;
        while i < n
            invariant
                self.wf(),
                n == self@.len(),
                0 <= i <= n,
                forall|j: int| 0 <= j < i ==> self@[j].id@ != id@,
            decreases n - i,
        {
            if self.channels[i].id == *id {
                proof {
                    self.lemma_entry_at(i as int);
                }
                return Some(&self.channels[i]);
            }
            i += 1;
        }
        proof {
            assert(!self.has_spec(id@));
        }
        None
    }

    /// All registered channels, ascending by id.
    pub fn list(&self) -> (r: Vec<ChannelInfo>)
        ensures
            r@ =~= self@,
    {
        let n = self.channels.len();
        let mut out: Vec<ChannelInfo> = Vec::new();
        let mut i: usize = 0;
        while i < n
            invariant
                n == self@.len(),
                0 <= i <= n,
                out@.len() == i,
                forall|j: int| 0 <= j < i ==> out@[j] == self@[j],
            decreases n - i,
        {
            out.push(self.channels[i].clone());
            i += 1;
        }
        out
    }

    /// Inserts the channel, or overwrites the entry with the same id.  The
    /// registry stays sorted and every other entry is untouched.
    pub fn register(&mut self, info: ChannelInfo)
        requires
            old(self).wf(),
        ensures
            final(self).wf(),
            final(self).has_spec(info.id@),
            final(self).get_spec(info.id@) == Some(info),
            forall|x: Seq<char>|
                x != info.id@ ==> final(self).get_spec(x) == old(self).get_spec(x),
            forall|x: Seq<char>|
                x != info.id@ ==> final(self).has_spec(x) == old(self).has_spec(x),
    {
        let n = self.channels.len();
        let mut p: usize = 0;
        while p < n && str_lt(&self.channels[p].id, &info.id)
            invariant
                *self == *old(self),
                self.wf(),
                n == self@.len(),
                0 <= p <= n,
                forall|j: int| 0 <= j < p ==> seq_char_lt(self@[j].id@, info.id@),
            decreases n - p,
        {
            p += 1;
        }
        let ghost pre = *self;
        if p < n && self.channels[p].id == info.id {
            self.channels.set(p, info);
            proof {
                Self::lemma_update_keeps(pre, *self, p as int, info);
            }
        } else {
            proof {
                if p < n {
                    lemma_seq_char_lt_trichotomy(pre@[p as int].id@, info.id@);
                    assert(seq_char_lt(info.id@, pre@[p as int].id@));
                }
                assert forall|j: int| p <= j < pre@.len() implies seq_char_lt(
                    info.id@,
                    pre@[j].id@,
                ) by {
                    if j > p {
                        assert(seq_char_lt(pre@[p as int].id@, pre@[j].id@));
                        lemma_seq_char_lt_trans(info.id@, pre@[p as int].id@, pre@[j].id@);
                    }
                }
            }
            self.channels.insert(p, info);
            proof {
                Self::lemma_insert_keeps(pre, *self, p as int, info);
            }
        }
    }

    /// After overwriting position `p` (whose id equals the new entry's),
    /// the registry is still sorted and resolves ids as promised.
    proof fn lemma_update_keeps(pre: Self, post: Self, p: int, info: ChannelInfo)
        requires
            pre.wf(),
            0 <= p < pre@.len(),
            pre@[p].id@ == info.id@,
            post@ =~= pre@.update(p, info),
        ensures
            post.wf(),
            post.has_spec(info.id@),
            post.get_spec(info.id@) == Some(info),
            forall|x: Seq<char>| x != info.id@ ==> post.get_spec(x) == pre.get_spec(x),
            forall|x: Seq<char>| x != info.id@ ==> post.has_spec(x) == pre.has_spec(x),
    {
        assert forall|i: int, j: int| 0 <= i < j < post@.len() implies seq_char_lt(
            post@[i].id@,
            post@[j].id@,
        ) by {
            assert(seq_char_lt(pre@[i].id@, pre@[j].id@));
        }
        post.lemma_entry_at(p);
        assert forall|x: Seq<char>| x != info.id@ implies post.get_spec(x) == pre.get_spec(x)
            && post.has_spec(x) == pre.has_spec(x) by {
            if pre.has_spec(x) {
                let i = pre.idx_of(x);
                pre.lemma_entry_at(i);
                assert(post@[i].id@ == x);
                post.lemma_entry_at(i);
            } else {
                assert(forall|i: int| 0 <= i < post@.len() ==> post@[i].id@ != x);
            }
        }
    }

    /// After inserting the new entry at position `p`, between the ids below
    /// it and the ids above it, the registry is still sorted and resolves
    /// ids as promised.
    proof fn lemma_insert_keeps(pre: Self, post: Self, p: int, info: ChannelInfo)
        requires
            pre.wf(),
            0 <= p <= pre@.len(),
            forall|j: int| 0 <= j < p ==> seq_char_lt(pre@[j].id@, info.id@),
            forall|j: int| p <= j < pre@.len() ==> seq_char_lt(info.id@, pre@[j].id@),
            post@ =~= pre@.insert(p, info),
        ensures
            post.wf(),
            post.has_spec(info.id@),
            post.get_spec(info.id@) == Some(info),
            forall|x: Seq<char>| x != info.id@ ==> post.get_spec(x) == pre.get_spec(x),
            forall|x: Seq<char>| x != info.id@ ==> post.has_spec(x) == pre.has_spec(x),
    {
        assert forall|i: int, j: int| 0 <= i < j < post@.len() implies seq_char_lt(
            post@[i].id@,
            post@[j].id@,
        ) by {
            let a = if i < p {
                pre@[i]
            } else if i == p {
                info
            } else {
                pre@[i - 1]
            };
            let b = if j < p {
                pre@[j]
            } else if j == p {
                info
            } else {
                pre@[j - 1]
            };
            assert(post@[i] == a);
            assert(post@[j] == b);
            if i < p && j > p {
                lemma_seq_char_lt_trans(pre@[i].id@, info.id@, pre@[j - 1].id@);
            }
        }
        post.lemma_entry_at(p);
        assert forall|x: Seq<char>| x != info.id@ implies post.get_spec(x) == pre.get_spec(x)
            && post.has_spec(x) == pre.has_spec(x) by {
            if pre.has_spec(x) {
                let i = pre.idx_of(x);
                pre.lemma_entry_at(i);
                if i < p {
                    assert(post@[i].id@ == x);
                    post.lemma_entry_at(i);
                } else {
                    assert(post@[i + 1].id@ == x);
                    post.lemma_entry_at(i + 1);
                }
            } else {
                assert forall|i: int| 0 <= i < post@.len() implies post@[i].id@ != x by {
                    if i < p {
                        assert(post@[i] == pre@[i]);
                    } else if i > p {
                        assert(post@[i] == pre@[i - 1]);
                    }
                }
            }
        }
    }

    /// Removes the entry with the given id, if present.  Every other entry
    /// is untouched, and the registry stays sorted.
    pub fn remove(&mut self, id: &String)
        requires
            old(self).wf(),
        ensures
            final(self).wf(),
            !final(self).has_spec(id@),
            final(self).get_spec(id@) is None,
            forall|x: Seq<char>| x != id@ ==> final(self).get_spec(x) == old(self).get_spec(x),
            forall|x: Seq<char>| x != id@ ==> final(self).has_spec(x) == old(self).has_spec(x),
    {
        let n = self.channels.len();
        let mut i: usize = 0;
        while i < n
            invariant
                *self == *old(self),
                self.wf(),
                n == self@.len(),
                0 <= i <= n,
                forall|j: int| 0 <= j < i ==> self@[j].id@ != id@,
            decreases n - i,
        {
            if self.channels[i].id == *id {
                let ghost pre = *self;
                self.channels.remove(i);
                proof {
                    Self::lemma_remove_keeps(pre, *self, i as int, id@);
                }
                return ;
            }
            i += 1;
        }
        proof {
            assert(!self.has_spec(id@));
        }
    }

    /// After removing position `p` (the entry whose id was asked for), the
    /// registry is still sorted, no longer resolves that id, and resolves
    /// every other id as before.
    proof fn lemma_remove_keeps(pre: Self, post: Self, p: int, id: Seq<char>)
        requires
            pre.wf(),
            0 <= p < pre@.len(),
            pre@[p].id@ == id,
            post@ =~= pre@.remove(p),
        ensures
            post.wf(),
            !post.has_spec(id),
            forall|x: Seq<char>| x != id ==> post.get_spec(x) == pre.get_spec(x),
            forall|x: Seq<char>| x != id ==> post.has_spec(x) == pre.has_spec(x),
    {
        assert forall|i: int, j: int| 0 <= i < j < post@.len() implies seq_char_lt(
            post@[i].id@,
            post@[j].id@,
        ) by {
            let a = if i < p {
                pre@[i]
            } else {
                pre@[i + 1]
            };
            let b = if j < p {
                pre@[j]
            } else {
                pre@[j + 1]
            };
            assert(post@[i] == a);
            assert(post@[j] == b);
        }
        assert forall|i: int| 0 <= i < post@.len() implies post@[i].id@ != id by {
            if i < p {
                assert(post@[i] == pre@[i]);
                pre.lemma_entry_at(i);
                pre.lemma_entry_at(p);
            } else {
                assert(post@[i] == pre@[i + 1]);
                pre.lemma_entry_at(i + 1);
                pre.lemma_entry_at(p);
            }
        }
        assert forall|x: Seq<char>| x != id implies post.get_spec(x) == pre.get_spec(x)
            && post.has_spec(x) == pre.has_spec(x) by {
            if pre.has_spec(x) {
                let i = pre.idx_of(x);
                pre.lemma_entry_at(i);
                if i < p {
                    assert(post@[i].id@ == x);
                    post.lemma_entry_at(i);
                } else {
                    assert(i != p);
                    assert(post@[i - 1].id@ == x);
                    post.lemma_entry_at(i - 1);
                }
            } else {
                assert forall|i: int| 0 <= i < post@.len() implies post@[i].id@ != x by {
                    if i < p {
                        assert(post@[i] == pre@[i]);
                    } else {
                        assert(post@[i] == pre@[i + 1]);
                    }
                }
            }
        }
    }
}

/// Everything the contract persists, as one consistent snapshot.
pub struct ContractState {
    /// Global defaults; the config singleton.
    pub config: Config,
    /// The admin singleton: at most one privileged address.
    pub admin: Option<String>,
    /// The channel registry.
    pub channels: ChannelRegistry,
    /// Advisory count of packet outcomes observed; never consulted for
    /// dispatch decisions.
    pub query_result_counter: u64,
}

impl ContractState {
    /// The state is well formed when its registry is.
    pub open spec fn wf(self) -> bool {
        self.channels.wf()
    }
}

} // verus!
