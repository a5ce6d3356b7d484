use vstd::prelude::*;
use crate::client::connection::ClientInfo;
use crate::token::{SharedToken, Token};

verus! {

/// No two entries carry tokens spelled alike.
pub open spec fn keys_distinct(s: Seq<(SharedToken, ClientInfo)>) -> bool {
    forall|i: int, j: int|
        #![trigger s[i], s[j]]
        0 <= i < s.len() && 0 <= j < s.len() && i != j ==> s[i].0@ != s[j].0@
}

/// Some entry carries the token spelled `k`.
pub open spec fn has_key(s: Seq<(SharedToken, ClientInfo)>, k: Seq<char>) -> bool {
    exists|i: int| 0 <= i < s.len() && #[trigger] s[i].0@ == k
}

/// The position of an entry carrying the token spelled `k`.
pub open spec fn key_index(s: Seq<(SharedToken, ClientInfo)>, k: Seq<char>) -> int {
    choose|i: int| 0 <= i < s.len() && #[trigger] s[i].0@ == k
}

/// The map from token spelling to entry that a list of entries stands for.
pub open spec fn entries_to_map(s: Seq<(SharedToken, ClientInfo)>) -> Map<
    Seq<char>,
    (SharedToken, ClientInfo),
> {
    Map::new(|k: Seq<char>| has_key(s, k), |k: Seq<char>| s[key_index(s, k)])
}

/// The tokens of `ids` whose key was drawn by another connection than
/// `sender`: those that a broadcast from `sender` reaches.
pub open spec fn others_of(ids: Map<Seq<char>, u64>, sender: u64) -> Set<Seq<char>> {
    Set::new(|k: Seq<char>| ids.contains_key(k) && ids[k] != sender)
}

/// `r` names every key of `keys` exactly once and nothing else.
pub open spec fn lists_exactly(r: Seq<Token>, keys: Set<Seq<char>>) -> bool {
    &&& forall|i: int, j: int|
        #![trigger r[i], r[j]]
        0 <= i < r.len() && 0 <= j < r.len() && i != j ==> r[i]@ != r[j]@
    &&& forall|i: int| 0 <= i < r.len() ==> keys.contains(#[trigger] r[i]@)
    &&& forall|k: Seq<char>| keys.contains(k) ==> exists|i: int| 0 <= i < r.len() && #[trigger] r[i]@ == k
}

proof fn lemma_entry(s: Seq<(SharedToken, ClientInfo)>, j: int)
    requires
        keys_distinct(s),
        0 <= j < s.len(),
    ensures
        entries_to_map(s).contains_key(s[j].0@),
        entries_to_map(s)[s[j].0@] == s[j],
{
    let k = s[j].0@;
    assert(has_key(s, k));
    let i = key_index(s, k);
    assert(s[i].0@ == k);
}

proof fn lemma_update(s: Seq<(SharedToken, ClientInfo)>, i: int, e: (SharedToken, ClientInfo))
    requires
        keys_distinct(s),
        0 <= i < s.len(),
        e.0@ == s[i].0@,
    ensures
        keys_distinct(s.update(i, e)),
        entries_to_map(s.update(i, e)) == entries_to_map(s).insert(e.0@, e),
{
    let t = s.update(i, e);
    assert(keys_distinct(t)) by {
        assert forall|a: int, b: int|
            0 <= a < t.len() && 0 <= b < t.len() && a != b implies #[trigger] t[a].0@ != #[trigger] t[b].0@ by {
            assert(s[a].0@ != s[b].0@);
        }
    }
    let m = entries_to_map(s).insert(e.0@, e);
    assert forall|k: Seq<char>| #[trigger] entries_to_map(t).contains_key(k) == m.contains_key(k) by {
        if has_key(s, k) {
            let j = choose|j: int| 0 <= j < s.len() && #[trigger] s[j].0@ == k;
            assert(t[j].0@ == k);
        }
        if has_key(t, k) {
            let j = choose|j: int| 0 <= j < t.len() && #[trigger] t[j].0@ == k;
            if j != i {
                assert(s[j].0@ == k);
            }
        }
    }
    assert forall|k: Seq<char>| #[trigger] m.contains_key(k) implies entries_to_map(t)[k] == m[k] by {
        if k == e.0@ {
            lemma_entry(t, i);
        } else {
            let j = choose|j: int| 0 <= j < s.len() && #[trigger] s[j].0@ == k;
            lemma_entry(s, j);
            lemma_entry(t, j);
        }
    }
    assert(entries_to_map(t) =~= m);
}

proof fn lemma_push(s: Seq<(SharedToken, ClientInfo)>, e: (SharedToken, ClientInfo))
    requires
        keys_distinct(s),
        !has_key(s, e.0@),
    ensures
        keys_distinct(s.push(e)),
        entries_to_map(s.push(e)) == entries_to_map(s).insert(e.0@, e),
{
    let t = s.push(e);
    assert(keys_distinct(t)) by {
        assert forall|a: int, b: int|
            0 <= a < t.len() && 0 <= b < t.len() && a != b implies #[trigger] t[a].0@ != #[trigger] t[b].0@ by {
            if a < s.len() && b < s.len() {
                assert(s[a].0@ != s[b].0@);
            } else if a < s.len() {
                assert(s[a].0@ != e.0@);
            } else {
                assert(s[b].0@ != e.0@);
            }
        }
    }
    let m = entries_to_map(s).insert(e.0@, e);
    assert forall|k: Seq<char>| #[trigger] entries_to_map(t).contains_key(k) == m.contains_key(k) by {
        if has_key(s, k) {
            let j = choose|j: int| 0 <= j < s.len() && #[trigger] s[j].0@ == k;
            assert(t[j].0@ == k);
        }
        if k == e.0@ {
            assert(t[s.len() as int].0@ == k);
        }
        if has_key(t, k) {
            let j = choose|j: int| 0 <= j < t.len() && #[trigger] t[j].0@ == k;
            if j < s.len() {
                assert(s[j].0@ == k);
            }
        }
    }
    assert forall|k: Seq<char>| #[trigger] m.contains_key(k) implies entries_to_map(t)[k] == m[k] by {
        if k == e.0@ {
            lemma_entry(t, s.len() as int);
        } else {
            let j = choose|j: int| 0 <= j < s.len() && #[trigger] s[j].0@ == k;
            lemma_entry(s, j);
            lemma_entry(t, j);
        }
    }
    assert(entries_to_map(t) =~= m);
}

proof fn lemma_remove(s: Seq<(SharedToken, ClientInfo)>, i: int)
    requires
        keys_distinct(s),
        0 <= i < s.len(),
    ensures
        keys_distinct(s.remove(i)),
        entries_to_map(s.remove(i)) == entries_to_map(s).remove(s[i].0@),
{
    let t = s.remove(i);
    let key = s[i].0@;
    assert forall|a: int| 0 <= a < t.len() implies #[trigger] t[a] == (if a < i { s[a] } else { s[a + 1] }) by {
    }
    assert(keys_distinct(t)) by {
        assert forall|a: int, b: int|
            0 <= a < t.len() && 0 <= b < t.len() && a != b implies #[trigger] t[a].0@ != #[trigger] t[b].0@ by {
            let sa = if a < i { a } else { a + 1 };
            let sb = if b < i { b } else { b + 1 };
            assert(s[sa].0@ != s[sb].0@);
        }
    }
    let m = entries_to_map(s).remove(key);
    assert forall|k: Seq<char>| #[trigger] entries_to_map(t).contains_key(k) == m.contains_key(k) by {
        if has_key(s, k) && k != key {
            let j = choose|j: int| 0 <= j < s.len() && #[trigger] s[j].0@ == k;
            if j < i {
                assert(t[j].0@ == k);
            } else {
                assert(t[j - 1].0@ == k);
            }
        }
        if has_key(t, k) {
            let j = choose|j: int| 0 <= j < t.len() && #[trigger] t[j].0@ == k;
            let sj = if j < i { j } else { j + 1 };
            assert(s[sj].0@ == k);
            assert(s[sj].0@ != s[i].0@);
        }
    }
    assert forall|k: Seq<char>| #[trigger] m.contains_key(k) implies entries_to_map(t)[k] == m[k] by {
        let j = choose|j: int| 0 <= j < s.len() && #[trigger] s[j].0@ == k;
        lemma_entry(s, j);
        if j < i {
            lemma_entry(t, j);
        } else {
            lemma_entry(t, j - 1);
        }
    }
    assert(entries_to_map(t) =~= m);
}

/// The connected clients, each under the token it was given. No token
/// occurs twice; the order of entries carries no meaning.
#[derive(Debug)]
pub struct ClientMap {
    entries: Vec<(SharedToken, ClientInfo)>,
}

impl ClientMap {
    #[verifier::type_invariant]
    spec fn distinct(self) -> bool {
        keys_distinct(self.entries@)
    }
}

impl Clone for ClientMap {
    /// A copy holding the same clients under the same tokens.
    fn clone(&self) -> (r: Self)
        ensures
            r@ == self@,
            r.key_ids() == self.key_ids(),
    {
        proof {
            use_type_invariant(self);
        }
        let mut entries: Vec<(SharedToken, ClientInfo)> = Vec::new();
        let n = self.entries.len();
        for i in 0..n
            invariant
                n == self.entries@.len(),
                entries@ == self.entries@.take(i as int),
        {
            let e = &self.entries[i];
            entries.push((e.0.duplicate(), e.1.duplicate()));
            assert(self.entries@.take(i + 1) == self.entries@.take(i as int).push(self.entries@[i as int]));
        }
        assert(self.entries@.take(n as int) == self.entries@);
        ClientMap { entries }
    }
}

impl View for ClientMap {
    type V = Map<Seq<char>, ClientInfo>;

    closed spec fn view(&self) -> Map<Seq<char>, ClientInfo> {
        entries_to_map(self.entries@).map_values(|e: (SharedToken, ClientInfo)| e.1)
    }
}

impl ClientMap {
    /// For each token, the connection that drew the copy of it kept as key:
    /// the one that first put it in the map.
    pub closed spec fn key_ids(&self) -> Map<Seq<char>, u64> {
        entries_to_map(self.entries@).map_values(|e: (SharedToken, ClientInfo)| e.0.id)
    }

    /// Clients and key connections are known for the same tokens.
    pub proof fn keys_agree(&self)
        ensures
            self.key_ids().dom() == self@.dom(),
    {
        assert(self.key_ids().dom() =~= self@.dom());
    }
}

impl ClientMap {
    /// A map with no client.
    pub fn new() -> (m: Self)
        ensures
            m@ == Map::<Seq<char>, ClientInfo>::empty(),
            m.key_ids() == Map::<Seq<char>, u64>::empty(),
    {
        let m = ClientMap { entries: Vec::new() };
        assert(m@ =~= Map::<Seq<char>, ClientInfo>::empty());
        assert(m.key_ids() =~= Map::<Seq<char>, u64>::empty());
        m
    }

    /// Moves the entries out, leaving the map empty for the while.
    fn take_entries(&mut self) -> (e: Vec<(SharedToken, ClientInfo)>)
        ensures
            e@ == old(self).entries@,
            final(self).entries@ == Seq::<(SharedToken, ClientInfo)>::empty(),
    {
        let mut e: Vec<(SharedToken, ClientInfo)> = Vec::new();
        std::mem::swap(&mut e, &mut self.entries);
        e
    }

    fn find(&self, key: &Token) -> (r: Option<usize>)
        ensures
            match r {
                Some(i) => i < self.entries@.len() && self.entries@[i as int].0@ == key@,
                None => !has_key(self.entries@, key@),
            },
    {
        let n = self.entries.len();
        for i in 0..n
            invariant
                n == self.entries@.len(),
                forall|j: int| 0 <= j < i ==> #[trigger] self.entries@[j].0@ != key@,
        {
            if self.entries[i].0.token.same(key) {
                return Some(i);
            }
        }
        None
    }

    /// The number of clients.
    pub fn len(&self) -> (n: usize)
        ensures
            n == self@.len(),
    {
        proof {
            use_type_invariant(self);
            self.lemma_len();
        }
        self.entries.len()
    }

    proof fn lemma_len(&self)
        requires
            keys_distinct(self.entries@),
        ensures
            self@.dom().finite(),
            self@.len() == self.entries@.len(),
    {
        let s = self.entries@;
        let keys = s.map_values(|e: (SharedToken, ClientInfo)| e.0@);
        assert(keys.no_duplicates()) by {
            assert forall|a: int, b: int| 0 <= a < keys.len() && 0 <= b < keys.len() && a != b implies keys[a] != keys[b] by {
                assert(s[a].0@ != s[b].0@);
            }
        }
        assert(self@.dom() =~= keys.to_set()) by {
            assert forall|k: Seq<char>| #[trigger] self@.dom().contains(k) == keys.to_set().contains(k) by {
                if has_key(s, k) {
                    let j = choose|j: int| 0 <= j < s.len() && #[trigger] s[j].0@ == k;
                    assert(keys[j] == k);
                }
                if keys.contains(k) {
                    let j = choose|j: int| 0 <= j < keys.len() && keys[j] == k;
                    assert(s[j].0@ == k);
                }
            }
        }
        keys.unique_seq_to_set();
    }

    /// Whether a client is connected under `token`.
    pub fn contains_key(&self, token: &Token) -> (b: bool)
        ensures
            b == self@.contains_key(token@),
    {
        self.find(token).is_some()
    }

    /// The client connected under `token`, if any.
    pub fn get(&self, token: &Token) -> (r: Option<&ClientInfo>)
        ensures
            match r {
                Some(c) => self@.contains_key(token@) && *c == self@[token@],
                None => !self@.contains_key(token@),
            },
    {
        proof {
            use_type_invariant(self);
        }
        match self.find(token) {
            Some(i) => {
                proof {
                    lemma_entry(self.entries@, i as int);
                }
                Some(&self.entries[i].1)
            },
            None => None,
        }
    }

    /// Puts `client` under `token`, replacing and handing back the client
    /// that was there. A token already present keeps the key it had, so it
    /// stays attributed to the connection that first put it in.
    pub fn insert(&mut self, token: SharedToken, client: ClientInfo) -> (prev: Option<ClientInfo>)
        ensures
            final(self)@ == old(self)@.insert(token@, client),
            final(self).key_ids() == if old(self)@.contains_key(token@) {
                old(self).key_ids()
            } else {
                old(self).key_ids().insert(token@, token.id)
            },
            prev is None <==> !old(self)@.contains_key(token@),
            prev matches Some(c) ==> c == old(self)@[token@],
    {
        proof {
            use_type_invariant(&*self);
        }
        let ghost s = self.entries@;
        match self.find(&token.token) {
            Some(i) => {
                let prev = self.entries[i].1.duplicate();
                let key = self.entries[i].0.duplicate();
                proof {
                    lemma_entry(s, i as int);
                    lemma_update(s, i as int, (key, client));
                }
                let mut e = self.take_entries();
                e.set(i, (key, client));
                self.entries = e;
                proof {
                    assert(self@ =~= old(self)@.insert(token@, client));
                    assert(self.key_ids() =~= old(self).key_ids());
                }
                Some(prev)
            },
            None => {
                proof {
                    lemma_push(s, (token, client));
                }
                let mut e = self.take_entries();
                e.push((token, client));
                self.entries = e;
                proof {
                    assert(self@ =~= old(self)@.insert(token@, client));
                    assert(self.key_ids() =~= old(self).key_ids().insert(token@, token.id));
                }
                None
            },
        }
    }

    /// Takes out the client under `token`, if there is one.
    pub fn remove(&mut self, token: &Token)
        ensures
            final(self)@ == old(self)@.remove(token@),
            final(self).key_ids() == old(self).key_ids().remove(token@),
    {
        proof {
            use_type_invariant(&*self);
        }
        let ghost s = self.entries@;
        match self.find(token) {
            Some(i) => {
                proof {
                    lemma_remove(s, i as int);
                }
                let mut e = self.take_entries();
                e.remove(i);
                self.entries = e;
                proof {
                    assert(self@ =~= old(self)@.remove(token@));
                    assert(self.key_ids() =~= old(self).key_ids().remove(token@));
                }
            },
            None => {
                assert(self@ =~= old(self)@.remove(token@));
                assert(self.key_ids() =~= old(self).key_ids().remove(token@));
            },
        }
    }

    /// Records that the client under `token` last had a message accepted at
    /// `now`.
    pub fn set_last_sent(&mut self, token: &Token, now: u64)
        requires
            old(self)@.contains_key(token@),
        ensures
            final(self)@ == old(self)@.insert(
                token@,
                ClientInfo { last_sent: now, ..old(self)@[token@] },
            ),
            final(self).key_ids() == old(self).key_ids(),
    {
        proof {
            use_type_invariant(&*self);
        }
        let ghost s = self.entries@;
        match self.find(token) {
            Some(i) => {
                let t = self.entries[i].0.duplicate();
                let c = &self.entries[i].1;
                let updated = ClientInfo { addr: c.addr.clone(), role: c.role, last_sent: now };
                proof {
                    lemma_entry(s, i as int);
                    lemma_update(s, i as int, (t, updated));
                }
                let mut e = self.take_entries();
                e.set(i, (t, updated));
                self.entries = e;
                proof {
                    assert(self@ =~= old(self)@.insert(
                        token@,
                        ClientInfo { last_sent: now, ..old(self)@[token@] },
                    ));
                    assert(self.key_ids() =~= old(self).key_ids());
                }
            },
            None => {},
        }
    }

    /// The tokens reached by a broadcast from `sender`: every token whose
    /// key was drawn by another connection, each once.
    pub fn tokens_except(&self, sender: &SharedToken) -> (r: Vec<Token>)
        ensures
            lists_exactly(r@, others_of(self.key_ids(), sender.id)),
    {
        proof {
            use_type_invariant(self);
        }
        let ghost s = self.entries@;
        let ghost mut idx: Seq<int> = Seq::empty();
        let mut r: Vec<Token> = Vec::new();
        let n = self.entries.len();
        for i in 0..n
            invariant
                n == s.len(),
                s == self.entries@,
                keys_distinct(s),
                idx.len() == r@.len(),
                forall|a: int|
                    0 <= a < r@.len() ==> 0 <= #[trigger] idx[a] < i && s[idx[a]].0@ == r@[a]@
                        && s[idx[a]].0.id != sender.id,
                forall|a: int, b: int|
                    #![trigger idx[a], idx[b]]
                    0 <= a < r@.len() && 0 <= b < r@.len() && a != b ==> idx[a] != idx[b],
                forall|m: int|
                    0 <= m < i && #[trigger] s[m].0.id != sender.id ==> exists|a: int|
                        0 <= a < r@.len() && #[trigger] idx[a] == m,
        {
            let ghost idx0 = idx;
            if self.entries[i].0.id != sender.id {
                let t = self.entries[i].0.token.duplicate();
                r.push(t);
                proof {
                    idx = idx.push(i as int);
                    assert(idx[r@.len() - 1] == i);
                }
            }
            proof {
                assert forall|m: int| 0 <= m < i + 1 && #[trigger] s[m].0.id != sender.id implies exists|a: int|
                    0 <= a < r@.len() && #[trigger] idx[a] == m by {
                    if m < i {
                        let a = choose|a: int| 0 <= a < idx0.len() && #[trigger] idx0[a] == m;
                        assert(idx[a] == m);
                    } else {
                        assert(idx[r@.len() - 1] == m);
                    }
                }
            }
        }
        proof {
            let keys = others_of(self.key_ids(), sender.id);
            assert forall|a: int, b: int|
                0 <= a < r@.len() && 0 <= b < r@.len() && a != b implies #[trigger] r@[a]@ != #[trigger] r@[b]@ by {
                assert(idx[a] != idx[b]);
                assert(s[idx[a]].0@ != s[idx[b]].0@);
            }
            assert forall|a: int| 0 <= a < r@.len() implies keys.contains(#[trigger] r@[a]@) by {
                lemma_entry(s, idx[a]);
            }
            assert forall|k: Seq<char>| keys.contains(k) implies exists|a: int| 0 <= a < r@.len() && #[trigger] r@[a]@ == k by {
                let m = choose|m: int| 0 <= m < s.len() && #[trigger] s[m].0@ == k;
                lemma_entry(s, m);
                assert(s[m].0.id != sender.id);
                let a = choose|a: int| 0 <= a < r@.len() && #[trigger] idx[a] == m;
                assert(r@[a]@ == k);
            }
        }
        r
    }
}

} // verus!
