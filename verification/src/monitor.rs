//! What the recorder knows of the ROS 2 graph: the publishers announced by
//! liveliness tokens, keyed by their token.
use vstd::prelude::*;
use crate::keyexprs::{graphcache_fields, graphcache_text, law_graphcache_fields_of_text, parse_graphcache, plain_chunk};
use crate::numparse::{parse_u32, parse_u32_spec};
use crate::text::{replace_all, replace_chars, string_of, views};

verus! {

broadcast use vstd::string::group_string_axioms;

/// A publisher announced in the ROS 2 graph.
#[derive(Debug, Clone)]
pub struct KeyExprInfo {
    /// The ROS topic name, with `/` separators (e.g. `/camera/image_raw`).
    pub original_topic: String,
    pub domain: u32,
    pub enclave: String,
    pub namespace: String,
    /// The topic as the token writes it, with `%` for `/`.
    pub topic: String,
    pub rostype: String,
    pub hash: String,
    pub qos: String,
}

/// The abstract value of a [`KeyExprInfo`].
pub struct KeyExprInfoView {
    pub original_topic: Seq<char>,
    pub domain: u32,
    pub enclave: Seq<char>,
    pub namespace: Seq<char>,
    pub topic: Seq<char>,
    pub rostype: Seq<char>,
    pub hash: Seq<char>,
    pub qos: Seq<char>,
}

impl View for KeyExprInfo {
    type V = KeyExprInfoView;

    open spec fn view(&self) -> KeyExprInfoView {
        KeyExprInfoView {
            original_topic: self.original_topic@,
            domain: self.domain,
            enclave: self.enclave@,
            namespace: self.namespace@,
            topic: self.topic@,
            rostype: self.rostype@,
            hash: self.hash@,
            qos: self.qos@,
        }
    }
}

impl KeyExprInfo {
    /// A copy of this publisher's description.
    pub fn duplicate(&self) -> (r: Self)
        ensures
            r@ == self@,
    {
        KeyExprInfo {
            original_topic: self.original_topic.clone(),
            domain: self.domain,
            enclave: self.enclave.clone(),
            namespace: self.namespace.clone(),
            topic: self.topic.clone(),
            rostype: self.rostype.clone(),
            hash: self.hash.clone(),
            qos: self.qos.clone(),
        }
    }
}

/// The publisher that the liveliness token `s` announces: the fields of the
/// token, with the domain read as a `u32` and the topic's `%` turned back
/// into `/`; `None` when `s` is not such a token.
pub open spec fn keyexpr_info_of(s: Seq<char>) -> Option<KeyExprInfoView> {
    match graphcache_fields(s) {
        None => None,
        Some(f) => match parse_u32_spec(f[0]) {
            Err(_) => None,
            Ok(d) => Some(
                KeyExprInfoView {
                    original_topic: replace_all(f[8], seq!['%'], seq!['/']),
                    domain: d as u32,
                    enclave: f[5],
                    namespace: f[6],
                    topic: f[8],
                    rostype: f[9],
                    hash: f[10],
                    qos: f[11],
                },
            ),
        },
    }
}

/// Reads the publisher that the liveliness token `key_expr` announces.
pub fn parse_keyexpr_info(key_expr: &str) -> (r: Option<KeyExprInfo>)
    ensures
        r is Some <==> keyexpr_info_of(key_expr@) is Some,
        r matches Some(info) ==> keyexpr_info_of(key_expr@) == Some(info@),
{
    let fields = match parse_graphcache(key_expr) {
        None => return None,
        Some(f) => f,
    };
    let ghost fv = views(fields@);
    assert(fv.len() == fields.len());
    assert(fv.len() == 12);
    assert(fv[0] == fields@[0]@);
    let domain = match parse_u32(fields[0].as_slice()) {
        Err(_) => return None,
        Ok(d) => d,
    };
    let percent = vec!['%'];
    let slash = vec!['/'];
    let with_slashes = replace_chars(fields[8].as_slice(), percent.as_slice(), slash.as_slice());
    assert(percent@ =~= seq!['%']);
    assert(slash@ =~= seq!['/']);
    assert(fv[5] == fields@[5]@ && fv[6] == fields@[6]@ && fv[8] == fields@[8]@);
    assert(fv[9] == fields@[9]@ && fv[10] == fields@[10]@ && fv[11] == fields@[11]@);
    Some(
        KeyExprInfo {
            original_topic: string_of(with_slashes.as_slice()),
            domain,
            enclave: string_of(fields[5].as_slice()),
            namespace: string_of(fields[6].as_slice()),
            topic: string_of(fields[8].as_slice()),
            rostype: string_of(fields[9].as_slice()),
            hash: string_of(fields[10].as_slice()),
            qos: string_of(fields[11].as_slice()),
        },
    )
}

/// The publishers currently announced, keyed by their liveliness token.
pub struct HashMapKeyExprs {
    entries: Vec<(String, KeyExprInfo)>,
}

/// Whether no key occurs twice.
pub open spec fn keys_unique(e: Seq<(String, KeyExprInfo)>) -> bool {
    forall|i: int, j: int| 0 <= i < e.len() && 0 <= j < e.len() && i != j ==> (#[trigger] e[i]).0@ != (#[trigger] e[j]).0@
}

/// Whether some entry has the key `k`.
pub open spec fn has_key(e: Seq<(String, KeyExprInfo)>, k: Seq<char>) -> bool {
    exists|i: int| 0 <= i < e.len() && (#[trigger] e[i]).0@ == k
}

/// The position of the entry with the key `k`.
pub open spec fn key_index(e: Seq<(String, KeyExprInfo)>, k: Seq<char>) -> int {
    choose|i: int| 0 <= i < e.len() && (#[trigger] e[i]).0@ == k
}

/// The map that the entries `e` describe.
pub open spec fn entries_map(e: Seq<(String, KeyExprInfo)>) -> Map<Seq<char>, KeyExprInfoView> {
    Map::new(|k: Seq<char>| has_key(e, k), |k: Seq<char>| e[key_index(e, k)].1@)
}

proof fn lemma_key_index(e: Seq<(String, KeyExprInfo)>, i: int)
    requires
        keys_unique(e),
        0 <= i < e.len(),
    ensures
        has_key(e, e[i].0@),
        key_index(e, e[i].0@) == i,
        entries_map(e).contains_key(e[i].0@),
        entries_map(e)[e[i].0@] == e[i].1@,
{
    assert(has_key(e, e[i].0@));
    let j = key_index(e, e[i].0@);
    assert(e[j].0@ == e[i].0@);
}

impl View for HashMapKeyExprs {
    type V = Map<Seq<char>, KeyExprInfoView>;

    closed spec fn view(&self) -> Map<Seq<char>, KeyExprInfoView> {
        entries_map(self.entries@)
    }
}

impl HashMapKeyExprs {
    /// No token is stored twice.
    pub closed spec fn well_formed(&self) -> bool {
        keys_unique(self.entries@)
    }

    /// An empty set of publishers.
    pub fn new() -> (r: Self)
        ensures
            r.well_formed(),
            r@ == Map::<Seq<char>, KeyExprInfoView>::empty(),
    {
        let r = HashMapKeyExprs { entries: Vec::new() };
        assert(r@ =~= Map::<Seq<char>, KeyExprInfoView>::empty());
        r
    }

    fn find(&self, key: &String) -> (r: Option<usize>)
        requires
            self.well_formed(),
        ensures
            r is None <==> !self@.contains_key(key@),
            r matches Some(i) ==> i < self.entries.len() && self.entries@[i as int].0@ == key@,
    {
        let mut i: usize = 0;
        while i < self.entries.len()
            invariant
                i <= self.entries.len(),
                forall|j: int| 0 <= j < i ==> (#[trigger] self.entries@[j]).0@ != key@,
            decreases self.entries.len() - i,
        {
            if self.entries[i].0 == *key {
                return Some(i);
            }
            i = i + 1;
        }
        None
    }

    /// Stores `info` under `key`, replacing what was stored there.
    fn put(&mut self, key: String, info: KeyExprInfo)
        requires
            old(self).well_formed(),
        ensures
            final(self).well_formed(),
            final(self)@ == old(self)@.insert(key@, info@),
    {
        let ghost k = key@;
        let ghost v = info@;
        let ghost e0 = self.entries@;
        match self.find(&key) {
            Some(i) => {
                self.entries.set(i, (key, info));
                let ghost e1 = self.entries@;
                assert(keys_unique(e1)) by {
                    assert forall|a: int, b: int| 0 <= a < e1.len() && 0 <= b < e1.len() && a != b implies (#[trigger] e1[a]).0@ != (#[trigger] e1[b]).0@ by {
                        if a != i && b != i {
                            assert(e1[a] == e0[a] && e1[b] == e0[b]);
                        } else if a == i {
                            assert(e1[b] == e0[b]);
                            assert(e0[a].0@ == k);
                        } else {
                            assert(e1[a] == e0[a]);
                            assert(e0[b].0@ == k);
                        }
                    }
                }
                assert(entries_map(e1) =~= entries_map(e0).insert(k, v)) by {
                    lemma_key_index(e1, i as int);
                    assert forall|q: Seq<char>| #![trigger has_key(e1, q)] true implies (has_key(e1, q) <==> has_key(e0, q) || q == k) by {
                        if has_key(e1, q) {
                            let a = choose|a: int| 0 <= a < e1.len() && (#[trigger] e1[a]).0@ == q;
                            if a != i {
                                assert(e0[a] == e1[a]);
                            }
                        }
                        if has_key(e0, q) {
                            let a = choose|a: int| 0 <= a < e0.len() && (#[trigger] e0[a]).0@ == q;
                            if a != i {
                                assert(e0[a] == e1[a]);
                            } else {
                                assert(e1[a].0@ == k);
                            }
                        }
                    }
                    assert forall|q: Seq<char>| has_key(e1, q) && q != k implies #[trigger] entries_map(e1)[q] == entries_map(e0)[q] by {
                        let a = choose|a: int| 0 <= a < e1.len() && (#[trigger] e1[a]).0@ == q;
                        assert(a != i);
                        assert(e0[a] == e1[a]);
                        lemma_key_index(e1, a);
                        lemma_key_index(e0, a);
                    }
                }
            },
            None => {
                self.entries.push((key, info));
                let ghost e1 = self.entries@;
                let ghost n = e0.len() as int;
                assert(keys_unique(e1)) by {
                    assert forall|a: int, b: int| 0 <= a < e1.len() && 0 <= b < e1.len() && a != b implies (#[trigger] e1[a]).0@ != (#[trigger] e1[b]).0@ by {
                        if a < n && b < n {
                            assert(e1[a] == e0[a] && e1[b] == e0[b]);
                        } else if a == n {
                            assert(e1[b] == e0[b]);
                            assert(!has_key(e0, k));
                        } else {
                            assert(e1[a] == e0[a]);
                            assert(!has_key(e0, k));
                        }
                    }
                }
                assert(entries_map(e1) =~= entries_map(e0).insert(k, v)) by {
                    lemma_key_index(e1, n);
                    assert forall|q: Seq<char>| #![trigger has_key(e1, q)] true implies (has_key(e1, q) <==> has_key(e0, q) || q == k) by {
                        if has_key(e1, q) {
                            let a = choose|a: int| 0 <= a < e1.len() && (#[trigger] e1[a]).0@ == q;
                            if a != n {
                                assert(e0[a] == e1[a]);
                            }
                        }
                        if has_key(e0, q) {
                            let a = choose|a: int| 0 <= a < e0.len() && (#[trigger] e0[a]).0@ == q;
                            assert(e0[a] == e1[a]);
                        }
                    }
                    assert forall|q: Seq<char>| has_key(e1, q) && q != k implies #[trigger] entries_map(e1)[q] == entries_map(e0)[q] by {
                        let a = choose|a: int| 0 <= a < e1.len() && (#[trigger] e1[a]).0@ == q;
                        assert(a != n);
                        assert(e0[a] == e1[a]);
                        lemma_key_index(e1, a);
                        lemma_key_index(e0, a);
                    }
                }
            },
        }
    }

    /// Records the publisher that the liveliness token `key_expr` announces.
    /// Returns whether the token was one; a token that is not leaves the
    /// set unchanged.
    pub fn insert(&mut self, key_expr: &str) -> (stored: bool)
        requires
            old(self).well_formed(),
        ensures
            final(self).well_formed(),
            stored == keyexpr_info_of(key_expr@) is Some,
            match keyexpr_info_of(key_expr@) {
                Some(info) => final(self)@ == old(self)@.insert(key_expr@, info),
                None => final(self)@ == old(self)@,
            },
    {
        match parse_keyexpr_info(key_expr) {
            Some(info) => {
                self.put(key_expr.to_string(), info);
                true
            },
            None => false,
        }
    }

    /// Forgets the publisher of the liveliness token `key_expr`.
    pub fn remove(&mut self, key_expr: &str)
        requires
            old(self).well_formed(),
        ensures
            final(self).well_formed(),
            final(self)@ == old(self)@.remove(key_expr@),
    {
        let key = key_expr.to_string();
        let ghost k = key@;
        let ghost e0 = self.entries@;
        match self.find(&key) {
            None => {
                assert(entries_map(e0).remove(k) =~= entries_map(e0));
            },
            Some(i) => {
                self.entries.remove(i);
                let ghost e1 = self.entries@;
                assert(e1 =~= e0.remove(i as int));
                assert forall|a: int| 0 <= a < e1.len() implies #[trigger] e1[a] == e0[if a < i { a } else { a + 1 }] by {}
                assert(keys_unique(e1)) by {
                    assert forall|a: int, b: int| 0 <= a < e1.len() && 0 <= b < e1.len() && a != b implies (#[trigger] e1[a]).0@ != (#[trigger] e1[b]).0@ by {
                        let a0 = if a < i { a } else { a + 1 };
                        let b0 = if b < i { b } else { b + 1 };
                        assert(e1[a] == e0[a0] && e1[b] == e0[b0]);
                    }
                }
                assert(entries_map(e1) =~= entries_map(e0).remove(k)) by {
                    assert forall|q: Seq<char>| #![trigger has_key(e1, q)] true implies (has_key(e1, q) <==> has_key(e0, q) && q != k) by {
                        if has_key(e1, q) {
                            let a = choose|a: int| 0 <= a < e1.len() && (#[trigger] e1[a]).0@ == q;
                            let a0 = if a < i { a } else { a + 1 };
                            assert(e1[a] == e0[a0]);
                            assert(a0 != i);
                        }
                        if has_key(e0, q) && q != k {
                            let a = choose|a: int| 0 <= a < e0.len() && (#[trigger] e0[a]).0@ == q;
                            assert(a != i);
                            let a1 = if a < i { a } else { a - 1 };
                            assert(e1[a1] == e0[a]);
                        }
                    }
                    assert forall|q: Seq<char>| has_key(e1, q) implies #[trigger] entries_map(e1)[q] == entries_map(e0)[q] by {
                        let a = choose|a: int| 0 <= a < e1.len() && (#[trigger] e1[a]).0@ == q;
                        let a0 = if a < i { a } else { a + 1 };
                        assert(e1[a] == e0[a0]);
                        lemma_key_index(e1, a);
                        lemma_key_index(e0, a0);
                    }
                }
            },
        }
    }

    /// The stored tokens with their publishers, each once, in no promised
    /// order.
    pub fn to_vec(&self) -> (r: Vec<(String, KeyExprInfo)>)
        requires
            self.well_formed(),
        ensures
            keys_unique(r@),
            forall|i: int| 0 <= i < r.len() ==> #[trigger] self@.contains_key(r@[i].0@) && self@[r@[i].0@] == r@[i].1@,
            forall|k: Seq<char>| #[trigger] self@.contains_key(k) ==> has_key(r@, k),
    {
        let mut r: Vec<(String, KeyExprInfo)> = Vec::new();
        let mut i: usize = 0;
        while i < self.entries.len()
            invariant
                i <= self.entries.len(),
                self.well_formed(),
                r.len() == i,
                forall|j: int| 0 <= j < i ==> (#[trigger] r@[j]).0@ == self.entries@[j].0@ && r@[j].1@ == self.entries@[j].1@,
            decreases self.entries.len() - i,
        {
            let key = self.entries[i].0.clone();
            let info = self.entries[i].1.duplicate();
            r.push((key, info));
            i = i + 1;
        }
        let ghost e = self.entries@;
        assert forall|a: int| 0 <= a < r.len() implies #[trigger] self@.contains_key(r@[a].0@) && self@[r@[a].0@] == r@[a].1@ by {
            lemma_key_index(e, a);
        }
        assert forall|k: Seq<char>| #[trigger] self@.contains_key(k) implies has_key(r@, k) by {
            let a = choose|a: int| 0 <= a < e.len() && (#[trigger] e[a]).0@ == k;
            assert(r@[a].0@ == k);
        }
        assert(keys_unique(r@)) by {
            assert forall|a: int, b: int| 0 <= a < r.len() && 0 <= b < r.len() && a != b implies (#[trigger] r@[a]).0@ != (#[trigger] r@[b]).0@ by {
                assert(e[a].0@ != e[b].0@);
            }
        }
        r
    }
}


/// A liveliness token written from single-chunk, non-verbatim fields with a
/// numeric domain announces the publisher with those fields.
pub proof fn law_token_announces_its_fields(fields: Seq<Seq<char>>, domain: u32)
    requires
        fields.len() == 12,
        forall|i: int| 0 <= i < fields.len() ==> plain_chunk(#[trigger] fields[i]) && !fields[i].contains('/'),
        parse_u32_spec(fields[0]) == Ok::<int, crate::numparse::IntErrorKind>(domain as int),
    ensures
        keyexpr_info_of(graphcache_text(fields)) == Some(
            KeyExprInfoView {
                original_topic: replace_all(fields[8], seq!['%'], seq!['/']),
                domain,
                enclave: fields[5],
                namespace: fields[6],
                topic: fields[8],
                rostype: fields[9],
                hash: fields[10],
                qos: fields[11],
            },
        ),
{
    law_graphcache_fields_of_text(fields);
}

/// Forgetting a token just recorded leaves what is known of every other
/// token as it was before.
pub proof fn law_insert_then_remove(known: Map<Seq<char>, KeyExprInfoView>, token: Seq<char>, info: KeyExprInfoView)
    ensures
        known.insert(token, info).remove(token) == known.remove(token),
{
    assert(known.insert(token, info).remove(token) =~= known.remove(token));
}

} // verus!
