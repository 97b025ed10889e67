//! The service registry: one record per named service, keyed by name.
//!
//! The cache is the single authoritative owner of all service records. It is
//! modelled as a map from name to record; the backing vector keeps no
//! duplicate keys.

use vstd::prelude::*;

use crate::config::{Orchestrators, UserProvidedConfig, UserProvidedConfigView};

verus! {

/// One entry per named service: the caller's sparse override, the owning
/// orchestrator, the generated configuration file, the probe path, and the
/// observed runtime state (endpoint and readiness).
#[derive(Debug, Clone)]
pub struct Service {
    pub config: Option<UserProvidedConfig>,
    pub orchestrator: Orchestrators,
    pub filepath: Option<String>,
    pub readiness_probe: String,
    pub url: Option<String>,
    pub up: bool,
}

/// The mathematical value of a `Service` record.
pub struct ServiceView {
    pub config: Option<UserProvidedConfigView>,
    pub orchestrator: Orchestrators,
    pub filepath: Option<Seq<char>>,
    pub readiness_probe: Seq<char>,
    pub url: Option<Seq<char>>,
    pub up: bool,
}

impl View for Service {
    type V = ServiceView;

    open spec fn view(&self) -> ServiceView {
        ServiceView {
            config: match self.config {
                Some(c) => Some(c@),
                None => None,
            },
            orchestrator: self.orchestrator,
            filepath: self.filepath.deep_view(),
            readiness_probe: self.readiness_probe@,
            url: self.url.deep_view(),
            up: self.up,
        }
    }
}

impl ServiceView {
    /// A record that claims to be up always has an endpoint.
    pub open spec fn wf(self) -> bool {
        self.up ==> self.url is Some
    }

    /// This record with another endpoint.
    pub open spec fn with_url(self, url: Option<Seq<char>>) -> ServiceView {
        ServiceView { url, ..self }
    }

    /// This record with another readiness flag.
    pub open spec fn with_up(self, up: bool) -> ServiceView {
        ServiceView { up, ..self }
    }

    /// This record fully stopped: no endpoint, not up.
    pub open spec fn stopped(self) -> ServiceView {
        ServiceView { url: None, up: false, ..self }
    }
}

/// The pairs a cache holds, as mathematical values.
pub type KvSeq = Seq<(Seq<char>, ServiceView)>;

/// No two pairs share a key.
pub open spec fn kv_keys_unique(s: KvSeq) -> bool {
    forall|i: int, j: int| 0 <= i < j < s.len() ==> s[i].0 != s[j].0
}

/// The map that a key-value sequence denotes; later pairs win.
pub open spec fn kv_to_map(s: KvSeq) -> Map<Seq<char>, ServiceView>
    decreases s.len(),
{
    if s.len() == 0 {
        Map::empty()
    } else {
        kv_to_map(s.drop_last()).insert(s.last().0, s.last().1)
    }
}

/// A key is in the map exactly when some pair carries it.
pub proof fn lemma_kv_to_map_dom(s: KvSeq, k: Seq<char>)
    ensures
        kv_to_map(s).contains_key(k) <==> exists|i: int| 0 <= i < s.len() && s[i].0 == k,
    decreases s.len(),
{
    if s.len() > 0 {
        lemma_kv_to_map_dom(s.drop_last(), k);
        if s.last().0 == k {
            assert(s[s.len() - 1].0 == k);
        } else if kv_to_map(s).contains_key(k) {
            let i = choose|i: int| 0 <= i < s.drop_last().len() && s.drop_last()[i].0 == k;
            assert(s[i].0 == k);
        } else if exists|i: int| 0 <= i < s.len() && s[i].0 == k {
            let i = choose|i: int| 0 <= i < s.len() && s[i].0 == k;
            assert(s.drop_last()[i].0 == k);
        }
    }
}

/// With unique keys, the map sends each pair's key to that pair's value.
pub proof fn lemma_kv_to_map_index(s: KvSeq, i: int)
    requires
        kv_keys_unique(s),
        0 <= i < s.len(),
    ensures
        kv_to_map(s).contains_key(s[i].0),
        kv_to_map(s)[s[i].0] == s[i].1,
    decreases s.len(),
{
    if i == s.len() - 1 {
    } else {
        assert(kv_keys_unique(s.drop_last())) by {
            assert(forall|x: int, y: int|
                0 <= x < y < s.drop_last().len() ==> s.drop_last()[x].0 != s.drop_last()[y].0);
        }
        assert(s.drop_last()[i] == s[i]);
        lemma_kv_to_map_index(s.drop_last(), i);
        assert(s[i].0 != s.last().0);
    }
}

/// Removing the pair at `i` removes exactly its key from the map.
pub proof fn lemma_kv_to_map_remove(s: KvSeq, i: int)
    requires
        kv_keys_unique(s),
        0 <= i < s.len(),
    ensures
        kv_to_map(s.remove(i)) =~= kv_to_map(s).remove(s[i].0),
    decreases s.len(),
{
    if i == s.len() - 1 {
        assert(s.remove(i) =~= s.drop_last());
        lemma_kv_to_map_dom(s.drop_last(), s[i].0);
        assert(!kv_to_map(s.drop_last()).contains_key(s[i].0)) by {
            if exists|j: int| 0 <= j < s.drop_last().len() && s.drop_last()[j].0 == s[i].0 {
                let j = choose|j: int|
                    0 <= j < s.drop_last().len() && s.drop_last()[j].0 == s[i].0;
                assert(s[j].0 == s[i].0);
            }
        }
    } else {
        assert(kv_keys_unique(s.drop_last())) by {
            assert(forall|x: int, y: int|
                0 <= x < y < s.drop_last().len() ==> s.drop_last()[x].0 != s.drop_last()[y].0);
        }
        assert(s.drop_last()[i] == s[i]);
        lemma_kv_to_map_remove(s.drop_last(), i);
        assert(s.remove(i).drop_last() =~= s.drop_last().remove(i));
        assert(s.remove(i).last() == s.last());
        assert(s.last().0 != s[i].0);
    }
}

/// Replacing the value of the pair at `i` updates exactly its key.
pub proof fn lemma_kv_to_map_update(s: KvSeq, i: int, v: ServiceView)
    requires
        kv_keys_unique(s),
        0 <= i < s.len(),
    ensures
        kv_to_map(s.update(i, (s[i].0, v))) =~= kv_to_map(s).insert(s[i].0, v),
    decreases s.len(),
{
    let t = s.update(i, (s[i].0, v));
    if i == s.len() - 1 {
        assert(t.drop_last() =~= s.drop_last());
    } else {
        assert(kv_keys_unique(s.drop_last())) by {
            assert(forall|x: int, y: int|
                0 <= x < y < s.drop_last().len() ==> s.drop_last()[x].0 != s.drop_last()[y].0);
        }
        assert(s.drop_last()[i] == s[i]);
        lemma_kv_to_map_update(s.drop_last(), i, v);
        assert(t.drop_last() =~= s.drop_last().update(i, (s[i].0, v)));
        assert(t.last() == s.last());
        assert(s.last().0 != s[i].0);
    }
}

/// With unique keys, the map has one entry per pair.
pub proof fn lemma_kv_to_map_len(s: KvSeq)
    requires
        kv_keys_unique(s),
    ensures
        kv_to_map(s).dom().finite(),
        kv_to_map(s).dom().len() == s.len(),
    decreases s.len(),
{
    if s.len() > 0 {
        assert(kv_keys_unique(s.drop_last())) by {
            assert(forall|x: int, y: int|
                0 <= x < y < s.drop_last().len() ==> s.drop_last()[x].0 != s.drop_last()[y].0);
        }
        lemma_kv_to_map_len(s.drop_last());
        lemma_kv_to_map_dom(s.drop_last(), s.last().0);
        assert(!kv_to_map(s.drop_last()).contains_key(s.last().0)) by {
            if exists|j: int| 0 <= j < s.drop_last().len() && s.drop_last()[j].0 == s.last().0 {
                let j = choose|j: int|
                    0 <= j < s.drop_last().len() && s.drop_last()[j].0 == s.last().0;
                assert(s[j].0 == s[s.len() - 1].0);
            }
        }
        assert(kv_to_map(s).dom() =~= kv_to_map(s.drop_last()).dom().insert(s.last().0));
    } else {
        assert(kv_to_map(s).dom() =~= Set::<Seq<char>>::empty());
    }
}

/// The shared registry of all known services, keyed by unique name.
#[derive(Debug, Clone)]
pub struct ServiceCache {
    pub entries: Vec<(String, Service)>,
}

impl View for ServiceCache {
    type V = Map<Seq<char>, ServiceView>;

    open spec fn view(&self) -> Map<Seq<char>, ServiceView> {
        kv_to_map(self.kv())
    }
}

impl ServiceCache {
    /// The backing pairs, as mathematical values, in insertion order.
    pub open spec fn kv(&self) -> KvSeq {
        self.entries@.map(|i: int, e: (String, Service)| (e.0@, e.1@))
    }

    /// Names are unique and every record that claims to be up has an
    /// endpoint.
    pub open spec fn wf(&self) -> bool {
        &&& kv_keys_unique(self.kv())
        &&& forall|i: int| 0 <= i < self.kv().len() ==> (#[trigger] self.kv()[i].1).wf()
    }

    /// Every record of a well-formed cache satisfies the record invariant.
    pub proof fn lemma_wf_records(&self, name: Seq<char>)
        requires
            self.wf(),
            self@.contains_key(name),
        ensures
            self@[name].wf(),
    {
        lemma_kv_to_map_dom(self.kv(), name);
        let i = choose|i: int| 0 <= i < self.kv().len() && self.kv()[i].0 == name;
        lemma_kv_to_map_index(self.kv(), i);
    }

    /// An empty registry.
    pub fn new() -> (r: Self)
        ensures
            r@ == Map::<Seq<char>, ServiceView>::empty(),
            r.wf(),
            r.kv() =~= Seq::<(Seq<char>, ServiceView)>::empty(),
    {
        let r = ServiceCache { entries: Vec::new() };
        proof {
            assert(r.kv() =~= Seq::<(Seq<char>, ServiceView)>::empty());
        }
        r
    }

    /// How many services are registered.
    pub fn len(&self) -> (r: usize)
        requires
            self.wf(),
        ensures
            r == self@.dom().len(),
            r == self.kv().len(),
    {
        proof {
            lemma_kv_to_map_len(self.kv());
        }
        self.entries.len()
    }

    /// The position of a name in the backing vector.
    fn position(&self, name: &String) -> (r: Option<usize>)
        ensures
            match r {
                Some(i) => i < self.kv().len() && self.kv()[i as int].0 == name@,
                None => forall|i: int| 0 <= i < self.kv().len() ==> self.kv()[i].0 != name@,
            },
    {
        let n = self.entries.len();
        for i in 0..n
            invariant
                n == self.kv().len(),
                forall|j: int| 0 <= j < i ==> self.kv()[j].0 != name@,
        {
            if self.entries[i].0 == *name {
                return Some(i);
            }
        }
        None
    }

    /// Whether a service of this name is registered.
    pub fn contains(&self, name: &String) -> (r: bool)
        ensures
            r == self@.contains_key(name@),
    {
        proof {
            lemma_kv_to_map_dom(self.kv(), name@);
        }
        self.position(name).is_some()
    }

    /// The record of this name, when one is registered.
    pub fn get(&self, name: &String) -> (r: Option<&Service>)
        requires
            self.wf(),
        ensures
            match r {
                Some(s) => self@.contains_key(name@) && s@ == self@[name@],
                None => !self@.contains_key(name@),
            },
    {
        proof {
            lemma_kv_to_map_dom(self.kv(), name@);
        }
        match self.position(name) {
            Some(i) => {
                proof {
                    lemma_kv_to_map_index(self.kv(), i as int);
                }
                Some(&self.entries[i].1)
            },
            None => None,
        }
    }

    /// Registers or overwrites the record of this name.
    pub fn insert(&mut self, name: String, service: Service)
        requires
            old(self).wf(),
            service@.wf(),
        ensures
            final(self).wf(),
            final(self)@ == old(self)@.insert(name@, service@),
    {
        let ghost old_kv = self.kv();
        match self.position(&name) {
            Some(i) => {
                proof {
                    lemma_kv_to_map_update(old_kv, i as int, service@);
                }
                let mut pair = self.entries.remove(i);
                pair.1 = service;
                self.entries.insert(i, pair);
                proof {
                    assert(self.kv() =~= old_kv.update(i as int, (name@, service@)));
                    assert(final(self)@ =~= old(self)@.insert(name@, service@));
                }
            },
            None => {
                self.entries.push((name, service));
                proof {
                    assert(self.kv() =~= old_kv.push((name@, service@)));
                    assert(self.kv().drop_last() =~= old_kv);
                    assert(final(self)@ =~= old(self)@.insert(name@, service@));
                }
            },
        }
    }

    /// Drops the record of this name; returns whether one was registered.
    pub fn remove(&mut self, name: &String) -> (r: bool)
        requires
            old(self).wf(),
        ensures
            final(self).wf(),
            r == old(self)@.contains_key(name@),
            final(self)@ == old(self)@.remove(name@),
    {
        let ghost old_kv = self.kv();
        proof {
            lemma_kv_to_map_dom(old_kv, name@);
        }
        match self.position(name) {
            Some(i) => {
                proof {
                    lemma_kv_to_map_remove(old_kv, i as int);
                }
                self.entries.remove(i);
                proof {
                    assert(self.kv() =~= old_kv.remove(i as int));
                    assert(final(self)@ =~= old(self)@.remove(name@));
                }
                true
            },
            None => {
                proof {
                    assert(final(self)@ =~= old(self)@.remove(name@));
                }
                false
            },
        }
    }

    /// Stores an endpoint on the record of this name; returns whether the
    /// record exists.
    pub fn set_endpoint(&mut self, name: &String, url: String) -> (r: bool)
        requires
            old(self).wf(),
        ensures
            final(self).wf(),
            r == old(self)@.contains_key(name@),
            r ==> final(self)@ == old(self)@.insert(
                name@,
                old(self)@[name@].with_url(Some(url@)),
            ),
            !r ==> final(self)@ == old(self)@,
    {
        let ghost old_kv = self.kv();
        proof {
            lemma_kv_to_map_dom(old_kv, name@);
        }
        match self.position(name) {
            Some(i) => {
                proof {
                    lemma_kv_to_map_index(old_kv, i as int);
                    lemma_kv_to_map_update(old_kv, i as int, old_kv[i as int].1.with_url(
                        Some(url@),
                    ));
                }
                let mut pair = self.entries.remove(i);
                pair.1.url = Some(url);
                self.entries.insert(i, pair);
                proof {
                    assert(self.kv() =~= old_kv.update(
                        i as int,
                        (name@, old_kv[i as int].1.with_url(Some(url@))),
                    ));
                }
                true
            },
            None => false,
        }
    }

    /// Marks the record of this name as up, but only when it still has an
    /// endpoint: a record altered by a concurrent teardown is left alone.
    /// Returns whether the flag was set.
    pub fn mark_up(&mut self, name: &String) -> (r: bool)
        requires
            old(self).wf(),
        ensures
            final(self).wf(),
            r == (old(self)@.contains_key(name@) && old(self)@[name@].url is Some),
            r ==> final(self)@ == old(self)@.insert(name@, old(self)@[name@].with_up(true)),
            !r ==> final(self)@ == old(self)@,
    {
        let ghost old_kv = self.kv();
        proof {
            lemma_kv_to_map_dom(old_kv, name@);
        }
        match self.position(name) {
            Some(i) => {
                proof {
                    lemma_kv_to_map_index(old_kv, i as int);
                }
                if self.entries[i].1.url.is_some() {
                    proof {
                        lemma_kv_to_map_update(old_kv, i as int, old_kv[i as int].1.with_up(
                            true,
                        ));
                    }
                    let mut pair = self.entries.remove(i);
                    pair.1.up = true;
                    self.entries.insert(i, pair);
                    proof {
                        assert(self.kv() =~= old_kv.update(
                            i as int,
                            (name@, old_kv[i as int].1.with_up(true)),
                        ));
                    }
                    true
                } else {
                    false
                }
            },
            None => false,
        }
    }

    /// Clears the readiness flag on the record of this name; returns whether
    /// the record exists.
    pub fn mark_not_up(&mut self, name: &String) -> (r: bool)
        requires
            old(self).wf(),
        ensures
            final(self).wf(),
            r == old(self)@.contains_key(name@),
            r ==> final(self)@ == old(self)@.insert(name@, old(self)@[name@].with_up(false)),
            !r ==> final(self)@ == old(self)@,
    {
        let ghost old_kv = self.kv();
        proof {
            lemma_kv_to_map_dom(old_kv, name@);
        }
        match self.position(name) {
            Some(i) => {
                proof {
                    lemma_kv_to_map_index(old_kv, i as int);
                    lemma_kv_to_map_update(old_kv, i as int, old_kv[i as int].1.with_up(false));
                }
                let mut pair = self.entries.remove(i);
                pair.1.up = false;
                self.entries.insert(i, pair);
                proof {
                    assert(self.kv() =~= old_kv.update(
                        i as int,
                        (name@, old_kv[i as int].1.with_up(false)),
                    ));
                }
                true
            },
            None => false,
        }
    }

    /// Clears both runtime fields of the record of this name; returns
    /// whether the record exists.
    pub fn clear_endpoint(&mut self, name: &String) -> (r: bool)
        requires
            old(self).wf(),
        ensures
            final(self).wf(),
            r == old(self)@.contains_key(name@),
            r ==> final(self)@ == old(self)@.insert(name@, old(self)@[name@].stopped()),
            !r ==> final(self)@ == old(self)@,
    {
        let ghost old_kv = self.kv();
        proof {
            lemma_kv_to_map_dom(old_kv, name@);
        }
        match self.position(name) {
            Some(i) => {
                proof {
                    lemma_kv_to_map_index(old_kv, i as int);
                    lemma_kv_to_map_update(old_kv, i as int, old_kv[i as int].1.stopped());
                }
                let mut pair = self.entries.remove(i);
                pair.1.url = None;
                pair.1.up = false;
                self.entries.insert(i, pair);
                proof {
                    assert(self.kv() =~= old_kv.update(
                        i as int,
                        (name@, old_kv[i as int].1.stopped()),
                    ));
                }
                true
            },
            None => false,
        }
    }

    /// Merges another registry into this one; on a shared name the other
    /// registry's record wins.
    pub fn extend(&mut self, other: ServiceCache)
        requires
            old(self).wf(),
            other.wf(),
        ensures
            final(self).wf(),
            final(self)@ == old(self)@.union_prefer_right(other@),
    {
        let ghost other_kv = other.kv();
        let mut rest = other;
        let ghost done: int = 0;
        proof {
            assert(rest.kv() =~= other_kv.skip(0));
            assert(old(self)@.union_prefer_right(kv_to_map(other_kv.take(0))) =~= old(self)@)
                by {
                assert(kv_to_map(other_kv.take(0)).dom() =~= Set::<Seq<char>>::empty());
            }
        }
        while rest.entries.len() > 0
            invariant
                0 <= done <= other_kv.len(),
                rest.kv() =~= other_kv.skip(done),
                kv_keys_unique(other_kv),
                forall|i: int| 0 <= i < other_kv.len() ==> (#[trigger] other_kv[i].1).wf(),
                self.wf(),
                self@ == old(self)@.union_prefer_right(kv_to_map(other_kv.take(done))),
            decreases rest.entries@.len(),
        {
            let ghost head_kv = rest.kv();
            proof {
                assert(head_kv.len() == rest.entries@.len());
                assert(done < other_kv.len());
                assert(head_kv[0] == other_kv.skip(done)[0]);
                assert(other_kv.skip(done)[0] == other_kv[done]);
            }
            let pair = rest.entries.remove(0);
            proof {
                assert(pair.0@ == other_kv[done].0 && pair.1@ == other_kv[done].1);
                assert(other_kv[done].1.wf());
            }
            self.insert(pair.0, pair.1);
            proof {
                let ghost prev = done;
                done = done + 1;
                assert(rest.kv() =~= other_kv.skip(done)) by {
                    assert forall|j: int| 0 <= j < rest.kv().len() implies rest.kv()[j]
                        == other_kv.skip(done)[j] by {
                        assert(rest.kv()[j] == head_kv[j + 1]);
                        assert(head_kv[j + 1] == other_kv.skip(prev)[j + 1]);
                        assert(other_kv.skip(prev)[j + 1] == other_kv[prev + 1 + j]);
                        assert(other_kv.skip(done)[j] == other_kv[done + j]);
                    }
                }
                assert(other_kv.take(done).drop_last() =~= other_kv.take(prev));
                assert(other_kv.take(done).last() == other_kv[prev]);
                assert(kv_to_map(other_kv.take(done)) == kv_to_map(other_kv.take(prev)).insert(
                    other_kv[prev].0,
                    other_kv[prev].1,
                ));
                assert(self@ =~= old(self)@.union_prefer_right(kv_to_map(other_kv.take(done))));
            }
        }
        proof {
            assert(other_kv.take(done) =~= other_kv);
        }
    }

    /// The registered names, in insertion order and without duplicates.
    pub fn keys(&self) -> (r: Vec<String>)
        requires
            self.wf(),
        ensures
            r@.len() == self.kv().len(),
            forall|i: int| 0 <= i < r@.len() ==> r@[i]@ == self.kv()[i].0,
            forall|i: int| 0 <= i < r@.len() ==> self@.contains_key(#[trigger] r@[i]@),
            forall|k: Seq<char>| self@.contains_key(k) ==> exists|i: int|
                0 <= i < r@.len() && r@[i]@ == k,
    {
        let n = self.entries.len();
        let mut r: Vec<String> = Vec::new();
        for i in 0..n
            invariant
                n == self.kv().len(),
                n == self.entries.len(),
                r@.len() == i,
                forall|j: int| 0 <= j < i ==> r@[j]@ == self.kv()[j].0,
        {
            r.push(self.entries[i].0.clone());
        }
        proof {
            assert forall|i: int| 0 <= i < r@.len() implies self@.contains_key(
                #[trigger] r@[i]@,
            ) by {
                lemma_kv_to_map_dom(self.kv(), r@[i]@);
            }
            assert forall|k: Seq<char>| self@.contains_key(k) implies exists|i: int|
                0 <= i < r@.len() && r@[i]@ == k by {
                lemma_kv_to_map_dom(self.kv(), k);
                let i = choose|i: int| 0 <= i < self.kv().len() && self.kv()[i].0 == k;
                assert(r@[i]@ == k);
            }
        }
        r
    }
}

} // verus!
