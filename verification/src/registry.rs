//! The registry's data model, the abstract transition functions that say what
//! each operation must do, and the concrete `Pallet` that implements them.

use vstd::prelude::*;

verus! {

/// Why an operation was rejected. Existence is always checked before
/// ownership, so probing an absent title reports `NoSuchNovel`, never
/// `NotNovelOwner`.
#[derive(Debug, Clone, Copy, PartialEq, Eq)]
pub enum Error {
    /// A novel with this title has already been created.
    NovelAlreadyCreated,
    /// No novel with this title exists.
    NoSuchNovel,
    /// The novel is claimed by another account.
    NotNovelOwner,
}

/// A notification produced by each accepted operation. Events are appended
/// to the registry's log in call order; a rejected operation appends nothing.
#[derive(Debug, Clone, PartialEq, Eq)]
pub enum Event {
    /// A novel has been created: the creating account and the title.
    NovelCreated(u64, Vec<u8>),
    /// A novel has been read by its owner.
    ReadNovel(u64),
    /// A novel has been updated by its owner: the account and the title.
    NovelUpdated(u64, Vec<u8>),
    /// A novel has been removed by its owner: the account and the title.
    NovelRemoved(u64, Vec<u8>),
}

/// The registry seen abstractly: each claimed title maps to the pair of the
/// owning account and the sequence number recorded for it.
pub type NovelMap = Map<Seq<u8>, (u64, u64)>;

/// Whether `create` accepts: it fails exactly when the title is present.
pub open spec fn create_outcome(m: NovelMap, title: Seq<u8>) -> Result<(), Error> {
    if m.dom().contains(title) {
        Err(Error::NovelAlreadyCreated)
    } else {
        Ok(())
    }
}

/// The registry after `create`: unchanged on failure, otherwise the title is
/// bound to the caller and the sequence number supplied at call time.
pub open spec fn create_effect(m: NovelMap, caller: u64, title: Seq<u8>, sequence: u64) -> NovelMap {
    if m.dom().contains(title) {
        m
    } else {
        m.insert(title, (caller, sequence))
    }
}

/// The shared guard of `read`, `update` and `remove`: the title must be
/// present and the caller must be its recorded owner, checked in that order.
pub open spec fn gate_outcome(m: NovelMap, caller: u64, title: Seq<u8>) -> Result<(), Error> {
    if !m.dom().contains(title) {
        Err(Error::NoSuchNovel)
    } else if m[title].0 != caller {
        Err(Error::NotNovelOwner)
    } else {
        Ok(())
    }
}

/// The registry after `update`: unchanged on failure, otherwise the entry is
/// refreshed with the caller (the prior owner) and the new sequence number.
pub open spec fn update_effect(m: NovelMap, caller: u64, title: Seq<u8>, sequence: u64) -> NovelMap {
    if gate_outcome(m, caller, title) is Ok {
        m.insert(title, (caller, sequence))
    } else {
        m
    }
}

/// The registry after `remove`: unchanged on failure, otherwise the title is
/// absent.
pub open spec fn remove_effect(m: NovelMap, caller: u64, title: Seq<u8>) -> NovelMap {
    if gate_outcome(m, caller, title) is Ok {
        m.remove(title)
    } else {
        m
    }
}

/// One stored claim: the title together with the owning account and the
/// sequence number recorded at creation or last update.
struct Novel {
    title: Vec<u8>,
    owner: u64,
    sequence: u64,
}

/// No two stored claims share a title.
spec fn titles_distinct(s: Seq<Novel>) -> bool {
    forall|i: int, j: int| 0 <= i < j < s.len() ==> s[i].title@ != s[j].title@
}

/// Whether some stored claim carries the title `t`.
spec fn has_title(s: Seq<Novel>, t: Seq<u8>) -> bool {
    exists|i: int| 0 <= i < s.len() && s[i].title@ == t
}

/// The position of the claim carrying `t`; meaningful only when `has_title`
/// holds, and unique when titles are distinct.
spec fn title_index(s: Seq<Novel>, t: Seq<u8>) -> int {
    choose|i: int| 0 <= i < s.len() && s[i].title@ == t
}

/// The stored claims read as a map from title to (owner, sequence).
spec fn map_of(s: Seq<Novel>) -> NovelMap {
    Map::new(
        |t: Seq<u8>| has_title(s, t),
        |t: Seq<u8>| (s[title_index(s, t)].owner, s[title_index(s, t)].sequence),
    )
}

/// With distinct titles, the claim at position `i` is the one that
/// `title_index` finds for its title.
proof fn lemma_title_index(s: Seq<Novel>, i: int)
    requires
        titles_distinct(s),
        0 <= i < s.len(),
    ensures
        has_title(s, s[i].title@),
        title_index(s, s[i].title@) == i,
{
    let t = s[i].title@;
    assert(has_title(s, t));
    let j = title_index(s, t);
    assert(0 <= j < s.len() && s[j].title@ == t);
    if i < j {
        assert(s[i].title@ != s[j].title@);
    } else if j < i {
        assert(s[j].title@ != s[i].title@);
    }
}

/// With distinct titles, the map view at the title of position `i` is that
/// claim's owner and sequence.
proof fn lemma_map_of_at(s: Seq<Novel>, i: int)
    requires
        titles_distinct(s),
        0 <= i < s.len(),
    ensures
        map_of(s).dom().contains(s[i].title@),
        map_of(s)[s[i].title@] == (s[i].owner, s[i].sequence),
{
    lemma_title_index(s, i);
}

/// Appending a claim with a fresh title keeps titles distinct and inserts
/// exactly that binding into the map view.
proof fn lemma_map_of_push(s: Seq<Novel>, n: Novel)
    requires
        titles_distinct(s),
        !has_title(s, n.title@),
    ensures
        titles_distinct(s.push(n)),
        map_of(s.push(n)) == map_of(s).insert(n.title@, (n.owner, n.sequence)),
{
    let s2 = s.push(n);
    assert forall|i: int, j: int| 0 <= i < j < s2.len() implies s2[i].title@ != s2[j].title@ by {
        if j == s.len() {
            assert(s2[i] == s[i]);
            if s2[i].title@ == n.title@ {
                assert(has_title(s, n.title@));
            }
        } else {
            assert(s2[i] == s[i]);
            assert(s2[j] == s[j]);
        }
    }
    let m1 = map_of(s2);
    let m2 = map_of(s).insert(n.title@, (n.owner, n.sequence));
    assert forall|t: Seq<u8>| m1.dom().contains(t) implies m2.dom().contains(t) by {
        let i = choose|i: int| 0 <= i < s2.len() && s2[i].title@ == t;
        if i < s.len() {
            assert(s2[i] == s[i]);
            assert(has_title(s, t));
        }
    }
    assert forall|t: Seq<u8>| m2.dom().contains(t) implies m1.dom().contains(t) by {
        if t == n.title@ {
            assert(s2[s.len() as int].title@ == t);
            assert(has_title(s2, t));
        } else {
            let i = choose|i: int| 0 <= i < s.len() && s[i].title@ == t;
            assert(s2[i] == s[i]);
            assert(has_title(s2, t));
        }
    }
    assert forall|t: Seq<u8>| m1.dom().contains(t) implies m1[t] == m2[t] by {
        if t == n.title@ {
            assert(s2[s.len() as int].title@ == t);
            lemma_title_index(s2, s.len() as int);
        } else {
            let i = choose|i: int| 0 <= i < s.len() && s[i].title@ == t;
            assert(s2[i] == s[i]);
            lemma_title_index(s2, i);
            lemma_title_index(s, i);
        }
    }
    assert(m1 =~= m2);
}

/// Removing the claim at position `i` keeps titles distinct, leaves no claim
/// with that title, and removes exactly that binding from the map view.
proof fn lemma_map_of_remove(s: Seq<Novel>, i: int)
    requires
        titles_distinct(s),
        0 <= i < s.len(),
    ensures
        titles_distinct(s.remove(i)),
        !has_title(s.remove(i), s[i].title@),
        map_of(s.remove(i)) == map_of(s).remove(s[i].title@),
{
    let t = s[i].title@;
    let s2 = s.remove(i);
    s.remove_ensures(i);
    assert forall|p: int, q: int| 0 <= p < q < s2.len() implies s2[p].title@ != s2[q].title@ by {
        let p0 = if p < i { p } else { p + 1 };
        let q0 = if q < i { q } else { q + 1 };
        assert(s2[p] == s[p0]);
        assert(s2[q] == s[q0]);
    }
    assert forall|p: int| 0 <= p < s2.len() implies s2[p].title@ != t by {
        let p0 = if p < i { p } else { p + 1 };
        assert(s2[p] == s[p0]);
        if p0 < i {
            assert(s[p0].title@ != s[i].title@);
        } else {
            assert(s[i].title@ != s[p0].title@);
        }
    }
    let m1 = map_of(s2);
    let m2 = map_of(s).remove(t);
    assert forall|u: Seq<u8>| m1.dom().contains(u) implies m2.dom().contains(u) by {
        let p = choose|p: int| 0 <= p < s2.len() && s2[p].title@ == u;
        let p0 = if p < i { p } else { p + 1 };
        assert(s2[p] == s[p0]);
        assert(has_title(s, u));
    }
    assert forall|u: Seq<u8>| m2.dom().contains(u) implies m1.dom().contains(u) by {
        let p0 = choose|p0: int| 0 <= p0 < s.len() && s[p0].title@ == u;
        if p0 < i {
            assert(s2[p0] == s[p0]);
            assert(has_title(s2, u));
        } else if p0 > i {
            assert(s2[p0 - 1] == s[p0]);
            assert(has_title(s2, u));
        }
    }
    assert forall|u: Seq<u8>| m1.dom().contains(u) implies m1[u] == m2[u] by {
        let p = choose|p: int| 0 <= p < s2.len() && s2[p].title@ == u;
        let p0 = if p < i { p } else { p + 1 };
        assert(s2[p] == s[p0]);
        lemma_title_index(s2, p);
        lemma_title_index(s, p0);
    }
    assert(m1 =~= m2);
}

/// The registry: the claimed novels and the log of emitted events.
pub struct Pallet {
    novels: Vec<Novel>,
    log: Vec<Event>,
}

impl View for Pallet {
    type V = NovelMap;

    /// A `Pallet` is seen abstractly as the map of its claims.
    closed spec fn view(&self) -> NovelMap {
        map_of(self.novels@)
    }
}

impl Pallet {
    /// The registry's internal invariant: stored titles are pairwise
    /// distinct, so each present title has exactly one entry.
    pub closed spec fn wf(self) -> bool {
        titles_distinct(self.novels@)
    }

    /// The events emitted so far, oldest first.
    pub closed spec fn events(self) -> Seq<Event> {
        self.log@
    }

    /// Two byte strings are equal exactly when their contents are.
    fn bytes_equal(a: &Vec<u8>, b: &Vec<u8>) -> (r: bool)
        ensures
            r == (a@ == b@),
    {
        if a.len() != b.len() {
            return false;
        }
        let mut i: usize = 0;
        while i < a.len()
            invariant
                i <= a.len(),
                a.len() == b.len(),
                forall|j: int| 0 <= j < i ==> a@[j] == b@[j],
            decreases a.len() - i,
        {
            if a[i] != b[i] {
                return false;
            }
            i += 1;
        }
        proof {
            assert(a@ =~= b@);
        }
        true
    }

    /// Looks the title up among the stored claims.
    fn find_title(&self, title: &Vec<u8>) -> (r: Option<usize>)
        ensures
            match r {
                Some(i) => i < self.novels@.len() && self.novels@[i as int].title@ == title@,
                None => !has_title(self.novels@, title@),
            },
    {
        let mut i: usize = 0;
        while i < self.novels.len()
            invariant
                i <= self.novels@.len(),
                forall|j: int| 0 <= j < i ==> self.novels@[j].title@ != title@,
            decreases self.novels@.len() - i,
        {
            if Self::bytes_equal(&self.novels[i].title, title) {
                return Some(i);
            }
            i += 1;
        }
        None
    }

    /// A fresh registry: no claims, no events.
    pub fn new() -> (p: Pallet)
        ensures
            p.wf(),
            p@ == NovelMap::empty(),
            p.events() == Seq::<Event>::empty(),
    {
        let p = Pallet { novels: Vec::new(), log: Vec::new() };
        proof {
            assert(p@ =~= NovelMap::empty());
            assert(p.events() =~= Seq::<Event>::empty());
        }
        p
    }

    /// Claims `title` for `caller`, recording `current_sequence`, and emits
    /// `NovelCreated`; fails with `NovelAlreadyCreated` when the title is
    /// already present, leaving the registry and the event log unchanged.
    pub fn create_novel(&mut self, caller: u64, title: Vec<u8>, current_sequence: u64) -> (r: Result<
        (),
        Error,
    >)
        requires
            old(self).wf(),
        ensures
            final(self).wf(),
            r == create_outcome(old(self)@, title@),
            final(self)@ == create_effect(old(self)@, caller, title@, current_sequence),
            final(self).events() == (if r is Ok {
                old(self).events().push(Event::NovelCreated(caller, title))
            } else {
                old(self).events()
            }),
    {
        match self.find_title(&title) {
            Some(i) => {
                proof {
                    lemma_title_index(self.novels@, i as int);
                }
                Err(Error::NovelAlreadyCreated)
            },
            None => {
                let stored_title = title.clone();
                proof {
                    assert(stored_title@ =~= title@);
                }
                let stored = Novel { title: stored_title, owner: caller, sequence: current_sequence };
                proof {
                    lemma_map_of_push(self.novels@, stored);
                }
                self.novels.push(stored);
                self.log.push(Event::NovelCreated(caller, title));
                Ok(())
            },
        }
    }

    /// Confirms that `caller` owns the novel under `title` and emits
    /// `ReadNovel`; the claims are never changed. Fails with `NoSuchNovel`
    /// when the title is absent and with `NotNovelOwner` when the caller is
    /// not the recorded owner, in that order, emitting nothing.
    pub fn read_novel(&mut self, caller: u64, title: Vec<u8>) -> (r: Result<(), Error>)
        requires
            old(self).wf(),
        ensures
            final(self).wf(),
            r == gate_outcome(old(self)@, caller, title@),
            final(self)@ == old(self)@,
            final(self).events() == (if r is Ok {
                old(self).events().push(Event::ReadNovel(caller))
            } else {
                old(self).events()
            }),
    {
        match self.find_title(&title) {
            None => Err(Error::NoSuchNovel),
            Some(i) => {
                proof {
                    lemma_map_of_at(self.novels@, i as int);
                }
                if self.novels[i].owner != caller {
                    Err(Error::NotNovelOwner)
                } else {
                    self.log.push(Event::ReadNovel(caller));
                    Ok(())
                }
            },
        }
    }

    /// Refreshes the novel under `title`: the owner stays `caller` (the
    /// verified prior owner) and the recorded sequence becomes
    /// `current_sequence`; emits `NovelUpdated`. Fails as `read_novel` does,
    /// leaving the registry and the event log unchanged.
    pub fn update_novel(&mut self, caller: u64, title: Vec<u8>, current_sequence: u64) -> (r: Result<
        (),
        Error,
    >)
        requires
            old(self).wf(),
        ensures
            final(self).wf(),
            r == gate_outcome(old(self)@, caller, title@),
            final(self)@ == update_effect(old(self)@, caller, title@, current_sequence),
            final(self).events() == (if r is Ok {
                old(self).events().push(Event::NovelUpdated(caller, title))
            } else {
                old(self).events()
            }),
    {
        match self.find_title(&title) {
            None => Err(Error::NoSuchNovel),
            Some(i) => {
                proof {
                    lemma_map_of_at(self.novels@, i as int);
                }
                if self.novels[i].owner != caller {
                    Err(Error::NotNovelOwner)
                } else {
                    proof {
                        lemma_map_of_remove(self.novels@, i as int);
                    }
                    let removed = self.novels.remove(i);
                    let stored = Novel {
                        title: removed.title,
                        owner: caller,
                        sequence: current_sequence,
                    };
                    proof {
                        lemma_map_of_push(self.novels@, stored);
                    }
                    self.novels.push(stored);
                    self.log.push(Event::NovelUpdated(caller, title));
                    proof {
                        assert(old(self)@.remove(title@).insert(title@, (caller, current_sequence))
                            =~= old(self)@.insert(title@, (caller, current_sequence)));
                    }
                    Ok(())
                }
            },
        }
    }

    /// Removes the novel under `title`, making it absent again, and emits
    /// `NovelRemoved`. Fails as `read_novel` does, leaving the registry and
    /// the event log unchanged.
    pub fn remove_novel(&mut self, caller: u64, title: Vec<u8>) -> (r: Result<(), Error>)
        requires
            old(self).wf(),
        ensures
            final(self).wf(),
            r == gate_outcome(old(self)@, caller, title@),
            final(self)@ == remove_effect(old(self)@, caller, title@),
            final(self).events() == (if r is Ok {
                old(self).events().push(Event::NovelRemoved(caller, title))
            } else {
                old(self).events()
            }),
    {
        match self.find_title(&title) {
            None => Err(Error::NoSuchNovel),
            Some(i) => {
                proof {
                    lemma_map_of_at(self.novels@, i as int);
                }
                if self.novels[i].owner != caller {
                    Err(Error::NotNovelOwner)
                } else {
                    proof {
                        lemma_map_of_remove(self.novels@, i as int);
                    }
                    self.novels.remove(i);
                    self.log.push(Event::NovelRemoved(caller, title));
                    Ok(())
                }
            },
        }
    }

    /// The owner and recorded sequence of the novel under `title`, or `None`
    /// when the title is absent.
    pub fn get_novel(&self, title: &Vec<u8>) -> (r: Option<(u64, u64)>)
        requires
            self.wf(),
        ensures
            r == (if self@.dom().contains(title@) {
                Some(self@[title@])
            } else {
                None::<(u64, u64)>
            }),
    {
        match self.find_title(title) {
            None => None,
            Some(i) => {
                proof {
                    lemma_map_of_at(self.novels@, i as int);
                }
                Some((self.novels[i].owner, self.novels[i].sequence))
            },
        }
    }

    /// The events emitted so far, oldest first.
    pub fn event_log(&self) -> (r: &Vec<Event>)
        ensures
            r@ == self.events(),
    {
        &self.log
    }
}

} // verus!
