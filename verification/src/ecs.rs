//! Archetype bookkeeping of the entity-component store: which component
//! set (archetype) each live entity has, and which row of that
//! archetype's structure-of-arrays storage it occupies. Component keys
//! are plain integers standing for component types; the typed columns
//! themselves follow the moves this index decides.
use vstd::prelude::*;
use crate::engine::Entity;

verus! {

broadcast use vstd::std_specs::hash::group_hash_axioms;

/// Where an entity's components live: an archetype and a row in it.
#[derive(Debug, Clone, Copy, PartialEq, Eq, Structural)]
pub struct Location {
    pub archetype: usize,
    pub row: usize,
}

pub open spec fn entity_key(e: Entity) -> u64 {
    (e.index as int * 0x1_0000_0000 + e.generation as int) as u64
}

proof fn lemma_entity_key_injective(a: Entity, b: Entity)
    requires
        entity_key(a) == entity_key(b),
    ensures
        a == b,
{
    let (x1, y1, x2, y2) = (a.index as int, a.generation as int, b.index as int, b.generation as int);
    assert(x1 * 0x1_0000_0000 + y1 < 0x1_0000_0000_0000_0000) by (nonlinear_arith)
        requires
            0 <= x1 < 0x1_0000_0000,
            0 <= y1 < 0x1_0000_0000,
    ;
    assert(x2 * 0x1_0000_0000 + y2 < 0x1_0000_0000_0000_0000) by (nonlinear_arith)
        requires
            0 <= x2 < 0x1_0000_0000,
            0 <= y2 < 0x1_0000_0000,
    ;
    assert(x1 == x2 && y1 == y2) by (nonlinear_arith)
        requires
            x1 * 0x1_0000_0000 + y1 == x2 * 0x1_0000_0000 + y2,
            0 <= y1 < 0x1_0000_0000,
            0 <= y2 < 0x1_0000_0000,
            0 <= x1,
            0 <= x2,
    ;
}

fn key_of(e: Entity) -> (k: u64)
    ensures
        k == entity_key(e),
{
    assert(e.index as int * 0x1_0000_0000 + e.generation as int <= 0xFFFF_FFFF * 0x1_0000_0000
        + 0xFFFF_FFFF) by (nonlinear_arith)
        requires
            e.index <= 0xFFFF_FFFF,
            e.generation <= 0xFFFF_FFFF,
    ;
    (e.index as u64) * 0x1_0000_0000u64 + (e.generation as u64)
}

/// Keys in strictly increasing order: an archetype's identity.
pub open spec fn strictly_sorted(s: Seq<u64>) -> bool {
    forall|i: int, j: int| 0 <= i < j < s.len() ==> s[i] < s[j]
}

/// How many keys of `s` are below `k`.
pub open spec fn rank_below(s: Seq<u64>, k: u64) -> nat
    decreases s.len(),
{
    if s.len() == 0 {
        0
    } else {
        (if s[0] < k { 1nat } else { 0nat }) + rank_below(s.drop_first(), k)
    }
}

/// `s` with `k` inserted where it keeps the order.
pub open spec fn with_key(s: Seq<u64>, k: u64) -> Seq<u64> {
    let p = rank_below(s, k) as int;
    s.take(p) + seq![k] + s.skip(p)
}

/// `s` without `k`.
pub open spec fn without_key(s: Seq<u64>, k: u64) -> Seq<u64> {
    let p = rank_below(s, k) as int;
    s.take(p) + s.skip(p + 1)
}

/// What adding a component to an entity did.
#[derive(Debug, Clone, Copy, PartialEq, Eq, Structural)]
pub enum InsertOutcome {
    /// The entity is not alive; nothing changed.
    Dead,
    /// The entity already had the component, stored at this location:
    /// it is overwritten in place.
    InPlace(Location),
    /// The entity moved from `from` to `to` (appended to its new
    /// archetype; `created` when that archetype is new). Its old row was
    /// swap-removed: the old archetype's last row took its place.
    Moved { from: Location, to: Location, created: bool },
}

/// What removing a component from an entity did.
#[derive(Debug, Clone, Copy, PartialEq, Eq, Structural)]
pub enum RemoveOutcome {
    /// The entity is not alive.
    Dead,
    /// The entity does not have the component.
    Absent,
    /// As for `InsertOutcome::Moved`.
    Moved { from: Location, to: Location, created: bool },
}

/// The archetypes of an entity-component store and the location of every
/// live entity.
#[derive(Debug)]
pub struct ArchetypeIndex {
    signatures: Vec<Vec<u64>>,
    rows: Vec<Vec<Entity>>,
    locations: std::collections::HashMap<u64, Location>,
}

impl ArchetypeIndex {
    pub closed spec fn archetype_count(&self) -> nat {
        self.signatures@.len()
    }

    /// The component keys of archetype `a`, increasing.
    pub closed spec fn signature(&self, a: int) -> Seq<u64> {
        self.signatures@[a]@
    }

    /// The entities of archetype `a`, by row.
    pub closed spec fn entities(&self, a: int) -> Seq<Entity> {
        self.rows@[a]@
    }

    pub closed spec fn alive(&self, e: Entity) -> bool {
        self.locations@.contains_key(entity_key(e))
    }

    pub closed spec fn location(&self, e: Entity) -> Location {
        self.locations@[entity_key(e)]
    }

    /// The component keys a live entity has.
    pub open spec fn components(&self, e: Entity) -> Seq<u64> {
        self.signature(self.location(e).archetype as int)
    }

    pub closed spec fn wf(&self) -> bool {
        &&& self.signatures@.len() == self.rows@.len()
        &&& forall|a: int| 0 <= a < self.signatures@.len() ==> strictly_sorted(#[trigger] self.signatures@[a]@)
        &&& forall|a: int, b: int|
            0 <= a < self.signatures@.len() && 0 <= b < self.signatures@.len() && a != b ==> #[trigger] self.signatures@[a]@
                != #[trigger] self.signatures@[b]@
        &&& forall|k: u64|
            #[trigger] self.locations@.contains_key(k) ==> {
                let l = self.locations@[k];
                &&& l.archetype < self.rows@.len()
                &&& l.row < self.rows@[l.archetype as int]@.len()
                &&& entity_key(self.rows@[l.archetype as int]@[l.row as int]) == k
            }
        &&& forall|a: int, r: int|
            0 <= a < self.rows@.len() && 0 <= r < self.rows@[a]@.len() ==> {
                let k = entity_key(#[trigger] self.rows@[a]@[r]);
                &&& self.locations@.contains_key(k)
                &&& self.locations@[k].archetype == a && self.locations@[k].row == r
            }
    }

    /// Other entities keep being alive or dead, and keep their components.
    pub open spec fn others_unchanged(&self, old: &Self, e: Entity) -> bool {
        forall|x: Entity|
            x != e ==> (#[trigger] self.alive(x) == old.alive(x) && (old.alive(x) ==> self.components(x)
                == old.components(x)))
    }

    /// Existing archetypes keep their signatures; at most one is added.
    pub open spec fn archetypes_kept(&self, old: &Self) -> bool {
        &&& old.archetype_count() <= self.archetype_count() <= old.archetype_count() + 1
        &&& forall|a: int| 0 <= a < old.archetype_count() ==> #[trigger] self.signature(a) == old.signature(a)
    }

    pub fn new() -> (r: Self)
        ensures
            r.wf(),
            r.archetype_count() == 0,
            forall|e: Entity| !r.alive(e),
    {
        ArchetypeIndex { signatures: Vec::new(), rows: Vec::new(), locations: std::collections::HashMap::new() }
    }

    /// How many archetypes exist.
    pub fn num_archetypes(&self) -> (r: usize)
        requires
            self.wf(),
        ensures
            r == self.archetype_count(),
    {
        self.signatures.len()
    }

    /// Where a live entity is, or `None` when it is dead.
    pub fn location_of(&self, e: Entity) -> (r: Option<Location>)
        requires
            self.wf(),
        ensures
            r == if self.alive(e) { Some(self.location(e)) } else { None::<Location> },
    {
        match self.locations.get(&key_of(e)) {
            Some(l) => Some(*l),
            None => None,
        }
    }

    pub fn is_alive(&self, e: Entity) -> (r: bool)
        requires
            self.wf(),
        ensures
            r == self.alive(e),
    {
        self.locations.contains_key(&key_of(e))
    }

    /// The archetypes whose signature holds component `k`, in order.
    pub fn archetypes_with(&self, k: u64) -> (r: Vec<usize>)
        requires
            self.wf(),
        ensures
            forall|i: int| 0 <= i < r@.len() ==> #[trigger] r@[i] < self.archetype_count() && self.signature(
                r@[i] as int,
            ).contains(k),
            forall|a: int| 0 <= a < self.archetype_count() && self.signature(a).contains(k) ==> r@.contains(a as usize),
            forall|i: int, j: int| 0 <= i < j < r@.len() ==> r@[i] < r@[j],
    {
        let mut out: Vec<usize> = Vec::new();
        let mut a: usize = 0;
        while a < self.signatures.len()
            invariant
                a <= self.signatures@.len(),
                forall|i: int| 0 <= i < out@.len() ==> #[trigger] out@[i] < a && self.signatures@[out@[i] as int]@.contains(k),
                forall|b: int| 0 <= b < a && self.signatures@[b]@.contains(k) ==> out@.contains(b as usize),
                forall|i: int, j: int| 0 <= i < j < out@.len() ==> out@[i] < out@[j],
            decreases self.signatures@.len() - a,
        {
            if contains_key(&self.signatures[a], k) {
                let ghost before = out@;
                out.push(a);
                assert forall|b: int| 0 <= b < a + 1 && self.signatures@[b]@.contains(k) implies out@.contains(b as usize) by {
                    if b == a {
                        assert(out@[before.len() as int] == a);
                    } else {
                        let i = choose|i: int| 0 <= i < before.len() && before[i] == b as usize;
                        assert(out@[i] == b as usize);
                    }
                }
            }
            a = a + 1;
        }
        out
    }

    /// The entities of archetype `a`, by row.
    pub fn entities_of(&self, a: usize) -> (r: &Vec<Entity>)
        requires
            self.wf(),
            a < self.archetype_count(),
        ensures
            r@ == self.entities(a as int),
    {
        &self.rows[a]
    }

    /// The component keys of archetype `a`, increasing.
    pub fn signature_of(&self, a: usize) -> (r: &Vec<u64>)
        requires
            self.wf(),
            a < self.archetype_count(),
        ensures
            r@ == self.signature(a as int),
    {
        &self.signatures[a]
    }

    fn find_archetype(&self, sig: &Vec<u64>) -> (r: Option<usize>)
        requires
            self.wf(),
        ensures
            match r {
                Some(a) => a < self.signatures@.len() && self.signatures@[a as int]@ == sig@,
                None => forall|a: int| 0 <= a < self.signatures@.len() ==> self.signatures@[a]@ != sig@,
            },
    {
        let mut a: usize = 0;
        while a < self.signatures.len()
            invariant
                a <= self.signatures@.len(),
                forall|b: int| 0 <= b < a ==> self.signatures@[b]@ != sig@,
            decreases self.signatures@.len() - a,
        {
            if same_keys(&self.signatures[a], sig) {
                return Some(a);
            }
            a = a + 1;
        }
        None
    }

    /// The archetype with signature `sig`, created (empty) if there is
    /// none yet; `true` when it was created.
    fn get_or_create(&mut self, sig: Vec<u64>) -> (r: (usize, bool))
        requires
            old(self).wf(),
            strictly_sorted(sig@),
        ensures
            final(self).wf(),
            r.0 < final(self).signatures@.len(),
            final(self).signatures@[r.0 as int]@ == sig@,
            final(self).locations@ == old(self).locations@,
            r.1 ==> final(self).signatures@ == old(self).signatures@.push(sig) && final(self).rows@.len()
                == old(self).rows@.len() + 1 && final(self).rows@.drop_last() == old(self).rows@
                && final(self).rows@.last()@.len() == 0 && r.0 == old(self).signatures@.len(),
            !r.1 ==> final(self).signatures@ == old(self).signatures@ && final(self).rows@ == old(self).rows@,
    {
        match self.find_archetype(&sig) {
            Some(a) => (a, false),
            None => {
                let a = self.signatures.len();
                let ghost old_sigs = self.signatures@;
                let ghost old_rows = self.rows@;
                self.signatures.push(sig);
                self.rows.push(Vec::new());
                proof {
                    assert(self.rows@.drop_last() =~= old_rows);
                    assert forall|b: int| 0 <= b < self.signatures@.len() implies strictly_sorted(
                        #[trigger] self.signatures@[b]@,
                    ) by {
                        if b < a {
                            assert(self.signatures@[b] == old_sigs[b]);
                        }
                    }
                    assert forall|b: int, c: int|
                        0 <= b < self.signatures@.len() && 0 <= c < self.signatures@.len() && b != c implies #[trigger] self.signatures@[b]@
                        != #[trigger] self.signatures@[c]@ by {
                        if b < a && c < a {
                            assert(self.signatures@[b] == old_sigs[b] && self.signatures@[c] == old_sigs[c]);
                        } else if b < a {
                            assert(self.signatures@[b] == old_sigs[b]);
                        } else {
                            assert(self.signatures@[c] == old_sigs[c]);
                        }
                    }
                    assert forall|k: u64| #[trigger] self.locations@.contains_key(k) implies {
                        let l = self.locations@[k];
                        &&& l.archetype < self.rows@.len()
                        &&& l.row < self.rows@[l.archetype as int]@.len()
                        &&& entity_key(self.rows@[l.archetype as int]@[l.row as int]) == k
                    } by {
                        let l = self.locations@[k];
                        assert(self.rows@[l.archetype as int] == old_rows[l.archetype as int]);
                    }
                    assert forall|b: int, r: int|
                        0 <= b < self.rows@.len() && 0 <= r < self.rows@[b]@.len() implies {
                        let k = entity_key(#[trigger] self.rows@[b]@[r]);
                        &&& self.locations@.contains_key(k)
                        &&& self.locations@[k].archetype == b && self.locations@[k].row == r
                    } by {
                        assert(self.rows@[b] == old_rows[b]);
                    }
                }
                (a, true)
            },
        }
    }
}

impl ArchetypeIndex {
    /// Takes live entity `e` out of its row by swap-removing it (the
    /// archetype's last row takes its place) and forgets its location.
    fn detach(&mut self, e: Entity)
        requires
            old(self).wf(),
            old(self).alive(e),
        ensures
            final(self).wf(),
            final(self).signatures@ == old(self).signatures@,
            !final(self).alive(e),
            forall|x: Entity|
                x != e ==> (#[trigger] final(self).alive(x) == old(self).alive(x) && (old(self).alive(x)
                    ==> final(self).location(x).archetype == old(self).location(x).archetype)),
            ({
                let l = old(self).location(e);
                &&& final(self).rows@.len() == old(self).rows@.len()
                &&& final(self).rows@[l.archetype as int]@.len() + 1 == old(self).rows@[l.archetype as int]@.len()
                &&& forall|c: int| 0 <= c < old(self).rows@.len() && c != l.archetype ==> #[trigger] final(self).rows@[c]
                    == old(self).rows@[c]
            }),
    {
        let ke = key_of(e);
        let l = *self.locations.get(&ke).unwrap();
        let a = l.archetype;
        let r = l.row;
        let ghost rows0 = self.rows@;
        let ghost locs0 = self.locations@;
        assert(locs0.contains_key(ke) && locs0[ke] == l);
        assert(l == (Location { archetype: a, row: r }));
        let n = self.rows[a].len();
        let moved = self.rows[a][n - 1];
        let km = key_of(moved);
        self.rows[a].swap_remove(r);
        self.locations.remove(&ke);
        if r < n - 1 {
            self.locations.insert(km, Location { archetype: a, row: r });
        }
        proof {
            assert(rows0[a as int]@[r as int] == e) by {
                if rows0[a as int]@[r as int] != e {
                    lemma_entity_key_injective(rows0[a as int]@[r as int], e);
                }
            }
            if r == n - 1 {
                assert(moved == e);
            } else {
                assert(moved != e) by {
                    assert(locs0[km] == (Location { archetype: a, row: (n - 1) as usize }));
                }
                assert(km != ke) by {
                    if km == ke {
                        lemma_entity_key_injective(moved, e);
                    }
                }
            }
            assert forall|c: int| 0 <= c < rows0.len() && c != a implies #[trigger] self.rows@[c] == rows0[c] by {}
            assert forall|k: u64| #[trigger] self.locations@.contains_key(k) implies {
                let l2 = self.locations@[k];
                &&& l2.archetype < self.rows@.len()
                &&& l2.row < self.rows@[l2.archetype as int]@.len()
                &&& entity_key(self.rows@[l2.archetype as int]@[l2.row as int]) == k
            } by {
                if r < n - 1 && k == km {
                    assert(self.rows@[a as int]@[r as int] == moved);
                } else {
                    assert(locs0.contains_key(k) && k != ke);
                    let l2 = locs0[k];
                    assert(self.locations@[k] == l2);
                    let x = rows0[l2.archetype as int]@[l2.row as int];
                    if l2.archetype == a {
                        assert(l2.row != r) by {
                            if l2.row == r {
                                lemma_entity_key_injective(x, e);
                            }
                        }
                        assert(l2.row != n - 1) by {
                            if l2.row == n - 1 {
                                assert(x == moved);
                            }
                        }
                        assert(self.rows@[a as int]@[l2.row as int] == x);
                    }
                }
            }
            assert forall|c: int, q: int| 0 <= c < self.rows@.len() && 0 <= q < self.rows@[c]@.len() implies {
                let k = entity_key(#[trigger] self.rows@[c]@[q]);
                &&& self.locations@.contains_key(k)
                &&& self.locations@[k].archetype == c && self.locations@[k].row == q
            } by {
                let x = self.rows@[c]@[q];
                if c == a && q == r {
                    assert(x == moved);
                } else {
                    assert(x == rows0[c]@[q]);
                    assert(locs0[entity_key(x)].archetype == c && locs0[entity_key(x)].row == q);
                    assert(entity_key(x) != ke) by {
                        if entity_key(x) == ke {
                            assert(locs0[ke] == l);
                            assert(c == a as int && q == r as int);
                        }
                    }
                    if r < n - 1 {
                        assert(entity_key(x) != km) by {
                            if entity_key(x) == km {
                                assert(locs0[km] == (Location { archetype: a, row: (n - 1) as usize }));
                                assert(c == a as int && q == n - 1);
                                assert(self.rows@[a as int]@.len() == n - 1);
                            }
                        }
                    }
                }
            }
            assert forall|x: Entity| x != e implies (#[trigger] self.alive(x) == old(self).alive(x) && (old(
                self,
            ).alive(x) ==> self.location(x).archetype == old(self).location(x).archetype)) by {
                assert(entity_key(x) != ke) by {
                    if entity_key(x) == ke {
                        lemma_entity_key_injective(x, e);
                    }
                }
                if r < n - 1 && entity_key(x) == km {
                    assert(locs0.contains_key(km));
                }
            }
        }
    }

    /// Appends live-or-detached entity `e` to archetype `a` and records
    /// its new location.
    fn attach(&mut self, e: Entity, a: usize) -> (l: Location)
        requires
            old(self).wf(),
            !old(self).alive(e),
            a < old(self).rows@.len(),
        ensures
            final(self).wf(),
            final(self).signatures@ == old(self).signatures@,
            final(self).alive(e),
            final(self).location(e) == l,
            l.archetype == a,
            l.row == old(self).rows@[a as int]@.len(),
            forall|x: Entity|
                x != e ==> (#[trigger] final(self).alive(x) == old(self).alive(x) && (old(self).alive(x)
                    ==> final(self).location(x) == old(self).location(x))),
            final(self).rows@.len() == old(self).rows@.len(),
            forall|c: int| 0 <= c < old(self).rows@.len() && c != a ==> #[trigger] final(self).rows@[c] == old(self).rows@[c],
            final(self).rows@[a as int]@ == old(self).rows@[a as int]@.push(e),
    {
        let ke = key_of(e);
        let ghost rows0 = self.rows@;
        let ghost locs0 = self.locations@;
        let row = self.rows[a].len();
        self.rows[a].push(e);
        let l = Location { archetype: a, row };
        self.locations.insert(ke, l);
        proof {
            assert forall|c: int| 0 <= c < rows0.len() && c != a implies #[trigger] self.rows@[c] == rows0[c] by {}
            assert forall|k: u64| #[trigger] self.locations@.contains_key(k) implies {
                let l2 = self.locations@[k];
                &&& l2.archetype < self.rows@.len()
                &&& l2.row < self.rows@[l2.archetype as int]@.len()
                &&& entity_key(self.rows@[l2.archetype as int]@[l2.row as int]) == k
            } by {
                if k != ke {
                    let l2 = locs0[k];
                    if l2.archetype == a {
                        assert(self.rows@[a as int]@[l2.row as int] == rows0[a as int]@[l2.row as int]);
                    }
                }
            }
            assert forall|c: int, q: int| 0 <= c < self.rows@.len() && 0 <= q < self.rows@[c]@.len() implies {
                let k = entity_key(#[trigger] self.rows@[c]@[q]);
                &&& self.locations@.contains_key(k)
                &&& self.locations@[k].archetype == c && self.locations@[k].row == q
            } by {
                if !(c == a && q == row) {
                    let x = self.rows@[c]@[q];
                    assert(x == rows0[c]@[q]);
                    assert(entity_key(x) != ke);
                }
            }
            assert forall|x: Entity| x != e implies (#[trigger] self.alive(x) == old(self).alive(x) && (old(
                self,
            ).alive(x) ==> self.location(x) == old(self).location(x))) by {
                assert(entity_key(x) != ke) by {
                    if entity_key(x) == ke {
                        lemma_entity_key_injective(x, e);
                    }
                }
            }
        }
        l
    }

    /// Registers a newly allocated entity with no components.
    pub fn spawn(&mut self, e: Entity) -> (l: Location)
        requires
            old(self).wf(),
            !old(self).alive(e),
        ensures
            final(self).wf(),
            final(self).alive(e),
            final(self).components(e) == Seq::<u64>::empty(),
            final(self).location(e) == l,
            final(self).others_unchanged(&*old(self), e),
            final(self).archetypes_kept(&*old(self)),
    {
        let empty: Vec<u64> = Vec::new();
        let (a, _) = self.get_or_create(empty);
        let ghost mid = *self;
        let l = self.attach(e, a);
        proof {
            assert(self.signature(a as int) =~= Seq::<u64>::empty());
            assert forall|x: Entity| x != e implies (#[trigger] self.alive(x) == old(self).alive(x) && (old(
                self,
            ).alive(x) ==> self.components(x) == old(self).components(x))) by {
                assert(mid.locations@ == old(self).locations@);
                assert(mid.alive(x) == old(self).alive(x));
                assert(self.alive(x) == mid.alive(x));
                if old(self).alive(x) {
                    assert(mid.location(x) == old(self).location(x));
                    assert(self.location(x) == mid.location(x));
                    let b = old(self).location(x).archetype as int;
                    assert(b < old(self).signatures@.len());
                    assert(mid.signatures@[b] == old(self).signatures@[b]);
                }
            }
            assert forall|b: int| 0 <= b < old(self).archetype_count() implies #[trigger] self.signature(b)
                == old(self).signature(b) by {
                assert(mid.signatures@[b] == old(self).signatures@[b]);
            }
        }
        l
    }

    /// Forgets entity `e` and its row; `None` when it was not alive, else
    /// the location it had (its row was swap-removed).
    pub fn despawn(&mut self, e: Entity) -> (r: Option<Location>)
        requires
            old(self).wf(),
        ensures
            final(self).wf(),
            !final(self).alive(e),
            r == if old(self).alive(e) { Some(old(self).location(e)) } else { None::<Location> },
            final(self).others_unchanged(&*old(self), e),
            final(self).archetypes_kept(&*old(self)),
    {
        let found = self.location_of(e);
        match found {
            None => None,
            Some(l) => {
                self.detach(e);
                proof {
                    assert forall|x: Entity| x != e implies (#[trigger] self.alive(x) == old(self).alive(x) && (old(
                        self,
                    ).alive(x) ==> self.components(x) == old(self).components(x))) by {}
                }
                Some(l)
            },
        }
    }
}

proof fn lemma_rank_below(s: Seq<u64>, k: u64, p: int)
    requires
        0 <= p <= s.len(),
        forall|i: int| 0 <= i < p ==> #[trigger] s[i] < k,
        forall|i: int| p <= i < s.len() ==> #[trigger] s[i] >= k,
    ensures
        rank_below(s, k) == p,
    decreases s.len(),
{
    if s.len() > 0 {
        let t = s.drop_first();
        if p > 0 {
            assert forall|i: int| 0 <= i < p - 1 implies #[trigger] t[i] < k by {
                assert(t[i] == s[i + 1]);
            }
            assert forall|i: int| p - 1 <= i < t.len() implies #[trigger] t[i] >= k by {
                assert(t[i] == s[i + 1]);
            }
            lemma_rank_below(t, k, p - 1);
        } else {
            assert forall|i: int| 0 <= i < t.len() implies #[trigger] t[i] >= k by {
                assert(t[i] == s[i + 1]);
            }
            lemma_rank_below(t, k, 0);
            assert(s[0] >= k);
        }
    }
}

/// In sorted `s`, the keys below `k` are exactly the first
/// `rank_below(s, k)`.
proof fn lemma_rank_split(s: Seq<u64>, k: u64)
    requires
        strictly_sorted(s),
    ensures
        rank_below(s, k) <= s.len(),
        forall|i: int| 0 <= i < rank_below(s, k) ==> #[trigger] s[i] < k,
        forall|i: int| rank_below(s, k) <= i < s.len() ==> #[trigger] s[i] >= k,
    decreases s.len(),
{
    if s.len() > 0 {
        let t = s.drop_first();
        assert forall|i: int, j: int| 0 <= i < j < t.len() implies t[i] < t[j] by {
            assert(t[i] == s[i + 1] && t[j] == s[j + 1]);
        }
        lemma_rank_split(t, k);
        let q = rank_below(t, k);
        if s[0] < k {
            assert forall|i: int| 0 <= i < rank_below(s, k) implies #[trigger] s[i] < k by {
                if i > 0 {
                    assert(s[i] == t[i - 1]);
                }
            }
            assert forall|i: int| rank_below(s, k) <= i < s.len() implies #[trigger] s[i] >= k by {
                assert(s[i] == t[i - 1]);
            }
        } else {
            if q > 0 {
                assert(t[0] < k);
                assert(s[0] < s[1]);
            }
            assert forall|i: int| 0 <= i < s.len() implies #[trigger] s[i] >= k by {
                if i > 0 {
                    assert(s[0] < s[i]);
                }
            }
        }
    }
}

/// Adding a component key to a signature and removing it again gives back
/// the signature, and so does removing a key it has and adding it back:
/// an entity that gains and then loses a component returns to the
/// component set it had.
pub proof fn lemma_key_round_trip(s: Seq<u64>, k: u64)
    requires
        strictly_sorted(s),
    ensures
        !s.contains(k) ==> strictly_sorted(with_key(s, k)) && with_key(s, k).contains(k) && without_key(
            with_key(s, k),
            k,
        ) == s,
        s.contains(k) ==> strictly_sorted(without_key(s, k)) && !without_key(s, k).contains(k) && with_key(
            without_key(s, k),
            k,
        ) == s,
{
    lemma_rank_split(s, k);
    let p = rank_below(s, k) as int;
    if !s.contains(k) {
        let w = with_key(s, k);
        assert(w.len() == s.len() + 1);
        assert forall|i: int| 0 <= i < w.len() implies #[trigger] w[i] == (if i < p {
            s[i]
        } else if i == p {
            k
        } else {
            s[i - 1]
        }) by {}
        assert forall|i: int| p < i < w.len() implies #[trigger] w[i] > k by {
            assert(w[i] == s[i - 1]);
            assert(s[i - 1] != k) by {
                assert(s.contains(s[i - 1]));
            }
        }
        assert forall|i: int, j: int| 0 <= i < j < w.len() implies w[i] < w[j] by {
            if j < p {
                assert(w[i] == s[i] && w[j] == s[j]);
            } else if i < p && j == p {
                assert(w[i] == s[i]);
            } else if i < p {
                assert(w[i] == s[i] && w[j] == s[j - 1]);
            } else if i == p {
                assert(w[j] > k);
            } else {
                assert(w[i] == s[i - 1] && w[j] == s[j - 1]);
            }
        }
        assert(w[p] == k);
        assert forall|i: int| 0 <= i < p implies #[trigger] w[i] < k by {
            assert(w[i] == s[i]);
        }
        assert forall|i: int| p <= i < w.len() implies #[trigger] w[i] >= k by {
            if i > p {
                assert(w[i] > k);
            }
        }
        lemma_rank_below(w, k, p);
        assert(without_key(w, k) =~= s);
    } else {
        let i0 = choose|i: int| 0 <= i < s.len() && s[i] == k;
        assert(i0 == p) by {
            if i0 < p {
                assert(s[i0] < k);
            } else if i0 > p {
                assert(s[p] < s[i0]);
            }
        }
        let u = without_key(s, k);
        assert(u.len() + 1 == s.len());
        assert forall|i: int| 0 <= i < u.len() implies #[trigger] u[i] == (if i < p {
            s[i]
        } else {
            s[i + 1]
        }) by {}
        assert forall|i: int, j: int| 0 <= i < j < u.len() implies u[i] < u[j] by {
            if j < p {
            } else if i < p {
                assert(u[i] == s[i] && u[j] == s[j + 1]);
            } else {
                assert(u[i] == s[i + 1] && u[j] == s[j + 1]);
            }
        }
        assert forall|i: int| 0 <= i < p implies #[trigger] u[i] < k by {
            assert(u[i] == s[i]);
        }
        assert forall|i: int| p <= i < u.len() implies #[trigger] u[i] >= k by {
            assert(u[i] == s[i + 1]);
            assert(s[p] < s[i + 1]);
        }
        assert(!u.contains(k)) by {
            if u.contains(k) {
                let j = choose|j: int| 0 <= j < u.len() && u[j] == k;
                if j < p {
                    assert(u[j] < k);
                } else {
                    assert(u[j] == s[j + 1]);
                    assert(s[p] < s[j + 1]);
                }
            }
        }
        lemma_rank_below(u, k, p);
        assert(with_key(u, k) =~= s);
    }
}

/// The first position of sorted `s` holding a key at least `k`, with the
/// facts that make it `rank_below(s, k)`.
fn split_point(s: &Vec<u64>, k: u64) -> (p: usize)
    requires
        strictly_sorted(s@),
    ensures
        p <= s@.len(),
        p == rank_below(s@, k),
        forall|i: int| 0 <= i < p ==> #[trigger] s@[i] < k,
        forall|i: int| p <= i < s@.len() ==> #[trigger] s@[i] >= k,
{
    let mut p: usize = 0;
    while p < s.len() && s[p] < k
        invariant
            p <= s@.len(),
            forall|i: int| 0 <= i < p ==> #[trigger] s@[i] < k,
        decreases s@.len() - p,
    {
        p = p + 1;
    }
    assert forall|i: int| p <= i < s@.len() implies #[trigger] s@[i] >= k by {
        if i > p {
            assert(s@[p as int] < s@[i]);
        }
    }
    proof {
        lemma_rank_below(s@, k, p as int);
    }
    p
}

fn with_key_exec(s: &Vec<u64>, k: u64) -> (r: Vec<u64>)
    requires
        strictly_sorted(s@),
        !s@.contains(k),
    ensures
        r@ == with_key(s@, k),
        r@.len() == s@.len() + 1,
        strictly_sorted(r@),
{
    let p = split_point(s, k);
    let mut out: Vec<u64> = Vec::new();
    let mut i: usize = 0;
    while i < p
        invariant
            i <= p <= s@.len(),
            out@ == s@.take(i as int),
        decreases p - i,
    {
        out.push(s[i]);
        i = i + 1;
        assert(out@ =~= s@.take(i as int));
    }
    out.push(k);
    let mut j: usize = p;
    while j < s.len()
        invariant
            p <= j <= s@.len(),
            out@ == s@.take(p as int) + seq![k] + s@.subrange(p as int, j as int),
        decreases s@.len() - j,
    {
        out.push(s[j]);
        j = j + 1;
        assert(out@ =~= s@.take(p as int) + seq![k] + s@.subrange(p as int, j as int));
    }
    assert(s@.subrange(p as int, s@.len() as int) =~= s@.skip(p as int));
    proof {
        assert(p >= s@.len() || s@[p as int] != k);
        assert forall|x: int, y: int| 0 <= x < y < out@.len() implies out@[x] < out@[y] by {
            if y < p {
            } else if x < p && y == p {
                assert(out@[x] == s@[x]);
            } else if x < p {
                assert(out@[x] == s@[x] && out@[y] == s@[y - 1]);
            } else if x == p {
                assert(out@[y] == s@[y - 1]);
                assert(s@[y - 1] >= k);
                assert(s@[y - 1] != k) by {
                    assert(s@.contains(s@[y - 1]));
                }
            } else {
                assert(out@[x] == s@[x - 1] && out@[y] == s@[y - 1]);
            }
        }
    }
    out
}

fn without_key_exec(s: &Vec<u64>, k: u64) -> (r: Vec<u64>)
    requires
        strictly_sorted(s@),
        s@.contains(k),
    ensures
        r@ == without_key(s@, k),
        strictly_sorted(r@),
        r@.len() + 1 == s@.len(),
{
    let p = split_point(s, k);
    proof {
        let i = choose|i: int| 0 <= i < s@.len() && s@[i] == k;
        assert(i == p) by {
            if i < p {
                assert(s@[i] < k);
            } else if i > p {
                assert(s@[p as int] < s@[i]);
                assert(s@[p as int] >= k);
            }
        }
    }
    let mut out: Vec<u64> = Vec::new();
    let mut i: usize = 0;
    while i < s.len()
        invariant
            p < s@.len(),
            i <= s@.len(),
            out@ == if i <= p { s@.take(i as int) } else { s@.take(p as int) + s@.subrange(p + 1, i as int) },
        decreases s@.len() - i,
    {
        if i != p {
            out.push(s[i]);
        }
        i = i + 1;
        assert(out@ =~= if i <= p { s@.take(i as int) } else { s@.take(p as int) + s@.subrange(p + 1, i as int) });
    }
    assert(s@.subrange(p + 1, s@.len() as int) =~= s@.skip(p + 1));
    assert forall|x: int, y: int| 0 <= x < y < out@.len() implies out@[x] < out@[y] by {
        if y < p {
        } else if x < p {
            assert(out@[x] == s@[x] && out@[y] == s@[y + 1]);
        } else {
            assert(out@[x] == s@[x + 1] && out@[y] == s@[y + 1]);
        }
    }
    out
}

impl ArchetypeIndex {
    /// Adds component `k` to entity `e`: overwritten in place when `e`
    /// already has it, else `e` moves to the archetype of its components
    /// plus `k` (created if new), appended there, its old row
    /// swap-removed.
    pub fn insert(&mut self, e: Entity, k: u64) -> (r: InsertOutcome)
        requires
            old(self).wf(),
        ensures
            final(self).wf(),
            !old(self).alive(e) ==> r == InsertOutcome::Dead && *final(self) == *old(self),
            old(self).alive(e) && old(self).components(e).contains(k) ==> r == InsertOutcome::InPlace(
                old(self).location(e),
            ) && *final(self) == *old(self),
            old(self).alive(e) && !old(self).components(e).contains(k) ==> {
                &&& r matches InsertOutcome::Moved { from, to, created } && from == old(self).location(e)
                    && to == final(self).location(e) && created == (final(self).archetype_count()
                    > old(self).archetype_count()) && to.row == (if created { 0 } else { old(self).entities(
                    to.archetype as int,
                ).len() })
                &&& final(self).alive(e)
                &&& final(self).components(e) == with_key(old(self).components(e), k)
                &&& final(self).others_unchanged(&*old(self), e)
                &&& final(self).archetypes_kept(&*old(self))
            },
    {
        let found = self.location_of(e);
        let from = match found {
            None => {
                return InsertOutcome::Dead;
            },
            Some(l) => l,
        };
        let a = from.archetype;
        if contains_key(&self.signatures[a], k) {
            return InsertOutcome::InPlace(from);
        }
        let sig = with_key_exec(&self.signatures[a], k);
        let ghost s0 = *self;
        let (b, created) = self.get_or_create(sig);
        assert(b != a) by {
            assert(self.signatures@[b as int]@.len() == s0.signatures@[a as int]@.len() + 1);
            assert(self.signatures@[a as int] == s0.signatures@[a as int]);
        }
        let ghost s1 = *self;
        proof {
            assert(s1.alive(e) && s1.location(e) == from);
        }
        self.detach(e);
        let ghost s2 = *self;
        let to = self.attach(e, b);
        proof {
            assert(s2.rows@[b as int] == s1.rows@[b as int]);
            if !created {
                assert(s1.rows@[b as int] == s0.rows@[b as int]);
            }
            assert forall|x: Entity| x != e implies (#[trigger] self.alive(x) == old(self).alive(x) && (old(
                self,
            ).alive(x) ==> self.components(x) == old(self).components(x))) by {
                assert(s1.alive(x) == s0.alive(x));
                assert(s2.alive(x) == s1.alive(x));
                assert(self.alive(x) == s2.alive(x));
                if s0.alive(x) {
                    let c = s0.location(x).archetype as int;
                    assert(s1.location(x) == s0.location(x));
                    assert(s2.location(x).archetype == s1.location(x).archetype);
                    assert(self.location(x) == s2.location(x));
                    assert(self.signatures@[c] == s0.signatures@[c]);
                }
            }
            assert forall|c: int| 0 <= c < old(self).archetype_count() implies #[trigger] self.signature(c)
                == old(self).signature(c) by {
                assert(s1.signatures@[c] == s0.signatures@[c]);
            }
        }
        InsertOutcome::Moved { from, to, created }
    }

    /// Removes component `k` from entity `e`, which moves to the archetype
    /// of its remaining components (created if new), appended there, its
    /// old row swap-removed.
    pub fn remove(&mut self, e: Entity, k: u64) -> (r: RemoveOutcome)
        requires
            old(self).wf(),
        ensures
            final(self).wf(),
            !old(self).alive(e) ==> r == RemoveOutcome::Dead && *final(self) == *old(self),
            old(self).alive(e) && !old(self).components(e).contains(k) ==> r == RemoveOutcome::Absent
                && *final(self) == *old(self),
            old(self).alive(e) && old(self).components(e).contains(k) ==> {
                &&& r matches RemoveOutcome::Moved { from, to, created } && from == old(self).location(e)
                    && to == final(self).location(e) && created == (final(self).archetype_count()
                    > old(self).archetype_count()) && to.row == (if created { 0 } else { old(self).entities(
                    to.archetype as int,
                ).len() })
                &&& final(self).alive(e)
                &&& final(self).components(e) == without_key(old(self).components(e), k)
                &&& final(self).others_unchanged(&*old(self), e)
                &&& final(self).archetypes_kept(&*old(self))
            },
    {
        let found = self.location_of(e);
        let from = match found {
            None => {
                return RemoveOutcome::Dead;
            },
            Some(l) => l,
        };
        let a = from.archetype;
        if !contains_key(&self.signatures[a], k) {
            return RemoveOutcome::Absent;
        }
        let sig = without_key_exec(&self.signatures[a], k);
        let ghost s0 = *self;
        let (b, created) = self.get_or_create(sig);
        assert(b != a) by {
            assert(self.signatures@[b as int]@.len() + 1 == s0.signatures@[a as int]@.len());
            assert(self.signatures@[a as int] == s0.signatures@[a as int]);
        }
        let ghost s1 = *self;
        proof {
            assert(s1.alive(e) && s1.location(e) == from);
        }
        self.detach(e);
        let ghost s2 = *self;
        let to = self.attach(e, b);
        proof {
            assert(s2.rows@[b as int] == s1.rows@[b as int]);
            if !created {
                assert(s1.rows@[b as int] == s0.rows@[b as int]);
            }
            assert forall|x: Entity| x != e implies (#[trigger] self.alive(x) == old(self).alive(x) && (old(
                self,
            ).alive(x) ==> self.components(x) == old(self).components(x))) by {
                assert(s1.alive(x) == s0.alive(x));
                assert(s2.alive(x) == s1.alive(x));
                assert(self.alive(x) == s2.alive(x));
                if s0.alive(x) {
                    let c = s0.location(x).archetype as int;
                    assert(s1.location(x) == s0.location(x));
                    assert(s2.location(x).archetype == s1.location(x).archetype);
                    assert(self.location(x) == s2.location(x));
                    assert(self.signatures@[c] == s0.signatures@[c]);
                }
            }
            assert forall|c: int| 0 <= c < old(self).archetype_count() implies #[trigger] self.signature(c)
                == old(self).signature(c) by {
                assert(s1.signatures@[c] == s0.signatures@[c]);
            }
        }
        RemoveOutcome::Moved { from, to, created }
    }
}

fn contains_key(s: &Vec<u64>, k: u64) -> (r: bool)
    ensures
        r == s@.contains(k),
{
    let mut i: usize = 0;
    while i < s.len()
        invariant
            i <= s@.len(),
            forall|j: int| 0 <= j < i ==> s@[j] != k,
        decreases s@.len() - i,
    {
        if s[i] == k {
            assert(s@[i as int] == k);
            return true;
        }
        i = i + 1;
    }
    false
}

fn same_keys(a: &Vec<u64>, b: &Vec<u64>) -> (r: bool)
    ensures
        r == (a@ == b@),
{
    if a.len() != b.len() {
        return false;
    }
    let mut i: usize = 0;
    while i < a.len()
        invariant
            a@.len() == b@.len(),
            i <= a@.len(),
            forall|j: int| 0 <= j < i ==> a@[j] == b@[j],
        decreases a@.len() - i,
    {
        if a[i] != b[i] {
            return false;
        }
        i = i + 1;
    }
    assert(a@ =~= b@);
    true
}

} // verus!
