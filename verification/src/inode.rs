//! Inode allocation and the bidirectional inode/hash registry.
//!
//! The registry makes the content-addressed object store behave like an
//! inode-addressed filesystem: every observed object hash is paired with a
//! small integer inode, injectively in both directions, and pairs are never
//! evicted for the life of the mount.

use vstd::prelude::*;

verus! {

/// Reserved inode number of the synthetic filesystem root.
pub const ROOT_INO: u64 = 1;

/// Issues monotonically increasing inode numbers on demand, starting above
/// the reserved root inode. Numbers are never reused.
pub struct InodeGen {
    next: u64,
}

impl InodeGen {
    /// The number this generator will hand out next.
    pub closed spec fn counter(self) -> u64 {
        self.next
    }

    pub fn new() -> (g: InodeGen)
        ensures
            g.counter() == ROOT_INO + 1,
    {
        InodeGen { next: 2 }
    }

    /// The number `next` will return, without advancing the generator.
    pub fn peek(&self) -> (i: u64)
        ensures
            i == self.counter(),
    {
        self.next
    }

    /// Returns a fresh inode strictly greater than all previously returned
    /// values.
    pub fn next(&mut self) -> (i: u64)
        requires
            old(self).counter() < u64::MAX,
        ensures
            i == old(self).counter(),
            final(self).counter() == i + 1,
    {
        let i = self.next;
        self.next = self.next + 1;
        i
    }
}

#[verifier::external_type_specification]
#[verifier::external_body]
#[verifier::reject_recursive_types(L)]
#[verifier::reject_recursive_types(R)]
#[verifier::reject_recursive_types(LS)]
#[verifier::reject_recursive_types(RS)]
pub struct ExBiHashMap<L, R, LS, RS>(bimap::BiHashMap<L, R, LS, RS>);

/// The pairs a bimap holds, as a map from inode to hash bytes.
pub uninterp spec fn inode_table(m: bimap::BiHashMap<u64, Vec<u8>>) -> Map<u64, Seq<u8>>;

/// Relies on bimap::BiHashMap::new: the new bimap holds no pairs.
#[verifier::external_body]
fn bimap_new() -> (m: bimap::BiHashMap<u64, Vec<u8>>)
    ensures
        (inode_table(m) == Map::<u64, Seq<u8>>::empty()),
{
    bimap::BiHashMap::new()
}

/// Relies on bimap::BiHashMap::get_by_left: returns the right value paired
/// with the given left value, or nothing when no pair has that left value.
#[verifier::external_body]
fn bimap_get_by_left(m: &bimap::BiHashMap<u64, Vec<u8>>, ino: u64) -> (r: Option<Vec<u8>>)
    ensures
        match r {
            Some(h) => inode_table(*m).contains_key(ino) && h@ == inode_table(*m)[ino],
            None => !inode_table(*m).contains_key(ino),
        },
{
    m.get_by_left(&ino).cloned()
}

/// Relies on bimap::BiHashMap::get_by_right: returns the left value paired
/// with the given right value, or nothing when no pair has that right value.
#[verifier::external_body]
fn bimap_get_by_right(m: &bimap::BiHashMap<u64, Vec<u8>>, h: &Vec<u8>) -> (r: Option<u64>)
    ensures
        match r {
            Some(i) => inode_table(*m).contains_key(i) && inode_table(*m)[i] == h@,
            None => forall|i: u64| inode_table(*m).contains_key(i) ==> inode_table(*m)[i] != h@,
        },
{
    m.get_by_right(h).copied()
}

/// Relies on bimap::BiHashMap::insert: the pair is recorded, and any pair
/// sharing either side with it is removed.
#[verifier::external_body]
fn bimap_insert(m: &mut bimap::BiHashMap<u64, Vec<u8>>, ino: u64, h: &Vec<u8>)
    ensures
        (inode_table(*final(m)) == Map::<u64, Seq<u8>>::new(
            (|k: u64| k == ino
                || (inode_table(*old(m)).contains_key(k) && inode_table(*old(m))[k] != h@)),
            (|k: u64| if k == ino { h@ } else { inode_table(*old(m))[k] }),
        )),
{
    m.insert(ino, h.clone());
}

/// Whether some inode of table `t` is mapped to hash `h`.
pub open spec fn table_has_hash(t: Map<u64, Seq<u8>>, h: Seq<u8>) -> bool {
    exists|i: u64| t.contains_key(i) && t[i] == h
}

/// The inode of table `t` mapped to hash `h`; meaningful only when
/// `table_has_hash(t, h)` holds.
pub open spec fn table_ino_of(t: Map<u64, Seq<u8>>, h: Seq<u8>) -> u64 {
    choose|i: u64| t.contains_key(i) && t[i] == h
}

/// Well-formedness of a registry table against its allocation counter: every
/// registered inode lies strictly between the root inode and the counter,
/// and the mapping is injective in both directions.
pub open spec fn table_wf(t: Map<u64, Seq<u8>>, next: u64) -> bool {
    &&& ROOT_INO < next
    &&& forall|i: u64| t.contains_key(i) ==> ROOT_INO < i < next
    &&& forall|i: u64, j: u64|
        t.contains_key(i) && t.contains_key(j) && i != j ==> t[i] != t[j]
}

/// The inode that resolving hash `h` yields on a registry in state
/// `(t, next)`: the registered inode when present, a fresh one otherwise.
pub open spec fn resolve_ino(t: Map<u64, Seq<u8>>, next: u64, h: Seq<u8>) -> u64 {
    if table_has_hash(t, h) { table_ino_of(t, h) } else { next }
}

/// The registry table after resolving hash `h`.
pub open spec fn resolve_table(t: Map<u64, Seq<u8>>, next: u64, h: Seq<u8>) -> Map<u64, Seq<u8>> {
    if table_has_hash(t, h) { t } else { t.insert(next, h) }
}

/// The allocation counter after resolving hash `h`.
pub open spec fn resolve_next(t: Map<u64, Seq<u8>>, next: u64, h: Seq<u8>) -> u64 {
    if table_has_hash(t, h) { next } else { (next + 1) as u64 }
}

/// After resolution the hash is registered under the returned inode.
pub proof fn lemma_resolve_registers(t: Map<u64, Seq<u8>>, next: u64, h: Seq<u8>)
    requires
        table_wf(t, next),
        next < u64::MAX,
    ensures
        resolve_table(t, next, h).contains_key(resolve_ino(t, next, h)),
        resolve_table(t, next, h)[resolve_ino(t, next, h)] == h,
        table_wf(resolve_table(t, next, h), resolve_next(t, next, h)),
{
    if table_has_hash(t, h) {
        let i = table_ino_of(t, h);
        assert(t.contains_key(i) && t[i] == h);
    } else {
        let t2 = t.insert(next, h);
        assert forall|i: u64, j: u64|
            t2.contains_key(i) && t2.contains_key(j) && i != j implies t2[i] != t2[j] by {
            if i != next && j != next {
                assert(t.contains_key(i) && t.contains_key(j));
            } else if i == next {
                assert(t.contains_key(j) && t[j] != h) by {
                    assert(!table_has_hash(t, h));
                }
            } else {
                assert(t.contains_key(i) && t[i] != h) by {
                    assert(!table_has_hash(t, h));
                }
            }
        }
    }
}

/// Every pair of `t1` stands unchanged in `t2`.
pub open spec fn table_extends(t2: Map<u64, Seq<u8>>, t1: Map<u64, Seq<u8>>) -> bool {
    forall|k: u64| #[trigger] t1.contains_key(k) ==> t2.contains_key(k) && t2[k] == t1[k]
}

/// Resolution never removes or rebinds a pair that is already registered.
pub proof fn lemma_resolve_keeps_pairs(t: Map<u64, Seq<u8>>, next: u64, h: Seq<u8>)
    requires
        table_wf(t, next),
    ensures
        table_extends(resolve_table(t, next, h), t),
{
    if !table_has_hash(t, h) {
        assert forall|i: u64| #[trigger] t.contains_key(i) implies resolve_table(t, next, h)
            .contains_key(i) && resolve_table(t, next, h)[i] == t[i] by {
            assert(i != next);
        }
    }
}

/// On a table that already registers hash `h` under inode `i`, resolution
/// returns `i` and changes nothing.
pub proof fn lemma_registered_ino_stable(t: Map<u64, Seq<u8>>, next: u64, h: Seq<u8>, i: u64)
    requires
        table_wf(t, next),
        t.contains_key(i),
        t[i] == h,
    ensures
        resolve_ino(t, next, h) == i,
        resolve_table(t, next, h) == t,
        resolve_next(t, next, h) == next,
{
    assert(table_has_hash(t, h));
    let j = table_ino_of(t, h);
    assert(t.contains_key(j) && t[j] == h);
    if i != j {
        assert(t[i] != t[j]);
    }
}

/// Law: within one mount session, resolving the same hash repeatedly yields
/// the same inode every time, and leaves the registry unchanged after the
/// first resolution.
pub proof fn lemma_resolve_idempotent(t: Map<u64, Seq<u8>>, next: u64, h: Seq<u8>)
    requires
        table_wf(t, next),
        next < u64::MAX,
    ensures
        ({
            let t1 = resolve_table(t, next, h);
            let n1 = resolve_next(t, next, h);
            &&& resolve_ino(t1, n1, h) == resolve_ino(t, next, h)
            &&& resolve_table(t1, n1, h) == t1
            &&& resolve_next(t1, n1, h) == n1
        }),
{
    lemma_resolve_registers(t, next, h);
    let t1 = resolve_table(t, next, h);
    let n1 = resolve_next(t, next, h);
    lemma_registered_ino_stable(t1, n1, h, resolve_ino(t, next, h));
}

/// Law: distinct hashes never share an inode. Resolving `h1` and then a
/// different hash `h2` yields two distinct inodes.
pub proof fn lemma_resolve_distinct(t: Map<u64, Seq<u8>>, next: u64, h1: Seq<u8>, h2: Seq<u8>)
    requires
        table_wf(t, next),
        next < u64::MAX,
        h1 != h2,
    ensures
        ({
            let t1 = resolve_table(t, next, h1);
            let n1 = resolve_next(t, next, h1);
            resolve_ino(t1, n1, h2) != resolve_ino(t, next, h1)
        }),
{
    lemma_resolve_registers(t, next, h1);
    let i1 = resolve_ino(t, next, h1);
    let t1 = resolve_table(t, next, h1);
    let n1 = resolve_next(t, next, h1);
    if table_has_hash(t1, h2) {
        let i2 = table_ino_of(t1, h2);
        assert(t1.contains_key(i2) && t1[i2] == h2);
        if i2 == i1 {
            assert(t1[i1] == h1);
        }
    } else {
        assert(t1.contains_key(i1) ==> i1 < n1);
    }
}

/// A bidirectional, injective, never-evicting mapping between inode numbers
/// and content hashes, together with the allocator that feeds it.
pub struct InodeRegistry {
    gen: InodeGen,
    map: bimap::BiHashMap<u64, Vec<u8>>,
}

impl InodeRegistry {
    /// The registered pairs, as a map from inode to hash bytes.
    pub closed spec fn table(self) -> Map<u64, Seq<u8>> {
        inode_table(self.map)
    }

    /// The inode number the registry will assign next.
    pub closed spec fn next_ino(self) -> u64 {
        self.gen.counter()
    }

    pub open spec fn wf(self) -> bool {
        table_wf(self.table(), self.next_ino())
    }

    pub fn new() -> (r: InodeRegistry)
        ensures
            r.wf(),
            (r.table() == Map::<u64, Seq<u8>>::empty()),
            r.next_ino() == ROOT_INO + 1,
    {
        InodeRegistry { gen: InodeGen::new(), map: bimap_new() }
    }

    /// Returns the existing inode for `hash` if one is registered; otherwise
    /// allocates a fresh inode, records the pair, and returns it.
    pub fn resolve_or_assign(&mut self, hash: &Vec<u8>) -> (i: u64)
        requires
            old(self).wf(),
            old(self).next_ino() < u64::MAX,
        ensures
            final(self).wf(),
            i == resolve_ino(old(self).table(), old(self).next_ino(), hash@),
            final(self).table() == resolve_table(old(self).table(), old(self).next_ino(), hash@),
            final(self).next_ino() == resolve_next(old(self).table(), old(self).next_ino(), hash@),
    {
        proof {
            lemma_resolve_registers(old(self).table(), old(self).next_ino(), hash@);
        }
        match bimap_get_by_right(&self.map, hash) {
            Some(i) => {
                proof {
                    lemma_registered_ino_stable(
                        old(self).table(), old(self).next_ino(), hash@, i,
                    );
                }
                i
            }
            None => {
                assert(!table_has_hash(old(self).table(), hash@));
                let i = self.gen.next();
                bimap_insert(&mut self.map, i, hash);
                proof {
                    assert(self.table() =~= old(self).table().insert(i, hash@));
                }
                i
            }
        }
    }

    /// The inode number that will be assigned to the next unregistered
    /// hash; a driver checks it against the counter's limit before letting
    /// an operation register further objects.
    pub fn next_inode(&self) -> (n: u64)
        ensures
            n == self.next_ino(),
    {
        self.gen.peek()
    }

    /// Returns the hash registered for `ino`, or nothing when `ino` was
    /// never assigned.
    pub fn hash_for(&self, ino: u64) -> (r: Option<Vec<u8>>)
        ensures
            match r {
                Some(h) => self.table().contains_key(ino) && h@ == self.table()[ino],
                None => !self.table().contains_key(ino),
            },
    {
        bimap_get_by_left(&self.map, ino)
    }
}

} // verus!
