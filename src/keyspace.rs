//! Keyspaces: named stores of byte values, each with its eviction policy,
//! and the manager that holds them by name.
//!
//! A keyspace keeps its entries in a vector, whose order is the order an
//! eviction pass samples them in, and an index from the hash of each key to
//! the positions holding keys with that hash.
//!
//! A value's `last_accessed` is a tick of its keyspace's logical clock: the
//! clock advances on every store operation, so a later access always has a
//! later (or, once the clock is exhausted, equal) stamp.

use crate::blob::{bytes_clone, bytes_content};
use crate::text::text_eq;
use bytes::Bytes;
use std::collections::HashMap;
use vstd::prelude::*;
use vstd::utf8::encode_utf8;

verus! {

broadcast use vstd::std_specs::hash::group_hash_axioms;

/// The sample size of a keyspace whose CREATE names none.
pub const MAX_MEMORY_SAMPLE_SIZE: usize = 3;

/// Bytes in a megabyte, the unit the memory cap is configured in.
pub const BYTES_PER_MEGABYTE: u64 = 1048576;

#[derive(Debug, Clone, Copy, PartialEq, Eq, Structural)]
pub enum Evictor {
    Random,
    Noop,
    Lru,
}

/// A stored value and the tick of its last access.
#[derive(Debug)]
pub struct Value {
    data: Bytes,
    last_accessed: u64,
}

impl Value {
    pub fn new(data: Bytes, last_accessed: u64) -> (v: Value)
        ensures
            v.data() == bytes_content(data),
            v.last_accessed() == last_accessed,
    {
        Value { data, last_accessed }
    }

    pub closed spec fn data(&self) -> Seq<u8> {
        bytes_content(self.data)
    }

    pub closed spec fn last_accessed(&self) -> int {
        self.last_accessed as int
    }
}

/// The FNV-1a hash of some bytes.
pub open spec fn fnv(b: Seq<u8>) -> u64
    decreases b.len(),
{
    if b.len() == 0 {
        14695981039346656037u64
    } else {
        (fnv(b.drop_last()) ^ (b.last() as u64)).wrapping_mul(1099511628211u64)
    }
}

/// The hash a key is indexed under: FNV-1a of its UTF-8 bytes.
pub open spec fn key_hash(k: Seq<char>) -> u64 {
    fnv(encode_utf8(k))
}

fn hash_key(key: &str) -> (r: u64)
    ensures
        r == key_hash(key@),
{
    let bytes = key.as_bytes();
    let mut h: u64 = 14695981039346656037u64;
    let mut i: usize = 0;
    while i < bytes.len()
        invariant
            i <= bytes@.len(),
            h == fnv(bytes@.subrange(0, i as int)),
        decreases bytes@.len() - i,
    {
        proof {
            let t = bytes@.subrange(0, i + 1);
            assert(t.drop_last() =~= bytes@.subrange(0, i as int));
        }
        h = (h ^ (bytes[i] as u64)).wrapping_mul(1099511628211u64);
        i = i + 1;
    }
    assert(bytes@.subrange(0, i as int) =~= bytes@);
    h
}

#[derive(Debug)]
struct Entry {
    key: String,
    value: Value,
}

/// Position `j` is listed under the hash of its key.
spec fn listed(es: Seq<Entry>, index: Map<u64, Vec<usize>>, j: int) -> bool {
    let h = key_hash(es[j].key@);
    index.contains_key(h) && index[h]@.contains(j as usize)
}

/// The index lists each position under its key's hash, and nothing else.
spec fn indexed(es: Seq<Entry>, index: Map<u64, Vec<usize>>) -> bool {
    &&& forall|j: int| 0 <= j < es.len() ==> #[trigger] listed(es, index, j)
    &&& forall|h: u64, p: usize|
        index.contains_key(h) && #[trigger] index[h]@.contains(p) ==> p < es.len() && key_hash(
            es[p as int].key@,
        ) == h
}

/// A stored entry, as the contracts see it.
pub struct EntryModel {
    pub key: Seq<char>,
    pub data: Seq<u8>,
    pub last_accessed: int,
}

impl Entry {
    spec fn model(&self) -> EntryModel {
        EntryModel { key: self.key@, data: self.value.data(), last_accessed: self.value.last_accessed() }
    }
}

/// Key `k` sits at index `i`.
pub open spec fn key_at(es: Seq<EntryModel>, k: Seq<char>, i: int) -> bool {
    0 <= i < es.len() && es[i].key == k
}

pub open spec fn has_key(es: Seq<EntryModel>, k: Seq<char>) -> bool {
    exists|i: int| key_at(es, k, i)
}

/// Where key `k` sits.
pub open spec fn index_of(es: Seq<EntryModel>, k: Seq<char>) -> int
    recommends
        has_key(es, k),
{
    choose|i: int| key_at(es, k, i)
}

pub open spec fn unique_keys(es: Seq<EntryModel>) -> bool {
    forall|i: int, j: int| 0 <= i < j < es.len() ==> es[i].key != es[j].key
}

/// The value stored under `k`.
pub open spec fn lookup(es: Seq<EntryModel>, k: Seq<char>) -> Option<Seq<u8>> {
    if has_key(es, k) {
        Some(es[index_of(es, k)].data)
    } else {
        None
    }
}

/// SET: the value under `k` becomes `data`, stamped `t`; a new key goes last.
pub open spec fn store_set(es: Seq<EntryModel>, k: Seq<char>, data: Seq<u8>, t: int) -> Seq<
    EntryModel,
> {
    let e = EntryModel { key: k, data, last_accessed: t };
    if has_key(es, k) {
        es.update(index_of(es, k), e)
    } else {
        es.push(e)
    }
}

/// GET: the entry under `k`, if any, is stamped `t`.
pub open spec fn store_touch(es: Seq<EntryModel>, k: Seq<char>, t: int) -> Seq<EntryModel> {
    if has_key(es, k) {
        let i = index_of(es, k);
        es.update(i, EntryModel { key: k, data: es[i].data, last_accessed: t })
    } else {
        es
    }
}

/// The entries with the one at `i` taken out: the last entry moves into
/// its place.
pub open spec fn take_out(es: Seq<EntryModel>, i: int) -> Seq<EntryModel> {
    es.update(i, es.last()).drop_last()
}

/// DEL: the entry under `k`, if any, goes (the last entry takes its place).
pub open spec fn store_del(es: Seq<EntryModel>, k: Seq<char>) -> Seq<EntryModel> {
    if has_key(es, k) {
        take_out(es, index_of(es, k))
    } else {
        es
    }
}

/// Taking an entry out keeps keys unique and drops only that entry's key.
pub proof fn lemma_take_out(es: Seq<EntryModel>, i: int)
    requires
        unique_keys(es),
        0 <= i < es.len(),
    ensures
        unique_keys(take_out(es, i)),
        !has_key(take_out(es, i), es[i].key),
        forall|j: int| 0 <= j < take_out(es, i).len() ==> #[trigger] take_out(es, i)[j] == (if j == i {
            es[es.len() - 1]
        } else {
            es[j]
        }),
{
    let s = take_out(es, i);
    let last = es.len() - 1;
    assert forall|a: int, b: int| 0 <= a < b < s.len() implies s[a].key != s[b].key by {
        let pa = if a == i { last } else { a };
        let pb = if b == i { last } else { b };
        assert(s[a] == es[pa] && s[b] == es[pb]);
        assert(pa != pb);
    }
    if has_key(s, es[i].key) {
        let j = choose|j: int| key_at(s, es[i].key, j);
        let pj = if j == i { last } else { j };
        assert(s[j] == es[pj]);
    }
}

/// The clock after one tick; it stops at its largest value.
pub open spec fn next_tick(t: int) -> int {
    if t < u64::MAX {
        t + 1
    } else {
        t
    }
}

/// SET, GET and DEL keep keys unique.
pub proof fn lemma_unique_after(es: Seq<EntryModel>, k: Seq<char>, data: Seq<u8>, t: int)
    requires
        unique_keys(es),
    ensures
        unique_keys(store_set(es, k, data, t)),
        unique_keys(store_touch(es, k, t)),
        unique_keys(store_del(es, k)),
        has_key(store_set(es, k, data, t), k),
        lookup(store_set(es, k, data, t), k) == Some(data),
        !has_key(store_del(es, k), k),
{
    let s1 = store_set(es, k, data, t);
    assert forall|a: int, b: int| 0 <= a < b < s1.len() implies s1[a].key != s1[b].key by {
        if has_key(es, k) {
            let c = index_of(es, k);
            assert(key_at(es, k, c));
        } else if b == es.len() {
            assert(!key_at(es, k, a));
        }
    }
    let j = if has_key(es, k) {
        index_of(es, k)
    } else {
        es.len() as int
    };
    assert(key_at(s1, k, j));
    let c = index_of(s1, k);
    assert(c == j);
    let s2 = store_touch(es, k, t);
    assert forall|a: int, b: int| 0 <= a < b < s2.len() implies s2[a].key != s2[b].key by {
        if has_key(es, k) {
            let c = index_of(es, k);
            assert(key_at(es, k, c));
        }
    }
    if has_key(es, k) {
        let c = index_of(es, k);
        assert(key_at(es, k, c));
        lemma_take_out(es, c);
    }
}

/// A keyspace as the contracts see it.
pub struct KeyspaceModel {
    pub evictor: Evictor,
    pub sample_size: int,
    pub entries: Seq<EntryModel>,
    pub clock: int,
}

/// SET on a keyspace: the value is stored, stamped with the clock, and the
/// clock ticks.
pub open spec fn space_set(ks: KeyspaceModel, k: Seq<char>, data: Seq<u8>) -> KeyspaceModel {
    KeyspaceModel {
        entries: store_set(ks.entries, k, data, ks.clock),
        clock: next_tick(ks.clock),
        ..ks
    }
}

/// GET on a keyspace: the stored value, and the keyspace with that entry's
/// stamp refreshed and the clock ticked.
pub open spec fn space_get(ks: KeyspaceModel, k: Seq<char>) -> (Option<Seq<u8>>, KeyspaceModel) {
    (
        lookup(ks.entries, k),
        KeyspaceModel {
            entries: store_touch(ks.entries, k, ks.clock),
            clock: next_tick(ks.clock),
            ..ks
        },
    )
}

/// DEL on a keyspace: 1 and the keyspace without `k` when `k` was stored,
/// else 0 and the keyspace as it was.
pub open spec fn space_del(ks: KeyspaceModel, k: Seq<char>) -> (int, KeyspaceModel) {
    (
        if has_key(ks.entries, k) {
            1
        } else {
            0
        },
        KeyspaceModel { entries: store_del(ks.entries, k), ..ks },
    )
}

/// A new, empty keyspace.
pub open spec fn fresh_space(evictor: Evictor, sample_size: int) -> KeyspaceModel {
    KeyspaceModel { evictor, sample_size, entries: Seq::empty(), clock: 0 }
}

/// No stamp of the keyspace is ahead of its clock.
pub open spec fn stamps_behind(ks: KeyspaceModel) -> bool {
    forall|i: int| 0 <= i < ks.entries.len() ==> #[trigger] ks.entries[i].last_accessed <= ks.clock
}

/// An access never moves a stamp backward: GET and SET stamp the key they
/// touch with the clock, which is at least its old stamp, and keep every
/// stamp behind the clock.
pub proof fn lemma_access_moves_forward(ks: KeyspaceModel, k: Seq<char>, data: Seq<u8>)
    requires
        stamps_behind(ks),
        unique_keys(ks.entries),
    ensures
        stamps_behind(space_get(ks, k).1),
        stamps_behind(space_set(ks, k, data)),
        has_key(ks.entries, k) ==> {
            let i = index_of(ks.entries, k);
            &&& space_get(ks, k).1.entries[i].last_accessed == ks.clock
            &&& space_set(ks, k, data).entries[i].last_accessed == ks.clock
            &&& ks.clock >= ks.entries[i].last_accessed
        },
{
    if has_key(ks.entries, k) {
        let i = index_of(ks.entries, k);
        assert(key_at(ks.entries, k, i));
    }
    let g = space_get(ks, k).1;
    assert forall|j: int| 0 <= j < g.entries.len() implies #[trigger] g.entries[j].last_accessed <= g.clock by {
        if !has_key(ks.entries, k) || j != index_of(ks.entries, k) {
            assert(ks.entries[j].last_accessed <= ks.clock);
        }
    }
    let t = space_set(ks, k, data);
    assert forall|j: int| 0 <= j < t.entries.len() implies #[trigger] t.entries[j].last_accessed <= t.clock by {
        if j < ks.entries.len() && (!has_key(ks.entries, k) || j != index_of(ks.entries, k)) {
            assert(ks.entries[j].last_accessed <= ks.clock);
        }
    }
}

/// `v` is the last of the smallest stamps among the first `n`.
pub open spec fn last_oldest(stamps: Seq<int>, n: int, v: int) -> bool {
    &&& 0 <= v < n
    &&& forall|i: int| 0 <= i < n ==> stamps[v] <= #[trigger] stamps[i]
    &&& forall|i: int| v < i < n ==> stamps[v] < #[trigger] stamps[i]
}

/// The coin flip drawn for entry `i` came up true (a flip never drawn
/// counts as false).
pub open spec fn heads(flips: Seq<bool>, i: int) -> bool {
    0 <= i < flips.len() && flips[i]
}

/// `v` is the last of the first `n` coin flips that came up true.
pub open spec fn last_heads(flips: Seq<bool>, n: int, v: int) -> bool {
    &&& 0 <= v < n
    &&& heads(flips, v)
    &&& forall|i: int| v < i < n ==> !#[trigger] heads(flips, i)
}

/// The stamps of the first `n` entries.
pub open spec fn stamps_of(es: Seq<EntryModel>, n: int) -> Seq<int> {
    Seq::new(n as nat, |i: int| es[i].last_accessed)
}

/// How many entries one eviction pass looks at.
pub open spec fn window(sample_size: int, len: int) -> int {
    if sample_size < len {
        sample_size
    } else {
        len
    }
}

/// `after` is what one eviction pass can make of keyspace `before`, the
/// process's resident memory being at or over the cap (`over_cap`) or not.
/// The evictor, sample size and clock stay. Below the cap, for Noop, or
/// with an empty window nothing changes; otherwise at most one entry of the
/// window is taken out: for Lru the last of the least recently accessed,
/// for Random one picked by coin flips (or none).
pub open spec fn evict_pass(before: KeyspaceModel, after: KeyspaceModel, over_cap: bool) -> bool {
    let es = before.entries;
    let n = window(before.sample_size, es.len() as int);
    let es2 = after.entries;
    &&& after.evictor == before.evictor
    &&& after.sample_size == before.sample_size
    &&& after.clock == before.clock
    &&& (!over_cap || before.evictor is Noop || n == 0) ==> es2 == es
    &&& (over_cap && before.evictor is Lru && n > 0) ==> exists|v: int|
        last_oldest(stamps_of(es, n), n, v) && es2 == take_out(es, v)
    &&& before.evictor is Random ==> (es2 == es || exists|v: int| 0 <= v < n && es2 == take_out(es, v))
}

/// The victim of an eviction pass, among `stamps` (and, for Random, the
/// coin flips drawn for them): the last oldest entry for Lru, the last one
/// whose flip came up true for Random, none for Noop.
pub fn choose_victim(evictor: Evictor, stamps: &Vec<u64>, flips: &Vec<bool>) -> (r: Option<usize>)
    ensures
        evictor is Noop ==> r is None,
        evictor is Lru ==> (r is None <==> stamps.len() == 0),
        evictor is Lru ==> (r matches Some(v) ==> last_oldest(
            stamps@.map_values(|s: u64| s as int),
            stamps.len() as int,
            v as int,
        )),
        evictor is Random ==> (r matches Some(v) ==> last_heads(flips@, stamps.len() as int, v as int)),
        evictor is Random ==> (r is None <==> forall|i: int|
            0 <= i < stamps.len() ==> !#[trigger] heads(flips@, i)),
{
    let ghost ss = stamps@.map_values(|s: u64| s as int);
    let n = stamps.len();
    let mut victim: Option<usize> = None;
    let mut i: usize = 0;
    while i < n
        invariant
            n == stamps.len(),
            ss == stamps@.map_values(|s: u64| s as int),
            i <= n,
            evictor is Noop ==> victim is None,
            evictor is Lru ==> (victim is None <==> i == 0),
            evictor is Lru ==> (victim matches Some(v) ==> last_oldest(ss, i as int, v as int)),
            evictor is Random ==> (victim matches Some(v) ==> last_heads(flips@, i as int, v as int)),
            evictor is Random ==> (victim is None <==> forall|j: int|
                0 <= j < i ==> !#[trigger] heads(flips@, j)),
        decreases n - i,
    {
        match evictor {
            Evictor::Random => {
                if i < flips.len() && flips[i] {
                    assert(heads(flips@, i as int));
                    victim = Some(i);
                } else {
                    assert(!heads(flips@, i as int));
                }
            },
            Evictor::Lru => {
                match victim {
                    None => {
                        victim = Some(i);
                    },
                    Some(v) => {
                        if stamps[i] <= stamps[v] {
                            victim = Some(i);
                        }
                    },
                }
            },
            Evictor::Noop => {},
        }
        i = i + 1;
    }
    victim
}

/// Relies on `rand::random::<bool>`: a fair coin; nothing is promised of
/// its value.
#[verifier::external_body]
fn coin_flip() -> (r: bool) {
    rand::random::<bool>()
}

/// Lists position `pos` under hash `h`.
fn index_add(index: &mut HashMap<u64, Vec<usize>>, h: u64, pos: usize)
    ensures
        forall|g: u64| g != h ==> #[trigger] final(index)@.contains_key(g) == old(index)@.contains_key(g),
        forall|g: u64| g != h && old(index)@.contains_key(g) ==> #[trigger] final(index)@[g] == old(index)@[g],
        final(index)@.contains_key(h),
        forall|p: usize| #[trigger] final(index)@[h]@.contains(p) <==> (p == pos || (old(index)@.contains_key(h)
            && old(index)@[h]@.contains(p))),
{
    let ghost before = index@;
    let mut bucket = match index.remove(&h) {
        Some(b) => b,
        None => Vec::new(),
    };
    let ghost prev = bucket@;
    bucket.push(pos);
    proof {
        assert forall|p: usize| #[trigger] bucket@.contains(p) <==> (p == pos || prev.contains(p)) by {
            if prev.contains(p) {
                let t = choose|t: int| 0 <= t < prev.len() && prev[t] == p;
                assert(bucket@[t] == p);
            }
            if p == pos {
                assert(bucket@[prev.len() as int] == p);
            }
        }
    }
    index.insert(h, bucket);
}

/// The positions of `bucket` with `i` dropped and `last` renamed `i`.
fn relabel(bucket: &Vec<usize>, i: usize, last: usize) -> (r: Vec<usize>)
    ensures
        forall|p: usize| #[trigger] r@.contains(p) <==> ((bucket@.contains(p) && p != i && p != last) || (p
            == i && i != last && bucket@.contains(last))),
{
    let mut r: Vec<usize> = Vec::new();
    let mut q: usize = 0;
    while q < bucket.len()
        invariant
            q <= bucket@.len(),
            forall|p: usize| #[trigger] r@.contains(p) <==> ((bucket@.subrange(0, q as int).contains(p) && p
                != i && p != last) || (p == i && i != last && bucket@.subrange(0, q as int).contains(last))),
        decreases bucket@.len() - q,
    {
        let p = bucket[q];
        let ghost before = r@;
        if p == i {
        } else if p == last {
            r.push(i);
        } else {
            r.push(p);
        }
        proof {
            let s0 = bucket@.subrange(0, q as int);
            let s1 = bucket@.subrange(0, q + 1);
            let y = if p == last {
                i
            } else {
                p
            };
            assert(s1 =~= s0.push(p));
            assert forall|z: usize| s1.contains(z) <==> (s0.contains(z) || z == p) by {
                if s0.contains(z) {
                    let t = choose|t: int| 0 <= t < s0.len() && s0[t] == z;
                    assert(s1[t] == z);
                }
                if s1.contains(z) && z != p {
                    let t = choose|t: int| 0 <= t < s1.len() && s1[t] == z;
                    assert(t < s0.len() && s0[t] == z);
                }
                if z == p {
                    assert(s1[s0.len() as int] == z);
                }
            }
            assert forall|x: usize| r@.contains(x) <==> (before.contains(x) || (p != i && x == y)) by {
                if p != i {
                    assert(r@ =~= before.push(y));
                    if before.contains(x) {
                        let t = choose|t: int| 0 <= t < before.len() && before[t] == x;
                        assert(r@[t] == x);
                    }
                    if r@.contains(x) && x != y {
                        let t = choose|t: int| 0 <= t < r@.len() && r@[t] == x;
                        assert(t < before.len() && before[t] == x);
                    }
                    if x == y {
                        assert(r@[before.len() as int] == x);
                    }
                }
            }
            assert forall|x: usize| #[trigger] r@.contains(x) <==> ((s1.contains(x) && x != i && x != last) || (x
                == i && i != last && s1.contains(last))) by {
                assert(before.contains(x) <==> ((s0.contains(x) && x != i && x != last) || (x == i && i
                    != last && s0.contains(last))));
                assert(s1.contains(x) <==> (s0.contains(x) || x == p));
                assert(s1.contains(last) <==> (s0.contains(last) || last == p));
            }
        }
        q = q + 1;
    }
    assert(bucket@.subrange(0, q as int) =~= bucket@);
    r
}

/// Re-lists bucket `h` for taking out position `i` (the last, `last`,
/// moving into its place).
fn index_relabel(index: &mut HashMap<u64, Vec<usize>>, h: u64, i: usize, last: usize)
    requires
        old(index)@.contains_key(h),
    ensures
        forall|g: u64| g != h ==> #[trigger] final(index)@.contains_key(g) == old(index)@.contains_key(g),
        forall|g: u64| g != h && old(index)@.contains_key(g) ==> #[trigger] final(index)@[g] == old(index)@[g],
        final(index)@.contains_key(h),
        forall|p: usize| #[trigger] final(index)@[h]@.contains(p) <==> ((old(index)@[h]@.contains(p) && p != i
            && p != last) || (p == i && i != last && old(index)@[h]@.contains(last))),
{
    let bucket = match index.remove(&h) {
        Some(b) => b,
        None => Vec::new(),
    };
    let moved = relabel(&bucket, i, last);
    index.insert(h, moved);
}

/// A named store with its eviction policy.
#[derive(Debug)]
pub struct Keyspace {
    evictor: Evictor,
    server_max_memory: u64,
    max_memory_sample_size: usize,
    entries: Vec<Entry>,
    index: HashMap<u64, Vec<usize>>,
    clock: u64,
}

impl Keyspace {
    /// Keys are unique, no stamp is ahead of the clock, and the index lists
    /// each position under its key's hash, and nothing else.
    pub closed spec fn wf(&self) -> bool {
        &&& unique_keys(self.entries())
        &&& forall|i: int| 0 <= i < self.entries@.len() ==> #[trigger] self.entries@[i].value.last_accessed
            <= self.clock
        &&& indexed(self.entries@, self.index@)
    }

    pub closed spec fn entries(&self) -> Seq<EntryModel> {
        Seq::new(self.entries@.len(), |i: int| self.entries@[i].model())
    }

    /// A well-formed keyspace has unique keys.
    pub proof fn lemma_unique_keys(&self)
        requires
            self.wf(),
        ensures
            unique_keys(self.model().entries),
    {
    }

    /// In a well-formed keyspace no stored stamp is ahead of the clock.
    pub proof fn lemma_stamps_behind_clock(&self)
        requires
            self.wf(),
        ensures
            stamps_behind(self.model()),
    {
        assert forall|i: int| 0 <= i < self.model().entries.len() implies #[trigger] self.model().entries[i].last_accessed
            <= self.model().clock by {
            assert(self.entries@[i].value.last_accessed <= self.clock);
        }
    }

    pub closed spec fn model(&self) -> KeyspaceModel {
        KeyspaceModel {
            evictor: self.evictor,
            sample_size: self.max_memory_sample_size as int,
            entries: self.entries(),
            clock: self.clock as int,
        }
    }

    /// The memory cap, in bytes, above which this keyspace evicts.
    pub closed spec fn memory_cap(&self) -> int {
        self.server_max_memory as int
    }

    pub fn new(evictor: Evictor, server_max_memory: u64, max_memory_sample_size: usize) -> (k:
        Keyspace)
        ensures
            k.wf(),
            k.model() == fresh_space(evictor, max_memory_sample_size as int),
            k.memory_cap() == server_max_memory,
    {
        let k = Keyspace {
            evictor,
            server_max_memory,
            max_memory_sample_size,
            entries: Vec::new(),
            index: HashMap::new(),
            clock: 0,
        };
        assert(k.entries() =~= Seq::<EntryModel>::empty());
        k
    }

    pub fn evictor(&self) -> (r: Evictor)
        ensures
            r == self.model().evictor,
    {
        self.evictor
    }

    pub fn max_memory_sample_size(&self) -> (r: usize)
        ensures
            r == self.model().sample_size,
    {
        self.max_memory_sample_size
    }

    /// How many keys the keyspace holds.
    pub fn len(&self) -> (r: usize)
        ensures
            r == self.model().entries.len(),
    {
        self.entries.len()
    }

    /// Where `key` sits, if it is stored.
    fn find(&self, key: &str) -> (r: Option<usize>)
        requires
            self.wf(),
        ensures
            r matches Some(i) ==> key_at(self.entries(), key@, i as int) && i == index_of(
                self.entries(),
                key@,
            ),
            r is None ==> !has_key(self.entries(), key@),
    {
        let h = hash_key(key);
        let bucket = match self.index.get(&h) {
            Some(b) => b,
            None => {
                assert(!has_key(self.entries(), key@)) by {
                    if has_key(self.entries(), key@) {
                        let j = choose|j: int| key_at(self.entries(), key@, j);
                        assert(listed(self.entries@, self.index@, j));
                    }
                }
                return None;
            },
        };
        let mut q: usize = 0;
        while q < bucket.len()
            invariant
                self.wf(),
                self.index@.contains_key(h),
                self.index@[h] == *bucket,
                h == key_hash(key@),
                q <= bucket@.len(),
                forall|t: int| 0 <= t < q ==> !key_at(self.entries(), key@, #[trigger] bucket@[t] as int),
            decreases bucket@.len() - q,
        {
            let p = bucket[q];
            assert(bucket@.contains(p));
            if text_eq(self.entries[p].key.as_str(), key) {
                proof {
                    let es = self.entries();
                    assert(key_at(es, key@, p as int));
                    let c = index_of(es, key@);
                    assert(key_at(es, key@, c));
                }
                return Some(p);
            }
            q = q + 1;
        }
        assert(!has_key(self.entries(), key@)) by {
            let es = self.entries();
            if has_key(es, key@) {
                let j = choose|j: int| key_at(es, key@, j);
                assert(listed(self.entries@, self.index@, j));
                assert(key_hash(self.entries@[j].key@) == h);
                assert(j < self.entries.len());
                assert(bucket@.contains(j as usize));
                let t = choose|t: int| 0 <= t < bucket@.len() && bucket@[t] == j as usize;
                assert(bucket@[t] as int == j);
                assert(!key_at(es, key@, bucket@[t] as int));
            }
        }
        None
    }

    fn tick(&mut self)
        requires
            old(self).wf(),
        ensures
            final(self).wf(),
            final(self).clock as int == next_tick(old(self).clock as int),
            final(self).entries == old(self).entries,
            final(self).index == old(self).index,
            final(self).evictor == old(self).evictor,
            final(self).max_memory_sample_size == old(self).max_memory_sample_size,
            final(self).server_max_memory == old(self).server_max_memory,
    {
        if self.clock < u64::MAX {
            self.clock = self.clock + 1;
        }
    }

    /// Replaces the entry at `i` by one with the same key.
    fn restamp(&mut self, i: usize, entry: Entry)
        requires
            old(self).wf(),
            i < old(self).entries@.len(),
            entry.key@ == old(self).entries@[i as int].key@,
            entry.value.last_accessed <= old(self).clock,
        ensures
            final(self).wf(),
            final(self).entries@ == old(self).entries@.update(i as int, entry),
            final(self).index == old(self).index,
            final(self).clock == old(self).clock,
            final(self).evictor == old(self).evictor,
            final(self).max_memory_sample_size == old(self).max_memory_sample_size,
            final(self).server_max_memory == old(self).server_max_memory,
    {
        let ghost es = self.entries@;
        let ghost old_model = self.entries();
        self.entries.set(i, entry);
        proof {
            let es2 = self.entries@;
            assert forall|j: int| 0 <= j < es2.len() implies #[trigger] listed(es2, self.index@, j) by {
                assert(listed(es, self.index@, j));
            }
            assert forall|h: u64, p: usize|
                self.index@.contains_key(h) && #[trigger] self.index@[h]@.contains(p) implies p < es2.len()
                    && key_hash(es2[p as int].key@) == h by {
                assert(p < es.len() && key_hash(es[p as int].key@) == h);
            }
            let m2 = self.entries();
            assert forall|a: int, b: int| 0 <= a < b < m2.len() implies m2[a].key != m2[b].key by {
                assert(old_model[a].key != old_model[b].key);
            }
        }
    }

    /// Takes out the entry at `i`; the last entry moves into its place.
    fn remove_at(&mut self, i: usize)
        requires
            old(self).wf(),
            i < old(self).entries@.len(),
        ensures
            final(self).wf(),
            final(self).entries() == take_out(old(self).entries(), i as int),
            final(self).clock == old(self).clock,
            final(self).evictor == old(self).evictor,
            final(self).max_memory_sample_size == old(self).max_memory_sample_size,
            final(self).server_max_memory == old(self).server_max_memory,
    {
        let ghost es = self.entries@;
        let ghost ix = self.index@;
        let ghost model = self.entries();
        let last = self.entries.len() - 1;
        let hi = hash_key(self.entries[i].key.as_str());
        let hl = hash_key(self.entries[last].key.as_str());
        proof {
            assert(listed(es, ix, i as int));
            assert(listed(es, ix, last as int));
        }
        index_relabel(&mut self.index, hi, i, last);
        if hl != hi {
            index_relabel(&mut self.index, hl, i, last);
        }
        self.entries.swap_remove(i);
        proof {
            let es2 = self.entries@;
            let ix2 = self.index@;
            assert(es2 =~= es.update(i as int, es[last as int]).drop_last());
            // both buckets that changed are relabelled versions of the old ones
            assert forall|h: u64, p: usize| #[trigger] ix2[h]@.contains(p) && ix2.contains_key(h) && (h == hi
                || h == hl) implies ((ix[h]@.contains(p) && p != i && p != last) || (p == i && i != last
                && ix[h]@.contains(last))) by {}
            assert forall|j: int| 0 <= j < es2.len() implies #[trigger] listed(es2, ix2, j) by {
                if j == i as int {
                    assert(es2[j] == es[last as int]);
                    assert(ix[hl]@.contains(last));
                } else {
                    assert(es2[j] == es[j]);
                    assert(listed(es, ix, j));
                    let hj = key_hash(es[j].key@);
                    assert(ix[hj]@.contains(j as usize));
                }
            }
            assert forall|h: u64, p: usize|
                ix2.contains_key(h) && #[trigger] ix2[h]@.contains(p) implies p < es2.len() && key_hash(
                    es2[p as int].key@,
                ) == h by {
                if h == hi || h == hl {
                    if p == i && i != last && ix[h]@.contains(last) {
                        assert(key_hash(es[last as int].key@) == h);
                    } else {
                        assert(ix[h]@.contains(p));
                        assert(p < es.len() && key_hash(es[p as int].key@) == h);
                    }
                } else {
                    assert(ix[h]@.contains(p));
                    assert(p < es.len() && key_hash(es[p as int].key@) == h);
                    assert(p != i && p != last);
                }
            }
            lemma_take_out(model, i as int);
            assert(self.entries() =~= take_out(model, i as int));
        }
    }

    /// SET: stores `value` under `key`; always answers 1.
    pub fn set(&mut self, key: String, value: Bytes) -> (r: u8)
        requires
            old(self).wf(),
        ensures
            final(self).wf(),
            r == 1,
            final(self).model() == space_set(old(self).model(), key@, bytes_content(value)),
            final(self).memory_cap() == old(self).memory_cap(),
    {
        let ghost es = self.entries();
        let ghost k = key@;
        let ghost data = bytes_content(value);
        let ghost t = self.clock as int;
        let now = self.clock;
        match self.find(key.as_str()) {
            Some(i) => {
                let entry = Entry { key, value: Value::new(value, now) };
                self.restamp(i, entry);
                assert(self.entries() =~= store_set(es, k, data, t));
            },
            None => {
                let h = hash_key(key.as_str());
                let pos = self.entries.len();
                let ghost ents = self.entries@;
                let ghost ix = self.index@;
                let entry = Entry { key, value: Value::new(value, now) };
                self.entries.push(entry);
                index_add(&mut self.index, h, pos);
                proof {
                    let es2 = self.entries@;
                    let ix2 = self.index@;
                    assert forall|j: int| 0 <= j < es2.len() implies #[trigger] listed(es2, ix2, j) by {
                        if j < pos {
                            assert(listed(ents, ix, j));
                            assert(es2[j] == ents[j]);
                        }
                    }
                    assert forall|g: u64, p: usize|
                        ix2.contains_key(g) && #[trigger] ix2[g]@.contains(p) implies p < es2.len()
                            && key_hash(es2[p as int].key@) == g by {
                        if g != h || p != pos {
                            assert(ix[g]@.contains(p));
                            assert(p < ents.len());
                            assert(es2[p as int] == ents[p as int]);
                        }
                    }
                    assert(self.entries() =~= store_set(es, k, data, t));
                    let m2 = self.entries();
                    assert forall|a: int, b: int| 0 <= a < b < m2.len() implies m2[a].key != m2[b].key by {
                        if b == es.len() {
                            assert(!key_at(es, k, a));
                        }
                    }
                }
            },
        }
        self.tick();
        1
    }

    /// GET: the value under `key`, whose stamp is refreshed.
    pub fn get(&mut self, key: &str) -> (r: Option<Bytes>)
        requires
            old(self).wf(),
        ensures
            final(self).wf(),
            r matches Some(b) ==> space_get(old(self).model(), key@).0 == Some(bytes_content(b)),
            r is None ==> space_get(old(self).model(), key@).0 is None,
            final(self).model() == space_get(old(self).model(), key@).1,
            final(self).memory_cap() == old(self).memory_cap(),
    {
        let ghost es = self.entries();
        let ghost t = self.clock as int;
        let now = self.clock;
        let r = match self.find(key) {
            Some(i) => {
                let data = bytes_clone(&self.entries[i].value.data);
                let stored = bytes_clone(&self.entries[i].value.data);
                let k = self.entries[i].key.clone();
                self.restamp(i, Entry { key: k, value: Value::new(stored, now) });
                Some(data)
            },
            None => None,
        };
        assert(self.entries() =~= store_touch(es, key@, t));
        self.tick();
        r
    }

    /// DEL: removes `key`; answers 1 when it was there, else 0.
    pub fn del(&mut self, key: &str) -> (r: u8)
        requires
            old(self).wf(),
        ensures
            final(self).wf(),
            r == space_del(old(self).model(), key@).0,
            final(self).model() == space_del(old(self).model(), key@).1,
            final(self).memory_cap() == old(self).memory_cap(),
    {
        match self.find(key) {
            Some(i) => {
                self.remove_at(i);
                1
            },
            None => 0,
        }
    }

    /// One eviction pass, run when the process's resident memory is `rss`
    /// bytes. Below the cap nothing happens; otherwise the pass looks at the
    /// first entries (as many as the sample size allows) and removes at most
    /// one of them: for Lru the least recently accessed (the last such on a
    /// tie), for Random one picked by coin flips, for Noop none.
    pub fn sample_and_evict(&mut self, rss: u64)
        requires
            old(self).wf(),
        ensures
            final(self).wf(),
            final(self).memory_cap() == old(self).memory_cap(),
            evict_pass(old(self).model(), final(self).model(), rss >= old(self).memory_cap()),
    {
        let ghost es = self.entries();
        if rss < self.server_max_memory {
            return;
        }
        if let Evictor::Noop = self.evictor {
            return;
        }
        let len = self.entries.len();
        let n = if self.max_memory_sample_size < len {
            self.max_memory_sample_size
        } else {
            len
        };
        let mut stamps: Vec<u64> = Vec::new();
        let mut flips: Vec<bool> = Vec::new();
        let mut i: usize = 0;
        while i < n
            invariant
                n <= self.entries@.len(),
                es == self.entries(),
                i <= n,
                stamps.len() == i,
                flips.len() == i,
                forall|j: int| 0 <= j < i ==> #[trigger] stamps@[j] as int == es[j].last_accessed,
            decreases n - i,
        {
            stamps.push(self.entries[i].value.last_accessed);
            let flip = match self.evictor {
                Evictor::Random => coin_flip(),
                _ => false,
            };
            flips.push(flip);
            i = i + 1;
        }
        let ghost ss = stamps@.map_values(|s: u64| s as int);
        assert(ss =~= stamps_of(es, n as int));
        match choose_victim(self.evictor, &stamps, &flips) {
            Some(v) => {
                self.remove_at(v);
            },
            None => {},
        }
    }
}

/// The error of an operation on a keyspace that was never created.
#[derive(Debug, Clone, PartialEq, Eq)]
pub struct KeyspaceError {
    name: String,
}

impl KeyspaceError {
    pub closed spec fn name(&self) -> Seq<char> {
        self.name@
    }

    /// The name that was looked up.
    pub fn keyspace(&self) -> (r: &str)
        ensures
            r@ == self.name(),
    {
        self.name.as_str()
    }
}

/// The keyspaces by name, as the contracts see them: `names[i]` names
/// `spaces[i]`.
pub struct ManagerModel {
    pub names: Seq<Seq<char>>,
    pub spaces: Seq<KeyspaceModel>,
}

/// Where keyspace `name` sits.
pub open spec fn space_index(m: ManagerModel, name: Seq<char>) -> Option<int> {
    if exists|i: int| 0 <= i < m.names.len() && m.names[i] == name {
        Some(choose|i: int| 0 <= i < m.names.len() && m.names[i] == name)
    } else {
        None
    }
}

/// CREATE: a new keyspace under a new name answers 1; a name already taken
/// answers 0 and changes nothing.
pub open spec fn manager_create(m: ManagerModel, name: Seq<char>, evictor: Evictor, sample_size: int) -> (
    ManagerModel,
    int,
) {
    match space_index(m, name) {
        Some(_) => (m, 0),
        None => (
            ManagerModel {
                names: m.names.push(name),
                spaces: m.spaces.push(fresh_space(evictor, sample_size)),
            },
            1,
        ),
    }
}

/// The memory cap in bytes for a cap configured in megabytes.
pub open spec fn cap_bytes(megabytes: int) -> int {
    if megabytes * BYTES_PER_MEGABYTE <= u64::MAX {
        megabytes * BYTES_PER_MEGABYTE
    } else {
        u64::MAX as int
    }
}

/// The keyspaces of the server, by name. A name, once created, keeps its
/// keyspace; there is no way to remove one.
#[derive(Debug)]
pub struct KeyspaceManager {
    server_max_memory: u64,
    names: Vec<String>,
    keyspaces: Vec<Keyspace>,
}

impl KeyspaceManager {
    /// Names are unique, and each keyspace is well formed and evicts
    /// against the server's cap.
    pub closed spec fn wf(&self) -> bool {
        &&& self.names@.len() == self.keyspaces@.len()
        &&& forall|i: int, j: int|
            0 <= i < j < self.names@.len() ==> self.names@[i]@ != self.names@[j]@
        &&& forall|i: int| 0 <= i < self.keyspaces@.len() ==> (#[trigger] self.keyspaces@[i]).wf()
        &&& forall|i: int|
            0 <= i < self.keyspaces@.len() ==> (#[trigger] self.keyspaces@[i]).memory_cap()
                == self.server_max_memory
    }

    pub closed spec fn model(&self) -> ManagerModel {
        ManagerModel {
            names: Seq::new(self.names@.len(), |i: int| self.names@[i]@),
            spaces: Seq::new(self.keyspaces@.len(), |i: int| self.keyspaces@[i].model()),
        }
    }

    /// The cap, in bytes, on the resident memory of the process.
    pub closed spec fn memory_cap(&self) -> int {
        self.server_max_memory as int
    }

    /// A manager with no keyspace, whose cap is `server_max_memory`
    /// megabytes.
    pub fn new(server_max_memory: u64) -> (m: KeyspaceManager)
        ensures
            m.wf(),
            m.model().names.len() == 0,
            m.model().spaces.len() == 0,
            m.memory_cap() == cap_bytes(server_max_memory as int),
    {
        let cap = if server_max_memory <= u64::MAX / BYTES_PER_MEGABYTE {
            server_max_memory * BYTES_PER_MEGABYTE
        } else {
            u64::MAX
        };
        KeyspaceManager { server_max_memory: cap, names: Vec::new(), keyspaces: Vec::new() }
    }

    /// A well-formed manager keeps each key once in every keyspace, and
    /// has one name per keyspace.
    pub proof fn lemma_model_wf(&self)
        requires
            self.wf(),
        ensures
            self.model().names.len() == self.model().spaces.len(),
            forall|i: int|
                0 <= i < self.model().spaces.len() ==> unique_keys(
                    #[trigger] self.model().spaces[i].entries,
                ),
    {
        assert forall|i: int| 0 <= i < self.model().spaces.len() implies unique_keys(
            #[trigger] self.model().spaces[i].entries,
        ) by {
            assert(self.keyspaces@[i].wf());
        }
    }

    /// Where keyspace `name` sits, if it exists.
    fn find(&self, name: &str) -> (r: Option<usize>)
        requires
            self.wf(),
        ensures
            r matches Some(i) ==> space_index(self.model(), name@) == Some(i as int) && i
                < self.keyspaces@.len(),
            r is None ==> space_index(self.model(), name@) is None,
    {
        let ghost m = self.model();
        let mut i: usize = 0;
        while i < self.names.len()
            invariant
                self.wf(),
                m == self.model(),
                i <= self.names@.len(),
                forall|j: int| 0 <= j < i ==> m.names[j] != name@,
            decreases self.names@.len() - i,
        {
            if text_eq(self.names[i].as_str(), name) {
                proof {
                    assert(m.names[i as int] == name@);
                    let c = choose|c: int| 0 <= c < m.names.len() && m.names[c] == name@;
                    assert(self.names@[c]@ == self.names@[i as int]@);
                    assert(c == i as int);
                }
                return Some(i);
            }
            i = i + 1;
        }
        None
    }

    /// CREATE: answers 1 when `name` was free and now holds a new, empty
    /// keyspace; 0 when it was taken, leaving that keyspace as it was.
    pub fn create(&mut self, name: String, evictor: Evictor, max_memory_sample_size: usize) -> (r:
        u8)
        requires
            old(self).wf(),
        ensures
            final(self).wf(),
            final(self).memory_cap() == old(self).memory_cap(),
            (final(self).model(), r as int) == manager_create(
                old(self).model(),
                name@,
                evictor,
                max_memory_sample_size as int,
            ),
    {
        let ghost m = self.model();
        if let Some(_) = self.find(name.as_str()) {
            return 0;
        }
        let ghost n = name@;
        let keyspace = Keyspace::new(evictor, self.server_max_memory, max_memory_sample_size);
        self.names.push(name);
        self.keyspaces.push(keyspace);
        proof {
            assert forall|i: int| 0 <= i < m.names.len() implies self.names@[i]@ != n by {
                assert(m.names[i] != n);
            }
        }
        assert(self.model().names =~= m.names.push(n));
        assert(self.model().spaces =~= m.spaces.push(
            fresh_space(evictor, max_memory_sample_size as int),
        ));
        1
    }

    fn missing(name: &str) -> (e: KeyspaceError)
        ensures
            e.name() == name@,
    {
        KeyspaceError { name: name.to_owned() }
    }

    /// SET `key` in keyspace `keyspace`.
    pub fn set(&mut self, keyspace: &str, key: String, value: Bytes) -> (r: Result<u8, KeyspaceError>)
        requires
            old(self).wf(),
        ensures
            final(self).wf(),
            final(self).memory_cap() == old(self).memory_cap(),
            match space_index(old(self).model(), keyspace@) {
                None => r matches Err(e) && e.name() == keyspace@ && final(self).model() == old(self).model(),
                Some(i) => r == Ok::<u8, KeyspaceError>(1) && final(self).model() == (ManagerModel {
                    spaces: old(self).model().spaces.update(
                        i,
                        space_set(old(self).model().spaces[i], key@, bytes_content(value)),
                    ),
                    ..old(self).model()
                }),
            },
    {
        let ghost m = self.model();
        match self.find(keyspace) {
            None => Err(Self::missing(keyspace)),
            Some(i) => {
                let ghost k = key@;
                let ghost v = bytes_content(value);
                let mut ks = self.keyspaces.remove(i);
                assert(ks == old(self).keyspaces@[i as int]);
                assert(ks.model() == m.spaces[i as int]);
                let r = ks.set(key, value);
                assert(ks.model() == space_set(m.spaces[i as int], k, v));
                self.keyspaces.insert(i, ks);
                assert(self.model().spaces =~= m.spaces.update(i as int, ks.model()));
                assert(self.model().names =~= m.names);
                Ok(r)
            },
        }
    }

    /// GET `key` from keyspace `keyspace`.
    pub fn get(&mut self, keyspace: &str, key: &str) -> (r: Result<Option<Bytes>, KeyspaceError>)
        requires
            old(self).wf(),
        ensures
            final(self).wf(),
            final(self).memory_cap() == old(self).memory_cap(),
            match space_index(old(self).model(), keyspace@) {
                None => r matches Err(e) && e.name() == keyspace@ && final(self).model() == old(self).model(),
                Some(i) => r matches Ok(found) && (match found {
                    Some(b) => space_get(old(self).model().spaces[i], key@).0 == Some(
                        bytes_content(b),
                    ),
                    None => space_get(old(self).model().spaces[i], key@).0 is None,
                }) && final(self).model() == (ManagerModel {
                    spaces: old(self).model().spaces.update(
                        i,
                        space_get(old(self).model().spaces[i], key@).1,
                    ),
                    ..old(self).model()
                }),
            },
    {
        let ghost m = self.model();
        match self.find(keyspace) {
            None => Err(Self::missing(keyspace)),
            Some(i) => {
                let mut ks = self.keyspaces.remove(i);
                assert(ks == old(self).keyspaces@[i as int]);
                let r = ks.get(key);
                self.keyspaces.insert(i, ks);
                assert(self.model().spaces =~= m.spaces.update(i as int, ks.model()));
                assert(self.model().names =~= m.names);
                Ok(r)
            },
        }
    }

    /// DEL `key` from keyspace `keyspace`.
    pub fn del(&mut self, keyspace: &str, key: &str) -> (r: Result<u8, KeyspaceError>)
        requires
            old(self).wf(),
        ensures
            final(self).wf(),
            final(self).memory_cap() == old(self).memory_cap(),
            match space_index(old(self).model(), keyspace@) {
                None => r matches Err(e) && e.name() == keyspace@ && final(self).model() == old(self).model(),
                Some(i) => r matches Ok(n) && n as int == space_del(old(self).model().spaces[i], key@).0
                    && final(self).model() == (ManagerModel {
                    spaces: old(self).model().spaces.update(
                        i,
                        space_del(old(self).model().spaces[i], key@).1,
                    ),
                    ..old(self).model()
                }),
            },
    {
        let ghost m = self.model();
        match self.find(keyspace) {
            None => Err(Self::missing(keyspace)),
            Some(i) => {
                let mut ks = self.keyspaces.remove(i);
                assert(ks == old(self).keyspaces@[i as int]);
                let r = ks.del(key);
                self.keyspaces.insert(i, ks);
                assert(self.model().spaces =~= m.spaces.update(i as int, ks.model()));
                assert(self.model().names =~= m.names);
                Ok(r)
            },
        }
    }

    /// One eviction pass on keyspace `keyspace`, the process's resident
    /// memory being `rss` bytes (see `Keyspace::sample_and_evict`).
    pub fn sample_and_evict(&mut self, keyspace: &str, rss: u64) -> (r: Result<(), KeyspaceError>)
        requires
            old(self).wf(),
        ensures
            final(self).wf(),
            final(self).memory_cap() == old(self).memory_cap(),
            final(self).model().names == old(self).model().names,
            final(self).model().spaces.len() == old(self).model().spaces.len(),
            match space_index(old(self).model(), keyspace@) {
                None => r matches Err(e) && e.name() == keyspace@ && final(self).model() == old(self).model(),
                Some(i) => r is Ok && final(self).model().spaces == old(self).model().spaces.update(
                    i,
                    final(self).model().spaces[i],
                ) && evict_pass(
                    old(self).model().spaces[i],
                    final(self).model().spaces[i],
                    rss >= old(self).memory_cap(),
                ),
            },
            forall|j: int|
                0 <= j < old(self).model().spaces.len() && old(self).model().spaces[j].evictor is Noop
                    ==> #[trigger] final(self).model().spaces[j] == old(self).model().spaces[j],
    {
        let ghost m = self.model();
        match self.find(keyspace) {
            None => Err(Self::missing(keyspace)),
            Some(i) => {
                let mut ks = self.keyspaces.remove(i);
                assert(ks == old(self).keyspaces@[i as int]);
                assert(ks.memory_cap() == self.server_max_memory);
                ks.sample_and_evict(rss);
                self.keyspaces.insert(i, ks);
                assert(self.model().spaces =~= m.spaces.update(i as int, ks.model()));
                assert(self.model().names =~= m.names);
                Ok(())
            },
        }
    }

    /// The evictor and sample size of keyspace `keyspace`.
    pub fn settings(&self, keyspace: &str) -> (r: Result<(Evictor, usize), KeyspaceError>)
        requires
            self.wf(),
        ensures
            match space_index(self.model(), keyspace@) {
                None => r matches Err(e) && e.name() == keyspace@,
                Some(i) => r == Ok::<(Evictor, usize), KeyspaceError>(
                    (self.model().spaces[i].evictor, self.model().spaces[i].sample_size as usize),
                ),
            },
    {
        match self.find(keyspace) {
            None => Err(Self::missing(keyspace)),
            Some(i) => Ok((self.keyspaces[i].evictor(), self.keyspaces[i].max_memory_sample_size())),
        }
    }
}

/// What wakes a keyspace's background evictor.
#[derive(Debug, Clone, Copy, PartialEq, Eq, Structural)]
pub enum EvictorEvent {
    /// The period between passes has elapsed.
    Tick,
    /// The keyspace's notifier fired.
    Woken,
}

/// What the background evictor does next.
#[derive(Debug, Clone, Copy, PartialEq, Eq, Structural)]
pub enum EvictorAction {
    /// Read the process's memory and run one eviction pass.
    Sample,
    /// Wait for the next event.
    Wait,
    /// Stop for good.
    Exit,
}

/// The background evictor's decision on waking: once the keyspace's
/// shutdown flag is set it exits; otherwise a tick runs a pass and any other
/// wake-up waits again.
pub fn evictor_step(shutdown: bool, event: EvictorEvent) -> (r: EvictorAction)
    ensures
        shutdown ==> r == EvictorAction::Exit,
        !shutdown && event == EvictorEvent::Tick ==> r == EvictorAction::Sample,
        !shutdown && event == EvictorEvent::Woken ==> r == EvictorAction::Wait,
{
    if shutdown {
        EvictorAction::Exit
    } else {
        match event {
            EvictorEvent::Tick => EvictorAction::Sample,
            EvictorEvent::Woken => EvictorAction::Wait,
        }
    }
}

} // verus!
