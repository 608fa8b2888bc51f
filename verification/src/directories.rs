//! A set of directories, looked up by a hash of their components.

use std::collections::HashMap;

use vstd::prelude::*;

use crate::path::PathParts;

verus! {

broadcast use vstd::std_specs::hash::group_hash_axioms;

/// The hash of no bytes, and the multiplier of the hash.
const HASH_START: u64 = 0xcbf2_9ce4_8422_2325;

const HASH_STEP: u64 = 0x0000_0100_0000_01b3;

/// A set of directories.
pub struct DirectorySet {
    buckets: HashMap<u64, Vec<PathParts>>,
}

spec fn hash_bytes(start: u64, bytes: Seq<u8>) -> u64
    decreases bytes.len(),
{
    if bytes.len() == 0 {
        start
    } else {
        ((hash_bytes(start, bytes.drop_last()) ^ (bytes.last() as u64)).wrapping_mul(HASH_STEP)) as u64
    }
}

spec fn hash_parts(parts: Seq<Seq<u8>>) -> u64
    decreases parts.len(),
{
    if parts.len() == 0 {
        HASH_START
    } else {
        hash_bytes(hash_parts(parts.drop_last()), parts.last())
    }
}

spec fn listed(bucket: Seq<PathParts>, dir: Seq<Seq<u8>>) -> bool {
    exists|i: int| 0 <= i < bucket.len() && (#[trigger] bucket[i])@ == dir
}

impl View for DirectorySet {
    type V = Set<Seq<Seq<u8>>>;

    closed spec fn view(&self) -> Set<Seq<Seq<u8>>> {
        Set::new(
            |dir: Seq<Seq<u8>>|
                self.buckets@.contains_key(hash_parts(dir)) && listed(
                    self.buckets@[hash_parts(dir)]@,
                    dir,
                ),
        )
    }
}

fn hash_of(dir: &PathParts) -> (h: u64)
    ensures
        h == hash_parts(dir@),
{
    let mut h: u64 = HASH_START;
    let mut i: usize = 0;
    assert(dir@.take(0) =~= Seq::<Seq<u8>>::empty());
    while i < dir.parts.len()
        invariant
            i <= dir.parts.len(),
            h == hash_parts(dir@.take(i as int)),
        decreases dir.parts.len() - i,
    {
        let part = &dir.parts[i];
        let ghost start = h;
        let mut j: usize = 0;
        assert(part@.take(0) =~= Seq::<u8>::empty());
        while j < part.len()
            invariant
                j <= part.len(),
                h == hash_bytes(start, part@.take(j as int)),
            decreases part.len() - j,
        {
            assert(part@.take(j + 1).drop_last() =~= part@.take(j as int));
            h = (h ^ (part[j] as u64)).wrapping_mul(HASH_STEP);
            j = j + 1;
        }
        assert(part@.take(j as int) =~= part@);
        assert(dir@[i as int] == part@);
        assert(dir@.take(i + 1).drop_last() =~= dir@.take(i as int));
        assert(dir@.take(i + 1).last() == dir@[i as int]);
        i = i + 1;
    }
    assert(dir@.take(i as int) =~= dir@);
    h
}

fn is_listed(bucket: &Vec<PathParts>, dir: &PathParts) -> (b: bool)
    ensures
        b == listed(bucket@, dir@),
{
    let mut i: usize = 0;
    while i < bucket.len()
        invariant
            i <= bucket.len(),
            forall|j: int| 0 <= j < i ==> (#[trigger] bucket@[j])@ != dir@,
        decreases bucket.len() - i,
    {
        if bucket[i].same(dir) {
            return true;
        }
        i = i + 1;
    }
    false
}

impl DirectorySet {
    /// The empty set.
    pub fn new() -> (set: DirectorySet)
        ensures
            set@ == Set::<Seq<Seq<u8>>>::empty(),
    {
        let set = DirectorySet { buckets: HashMap::new() };
        assert(set@ =~= Set::<Seq<Seq<u8>>>::empty());
        set
    }

    /// Whether `dir` is in the set.
    pub fn contains(&self, dir: &PathParts) -> (b: bool)
        ensures
            b == self@.contains(dir@),
    {
        match self.buckets.get(&hash_of(dir)) {
            Some(bucket) => is_listed(bucket, dir),
            None => false,
        }
    }

    /// Puts `dir` into the set.
    pub fn insert(&mut self, dir: PathParts)
        ensures
            final(self)@ == old(self)@.insert(dir@),
    {
        let h: u64 = hash_of(&dir);
        let ghost before = self.buckets@;
        let mut bucket = match self.buckets.remove(&h) {
            Some(bucket) => bucket,
            None => Vec::new(),
        };
        let ghost listed_before = bucket@;
        let ghost key = dir@;
        if !is_listed(&bucket, &dir) {
            bucket.push(dir);
        }
        let ghost listed_after = bucket@;
        self.buckets.insert(h, bucket);
        assert forall|d: Seq<Seq<u8>>|
            listed(listed_after, d) == (listed(listed_before, d) || d == key) by {
            if listed(listed_after, d) {
                let i = choose|i: int|
                    0 <= i < listed_after.len() && (#[trigger] listed_after[i])@ == d;
                if i < listed_before.len() {
                    assert(listed_before[i]@ == d);
                }
            }
            if listed(listed_before, d) {
                let i = choose|i: int|
                    0 <= i < listed_before.len() && (#[trigger] listed_before[i])@ == d;
                assert(listed_after[i]@ == d);
            }
            if d == key && !listed(listed_before, key) {
                assert(listed_after[listed_after.len() - 1]@ == d);
            }
        }
        assert forall|d: Seq<Seq<u8>>| self@.contains(d) == old(self)@.insert(key).contains(d) by {
            if hash_parts(d) != h {
                assert(self.buckets@.contains_key(hash_parts(d)) == before.contains_key(
                    hash_parts(d),
                ));
            }
        }
        assert(self@ =~= old(self)@.insert(key));
    }
}

} // verus!
