//! A hash index: row positions grouped into buckets by fingerprint.

use hash_hasher::HashBuildHasher;
use hash_hasher::HashHasher;
use std::collections::HashMap;
use std::hash::BuildHasherDefault;
use vstd::prelude::*;

verus! {

/// `hash_hasher::HashHasher`, the hasher that takes a key that is a hash
/// already as it is; carried as an opaque value.
#[verifier::external_type_specification]
#[verifier::external_body]
pub struct ExHashHasher(HashHasher);

/// `std::hash::BuildHasherDefault`, which makes a map's hashers by
/// `Default`; carried as an opaque value.
#[verifier::external_type_specification]
#[verifier::external_body]
#[verifier::reject_recursive_types(H)]
pub struct ExBuildHasherDefault<H>(BuildHasherDefault<H>);

/// The map behind an index: from a fingerprint to the positions of the rows
/// that have it.
type Buckets = HashMap<u64, Vec<usize>, HashBuildHasher>;

/// `HashMap::with_capacity_and_hasher` with the default `HashBuildHasher`: a
/// map without entries.
#[verifier::external_body]
fn empty_buckets(capacity: usize) -> (buckets: Buckets)
    ensures
        buckets@.dom() == Set::<u64>::empty(),
{
    HashMap::with_capacity_and_hasher(capacity, HashBuildHasher::default())
}

/// `HashMap::get`: the value stored under the key, if there is one.
#[verifier::external_body]
fn bucket_at<'a>(buckets: &'a Buckets, key: u64) -> (bucket: Option<&'a Vec<usize>>)
    ensures
        match bucket {
            Some(found) => buckets@.contains_key(key) && *found == buckets@[key],
            None => !buckets@.contains_key(key),
        },
{
    buckets.get(&key)
}

/// `HashMap::remove`: takes the entry under the key out of the map and
/// returns its value, if there was one; the other entries stay.
#[verifier::external_body]
fn take_bucket(buckets: &mut Buckets, key: u64) -> (bucket: Option<Vec<usize>>)
    ensures
        final(buckets)@ == old(buckets)@.remove(key),
        match bucket {
            Some(found) => old(buckets)@.contains_key(key) && found == old(buckets)@[key],
            None => !old(buckets)@.contains_key(key),
        },
{
    buckets.remove(&key)
}

/// `HashMap::insert`: stores the value under the key, in place of any value
/// that was there; the other entries stay.
#[verifier::external_body]
fn put_bucket(buckets: &mut Buckets, key: u64, bucket: Vec<usize>)
    ensures
        final(buckets)@ == old(buckets)@.insert(key, bucket),
{
    buckets.insert(key, bucket);
}

/// `HashMap::shrink_to_fit`: gives back spare capacity and keeps the entries.
#[verifier::external_body]
fn trim_buckets(buckets: &mut Buckets)
    ensures
        final(buckets)@ == old(buckets)@,
{
    buckets.shrink_to_fit()
}

/// The bucket that a map holds for a key: empty where it holds none.
pub open spec fn bucket_of(buckets: Map<u64, Seq<usize>>, key: u64) -> Seq<usize> {
    if buckets.contains_key(key) {
        buckets[key]
    } else {
        Seq::empty()
    }
}

/// The positions at which `key` occurs in `keys`, in ascending order.
pub open spec fn positions_of(keys: Seq<u64>, key: u64) -> Seq<usize>
    decreases keys.len(),
{
    if keys.len() == 0 {
        Seq::empty()
    } else if keys.last() == key {
        positions_of(keys.drop_last(), key).push((keys.len() - 1) as usize)
    } else {
        positions_of(keys.drop_last(), key)
    }
}

/// The index over a sequence of keys: one bucket for each key that occurs,
/// holding the positions at which it occurs, in ascending order.
pub open spec fn grouped(keys: Seq<u64>) -> Map<u64, Seq<usize>> {
    Map::new(|key: u64| keys.contains(key), |key: u64| positions_of(keys, key))
}

/// A bucket of `grouped` holds positions of its key only, and holds every
/// one of them.
pub proof fn lemma_positions_of(keys: Seq<u64>, key: u64)
    requires
        keys.len() <= usize::MAX,
    ensures
        forall|k: int|
            0 <= k < positions_of(keys, key).len() ==> 0 <= #[trigger] positions_of(keys, key)[k]
                < keys.len() && keys[positions_of(keys, key)[k] as int] == key,
        forall|k: int, l: int|
            0 <= k < l < positions_of(keys, key).len() ==> positions_of(keys, key)[k]
                < positions_of(keys, key)[l],
        forall|i: int|
            0 <= i < keys.len() && keys[i] == key ==> positions_of(keys, key).contains(i as usize),
        positions_of(keys, key).len() <= keys.len(),
        positions_of(keys, key).len() > 0 <==> keys.contains(key),
    decreases keys.len(),
{
    if keys.len() > 0 {
        let front = keys.drop_last();
        lemma_positions_of(front, key);
        let rest = positions_of(front, key);
        let all = positions_of(keys, key);
        if keys.last() == key {
            assert(all == rest.push((keys.len() - 1) as usize));
            assert(all[all.len() - 1] == (keys.len() - 1) as usize);
            assert forall|i: int| 0 <= i < keys.len() && keys[i] == key implies all.contains(
                i as usize,
            ) by {
                if i < keys.len() - 1 {
                    assert(front[i] == key);
                    let k = choose|k: int| 0 <= k < rest.len() && rest[k] == i as usize;
                    assert(all[k] == i as usize);
                } else {
                    assert(all[all.len() - 1] == i as usize);
                }
            }
            assert(keys[keys.len() - 1] == key);
        } else {
            assert forall|i: int| 0 <= i < keys.len() && keys[i] == key implies all.contains(
                i as usize,
            ) by {
                assert(front[i] == key);
            }
            if keys.contains(key) {
                let i = choose|i: int| 0 <= i < keys.len() && keys[i] == key;
                assert(front[i] == key);
            }
            if front.contains(key) {
                let i = choose|i: int| 0 <= i < front.len() && front[i] == key;
                assert(keys[i] == key);
            }
        }
    }
}

/// Appending a key to the sequence adds its position to the bucket of that
/// key and leaves the other buckets as they are.
pub proof fn lemma_grouped_push(keys: Seq<u64>, key: u64)
    ensures
        grouped(keys.push(key)) == grouped(keys).insert(
            key,
            bucket_of(grouped(keys), key).push(keys.len() as usize),
        ),
{
    let longer = keys.push(key);
    assert(longer.drop_last() =~= keys);
    assert(longer.last() == key);
    if !keys.contains(key) {
        lemma_positions_absent(keys, key);
    }
    let target = grouped(keys).insert(key, bucket_of(grouped(keys), key).push(keys.len() as usize));
    assert forall|k: u64| grouped(longer).contains_key(k) <==> target.contains_key(k) by {
        if keys.contains(k) {
            let i = choose|i: int| 0 <= i < keys.len() && keys[i] == k;
            assert(longer[i] == k);
        }
        if longer.contains(k) && k != key {
            let i = choose|i: int| 0 <= i < longer.len() && longer[i] == k;
            assert(keys[i] == k);
        }
        assert(longer[keys.len() as int] == key);
    }
    assert(grouped(longer) =~= target);
}

/// A key that does not occur has no positions.
pub proof fn lemma_positions_absent(keys: Seq<u64>, key: u64)
    requires
        !keys.contains(key),
    ensures
        positions_of(keys, key) == Seq::<usize>::empty(),
    decreases keys.len(),
{
    if keys.len() > 0 {
        let front = keys.drop_last();
        assert(keys[keys.len() - 1] != key);
        assert forall|i: int| 0 <= i < front.len() implies front[i] != key by {
            assert(keys[i] != key);
        }
        lemma_positions_absent(front, key);
    }
}

/// A hash index: for each fingerprint, the positions of the rows that have
/// it.
pub struct Index {
    buckets: Buckets,
}

impl Index {
    /// The buckets, by fingerprint.
    pub closed spec fn view(&self) -> Map<u64, Seq<usize>> {
        self.buckets@.map_values(|bucket: Vec<usize>| bucket@)
    }

    /// An index without buckets, with room for `capacity` of them.
    pub fn with_capacity(capacity: usize) -> (index: Index)
        ensures
            index@ == Map::<u64, Seq<usize>>::empty(),
    {
        let index = Index { buckets: empty_buckets(capacity) };
        assert(index.buckets@.dom() =~= Set::<u64>::empty());
        assert(index@ =~= Map::<u64, Seq<usize>>::empty());
        index
    }

    /// Appends a row position to the bucket of a fingerprint.
    pub fn add(&mut self, key: u64, position: usize)
        ensures
            final(self)@ == old(self)@.insert(key, bucket_of(old(self)@, key).push(position)),
    {
        let mut bucket = match take_bucket(&mut self.buckets, key) {
            Some(found) => found,
            None => Vec::new(),
        };
        bucket.push(position);
        put_bucket(&mut self.buckets, key, bucket);
        assert(final(self)@ =~= old(self)@.insert(
            key,
            bucket_of(old(self)@, key).push(position),
        ));
    }

    /// The bucket of a fingerprint, if the index holds one.
    pub fn get(&self, key: u64) -> (bucket: Option<&Vec<usize>>)
        ensures
            match bucket {
                Some(found) => self@.contains_key(key) && found@ == self@[key],
                None => !self@.contains_key(key),
            },
    {
        bucket_at(&self.buckets, key)
    }

    /// Gives back spare capacity; the buckets stay as they are.
    pub fn shrink_to_fit(&mut self)
        ensures
            final(self)@ == old(self)@,
    {
        trim_buckets(&mut self.buckets);
    }

    /// The index over a sequence of fingerprints: position `i` stands in the
    /// bucket of `keys[i]`.
    pub fn group(keys: &Vec<u64>) -> (index: Index)
        ensures
            index@ == grouped(keys@),
    {
        let mut index = Index::with_capacity(keys.len());
        assert(grouped(keys@.take(0)) =~= Map::<u64, Seq<usize>>::empty());
        let mut position: usize = 0;
        while position < keys.len()
            invariant
                position <= keys.len(),
                index@ == grouped(keys@.take(position as int)),
            decreases keys.len() - position,
        {
            proof {
                lemma_grouped_push(keys@.take(position as int), keys@[position as int]);
                assert(keys@.take(position as int).push(keys@[position as int]) =~= keys@.take(
                    position + 1,
                ));
            }
            index.add(keys[position], position);
            position += 1;
        }
        assert(keys@.take(position as int) =~= keys@);
        index.shrink_to_fit();
        index
    }
}

} // verus!
