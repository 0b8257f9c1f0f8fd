//! The hash map and the hasher that the font caches are built on, both from
//! the `rapidhash` crate.
//!
//! A map is keyed by one word and modelled by its view, the map from keys to
//! values. A hasher is modelled by the words that were written into it.
use rapidhash::fast::RapidHasher;
use rapidhash::{HashMapExt, RapidHashMap};
use std::hash::Hasher;
use vstd::prelude::*;

verus! {

/// The randomly seeded hash builder of `rapidhash`, which its maps carry.
#[verifier::external_type_specification]
#[verifier::external_body]
pub struct ExRandomState<
    const AVALANCHE: bool,
    const SPONGE: bool,
    const COMPACT: bool,
    const PROTECTED: bool,
>(rapidhash::inner::RandomState<AVALANCHE, SPONGE, COMPACT, PROTECTED>);

/// The streaming hasher of `rapidhash`.
#[verifier::external_type_specification]
#[verifier::external_body]
pub struct ExRapidHasher<
    's,
    const AVALANCHE: bool,
    const SPONGE: bool,
    const COMPACT: bool,
    const PROTECTED: bool,
>(rapidhash::inner::RapidHasher<'s, AVALANCHE, SPONGE, COMPACT, PROTECTED>);

/// `HashMapExt::with_capacity` makes an empty map with room for `capacity`
/// entries.
#[verifier::external_body]
pub(crate) fn map_with_capacity<V>(capacity: usize) -> (map: RapidHashMap<u64, V>)
    requires
        capacity <= 0x1_0000,
    ensures
        map@ =~= Map::empty(),
{
    RapidHashMap::with_capacity(capacity)
}

/// `HashMap::get` gives the value of a key, if the map has one.
#[verifier::external_body]
pub(crate) fn map_get<V>(map: &RapidHashMap<u64, V>, key: u64) -> (value: Option<&V>)
    ensures
        match value {
            Some(value) => map@.contains_key(key) && *value == map@[key],
            None => !map@.contains_key(key),
        },
{
    map.get(&key)
}

/// `HashMap::get_mut` gives access to the value of a key, if the map has one.
#[verifier::external_body]
pub(crate) fn map_get_mut<V>(map: &mut RapidHashMap<u64, V>, key: u64) -> (value: Option<&mut V>)
    ensures
        match value {
            Some(value) => {
                &&& old(map)@.contains_key(key)
                &&& *value == old(map)@[key]
                &&& final(map)@ == old(map)@.insert(key, *final(value))
            },
            None => !old(map)@.contains_key(key) && final(map)@ == old(map)@,
        },
{
    map.get_mut(&key)
}

/// `HashMap::insert` gives a key a value and returns the value that the key
/// had, if any.
#[verifier::external_body]
pub(crate) fn map_insert<V>(map: &mut RapidHashMap<u64, V>, key: u64, value: V) -> (previous:
    Option<V>)
    ensures
        final(map)@ == old(map)@.insert(key, value),
        previous == if old(map)@.contains_key(key) {
            Some(old(map)@[key])
        } else {
            None
        },
{
    map.insert(key, value)
}

/// `HashMap::remove` takes a key out and returns the value that it had, if
/// any.
#[verifier::external_body]
pub(crate) fn map_remove<V>(map: &mut RapidHashMap<u64, V>, key: u64) -> (previous: Option<V>)
    ensures
        final(map)@ == old(map)@.remove(key),
        previous == if old(map)@.contains_key(key) {
            Some(old(map)@[key])
        } else {
            None
        },
{
    map.remove(&key)
}

/// `HashMap::len` counts the keys.
#[verifier::external_body]
pub(crate) fn map_len<V>(map: &RapidHashMap<u64, V>) -> (len: usize)
    ensures
        len == map@.len(),
{
    map.len()
}

/// The words that were written into a hasher since it was made, each as its
/// width in bits and its value. This is a ghost history, which the hasher's
/// fields do not hold: hashers with the same fields may have been written
/// differently, and no contract says that two hashers are the same.
pub uninterp spec fn hasher_words(hasher: RapidHasher<'static>) -> Seq<(u8, u64)>;

/// The digest of a sequence of words. The way in which products are folded
/// depends on the target; on the targets of Windows the pointer width decides
/// it.
pub uninterp spec fn rapid_digest(pointer_bits: u32, words: Seq<(u8, u64)>) -> u64;

/// `RapidHasher::new` with seed 0 makes a hasher that nothing was written
/// into.
#[verifier::external_body]
pub(crate) fn hasher_new() -> (hasher: RapidHasher<'static>)
    ensures
        hasher_words(hasher).len() == 0,
{
    RapidHasher::new(0)
}

/// `Hasher::write_u32` adds a word of 32 bits.
#[verifier::external_body]
pub(crate) fn hasher_write_u32(hasher: &mut RapidHasher<'static>, value: u32)
    ensures
        hasher_words(*final(hasher)) == hasher_words(*old(hasher)).push((32u8, value as u64)),
{
    hasher.write_u32(value)
}

/// `Hasher::write_u64` adds a word of 64 bits.
#[verifier::external_body]
pub(crate) fn hasher_write_u64(hasher: &mut RapidHasher<'static>, value: u64)
    ensures
        hasher_words(*final(hasher)) == hasher_words(*old(hasher)).push((64u8, value)),
{
    hasher.write_u64(value)
}

/// `Hasher::finish` gives the digest of what was written, which the seed and
/// the secrets compiled into the crate make a function of the words.
#[verifier::external_body]
pub(crate) fn hasher_finish(hasher: &RapidHasher<'static>) -> (digest: u64)
    ensures
        digest == rapid_digest(usize::BITS, hasher_words(*hasher)),
{
    hasher.finish()
}

} // verus!
