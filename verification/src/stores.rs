//! The two concurrent maps that back the table, and the string type they
//! store. Nothing in this file is proved: each contract restates what the
//! source of the map or of the string shows of the call it wraps. Every
//! wrapper that changes a map takes it by `&mut`, so no other thread can be
//! inside the map while the call runs.

use vstd::prelude::*;
use crate::atom::AtomId;

verus! {

/// `ecow::EcoString`, the string type that both indices store. Opaque here:
/// its text is read through `eco_text`.
#[verifier::external_type_specification]
#[verifier::external_body]
pub struct ExEcoString(ecow::EcoString);

/// `rustc_hash::FxBuildHasher`, the hasher of the forward index. Carried only.
#[verifier::external_type_specification]
#[verifier::external_body]
pub struct ExFxBuildHasher(rustc_hash::FxBuildHasher);

/// `nohash_hasher::NoHashHasher`, the identity hasher of the reverse index.
/// Carried only.
#[verifier::external_type_specification]
#[verifier::external_body]
#[verifier::reject_recursive_types(T)]
pub struct ExNoHashHasher<T>(nohash_hasher::NoHashHasher<T>);

/// `core::hash::BuildHasherDefault`, which builds the identity hasher.
/// Carried only.
#[verifier::external_type_specification]
#[verifier::external_body]
#[verifier::reject_recursive_types(H)]
pub struct ExBuildHasherDefault<H>(core::hash::BuildHasherDefault<H>);

/// `papaya::HashMap`. Opaque here: its entries are read through
/// `forward_entries`.
#[verifier::external_type_specification]
#[verifier::external_body]
#[verifier::reject_recursive_types(K)]
#[verifier::reject_recursive_types(V)]
#[verifier::reject_recursive_types(S)]
pub struct ExPapayaMap<K, V, S>(papaya::HashMap<K, V, S>);

/// `papaya::LocalGuard`, the guard inside a pinned handle. Carried only.
#[verifier::external_type_specification]
#[verifier::external_body]
pub struct ExLocalGuard<'g>(papaya::LocalGuard<'g>);

/// `papaya::HashMapRef`, a pinned handle on a map. Opaque here: the entries
/// it reads are `pinned_entries`.
#[verifier::external_type_specification]
#[verifier::external_body]
#[verifier::reject_recursive_types(K)]
#[verifier::reject_recursive_types(V)]
#[verifier::reject_recursive_types(S)]
#[verifier::reject_recursive_types(G)]
pub struct ExPapayaMapRef<'map, K, V, S, G>(papaya::HashMapRef<'map, K, V, S, G>);

/// `dashmap::DashMap`. Opaque here: its entries are read through
/// `reverse_entries`.
#[verifier::external_type_specification]
#[verifier::external_body]
#[verifier::reject_recursive_types(K)]
#[verifier::reject_recursive_types(V)]
#[verifier::reject_recursive_types(S)]
pub struct ExDashMap<K, V, S>(dashmap::DashMap<K, V, S>);

/// `dashmap::mapref::one::Ref`, a read guard on one entry. Opaque here: the
/// key and the text behind it are `guarded_key` and `guarded_text`.
#[verifier::external_type_specification]
#[verifier::external_body]
#[verifier::reject_recursive_types(K)]
#[verifier::reject_recursive_types(V)]
pub struct ExDashRef<'a, K, V>(dashmap::mapref::one::Ref<'a, K, V>);

/// The forward index: string content to raw identifier.
pub type ForwardIndex = papaya::HashMap<ecow::EcoString, u64, rustc_hash::FxBuildHasher>;

/// A pinned handle on the forward index.
pub type ForwardRef<'map, 'g> = papaya::HashMapRef<
    'map,
    ecow::EcoString,
    u64,
    rustc_hash::FxBuildHasher,
    papaya::LocalGuard<'g>,
>;

/// The reverse index: raw identifier to string content, sharded by identifier.
pub type ReverseIndex = dashmap::DashMap<
    u64,
    ecow::EcoString,
    core::hash::BuildHasherDefault<nohash_hasher::NoHashHasher<u64>>,
>;

/// A read guard on one entry of the reverse index.
pub type ReverseRef<'a> = dashmap::mapref::one::Ref<'a, u64, ecow::EcoString>;

/// The text an `EcoString` holds.
pub uninterp spec fn eco_text(e: ecow::EcoString) -> Seq<char>;

/// The entries of the forward index.
pub uninterp spec fn forward_entries(
    m: papaya::HashMap<ecow::EcoString, u64, rustc_hash::FxBuildHasher>,
) -> Map<Seq<char>, u64>;

/// The entries that a pinned handle on the forward index reads.
pub uninterp spec fn pinned_entries(
    g: papaya::HashMapRef<
        '_,
        ecow::EcoString,
        u64,
        rustc_hash::FxBuildHasher,
        papaya::LocalGuard<'_>,
    >,
) -> Map<Seq<char>, u64>;

/// The entries of the reverse index.
pub uninterp spec fn reverse_entries(
    m: dashmap::DashMap<
        u64,
        ecow::EcoString,
        core::hash::BuildHasherDefault<nohash_hasher::NoHashHasher<u64>>,
    >,
) -> Map<u64, Seq<char>>;

/// The key of the entry that a read guard of the reverse index points at.
pub uninterp spec fn guarded_key(r: dashmap::mapref::one::Ref<'_, u64, ecow::EcoString>) -> u64;

/// The text of the entry that a read guard of the reverse index points at.
pub uninterp spec fn guarded_text(r: dashmap::mapref::one::Ref<'_, u64, ecow::EcoString>) -> Seq<
    char,
>;

/// A forward index without entries.
pub open spec fn no_forward_entries() -> Map<Seq<char>, u64> {
    Map::empty()
}

/// A reverse index without entries.
pub open spec fn no_reverse_entries() -> Map<u64, Seq<char>> {
    Map::empty()
}

/// `EcoString::from` on a string slice: the new string holds the slice's text.
#[verifier::external_body]
pub(crate) fn eco_from_str(s: &str) -> (e: ecow::EcoString)
    ensures
        eco_text(e) == s@,
{
    ecow::EcoString::from(s)
}

/// `EcoString::clone`: the clone holds the same text.
#[verifier::external_body]
pub(crate) fn eco_clone(e: &ecow::EcoString) -> (c: ecow::EcoString)
    ensures
        eco_text(c) == eco_text(*e),
{
    e.clone()
}

/// `papaya::HashMap::with_capacity_and_hasher`: the new map has no entries.
/// The capacity is a sizing hint only; the map multiplies it by eight and
/// gives up where that overflows. Memory that cannot be had is fatal to the
/// process and not part of this contract.
#[verifier::external_body]
pub(crate) fn forward_with_capacity(capacity: usize) -> (m: ForwardIndex)
    requires
        capacity <= usize::MAX / 8,
    ensures
        forward_entries(m) == no_forward_entries(),
{
    papaya::HashMap::with_capacity_and_hasher(capacity, rustc_hash::FxBuildHasher)
}

/// `papaya::HashMap::pin`: the handle reads the entries of the map it was
/// taken from. While the handle lives the map is borrowed, so no `&mut`
/// wrapper of this file can change it.
#[verifier::external_body]
pub(crate) fn forward_pin<'a>(m: &'a ForwardIndex) -> (g: ForwardRef<'a, 'a>)
    ensures
        pinned_entries(g) == forward_entries(*m),
{
    m.pin()
}

/// `papaya::HashMapRef::get`: the value stored under `s`, if there is one.
#[verifier::external_body]
pub(crate) fn pinned_get(g: &ForwardRef<'_, '_>, s: &str) -> (r: Option<u64>)
    ensures
        r == (if pinned_entries(*g).contains_key(s@) {
            Some(pinned_entries(*g)[s@])
        } else {
            None::<u64>
        }),
{
    g.get(s).copied()
}

/// `papaya::HashMapRef::get_or_insert_with`, with a producer that hands out
/// `fresh`: an existing entry for the key is returned and nothing changes;
/// otherwise `fresh` is stored under the key and returned.
#[verifier::external_body]
pub(crate) fn forward_get_or_insert(m: &mut ForwardIndex, key: ecow::EcoString, fresh: u64) -> (r:
    u64)
    ensures
        forward_entries(*old(m)).contains_key(eco_text(key)) ==> r == forward_entries(*old(m))[eco_text(
            key,
        )] && forward_entries(*final(m)) == forward_entries(*old(m)),
        !forward_entries(*old(m)).contains_key(eco_text(key)) ==> r == fresh && forward_entries(
            *final(m),
        ) == forward_entries(*old(m)).insert(eco_text(key), fresh),
{
    *m.pin().get_or_insert_with(key, move || fresh)
}

/// `papaya::HashMap::len`: the number of entries.
#[verifier::external_body]
pub(crate) fn forward_len(m: &ForwardIndex) -> (n: usize)
    ensures
        n == forward_entries(*m).dom().len(),
{
    m.len()
}

/// `papaya::HashMap::is_empty`: whether the entry count is zero.
#[verifier::external_body]
pub(crate) fn forward_is_empty(m: &ForwardIndex) -> (b: bool)
    ensures
        b == (forward_entries(*m).dom().len() == 0),
{
    m.is_empty()
}

/// `papaya::HashMapRef::clear`: no entry is left.
#[verifier::external_body]
pub(crate) fn forward_clear(m: &mut ForwardIndex)
    ensures
        forward_entries(*final(m)) == no_forward_entries(),
{
    m.pin().clear()
}

/// `Clone` of `papaya::HashMap`: the copy holds the same entries.
#[verifier::external_body]
pub(crate) fn forward_clone(m: &ForwardIndex) -> (c: ForwardIndex)
    ensures
        forward_entries(c) == forward_entries(*m),
{
    m.clone()
}

/// `dashmap::DashMap::with_capacity_and_hasher`: the new map has no entries.
/// The capacity is a sizing hint only, spread over the shards. Memory that
/// cannot be had is fatal to the process and not part of this contract.
#[verifier::external_body]
pub(crate) fn reverse_with_capacity(capacity: usize) -> (m: ReverseIndex)
    ensures
        reverse_entries(m) == no_reverse_entries(),
{
    dashmap::DashMap::with_capacity_and_hasher(
        capacity,
        nohash_hasher::BuildNoHashHasher::default(),
    )
}

/// `dashmap::DashMap::insert`: afterwards `id` maps to the text of `text`,
/// and every other entry is as before.
#[verifier::external_body]
pub(crate) fn reverse_insert(m: &mut ReverseIndex, id: u64, text: ecow::EcoString)
    ensures
        reverse_entries(*final(m)) == reverse_entries(*old(m)).insert(id, eco_text(text)),
{
    m.insert(id, text);
}

/// `dashmap::DashMap::get`: a read guard on the entry of `id`, if there is
/// one. The guard points at the entry whose key is `id`.
#[verifier::external_body]
pub(crate) fn reverse_get<'a>(m: &'a ReverseIndex, id: u64) -> (r: Option<ReverseRef<'a>>)
    ensures
        r.is_some() == reverse_entries(*m).contains_key(id),
        r.is_some() ==> guarded_key(r.unwrap()) == id,
        r.is_some() ==> guarded_text(r.unwrap()) == reverse_entries(*m)[id],
{
    m.get(&id)
}

/// `EcoString::clone` on the value behind a read guard of the reverse index.
#[verifier::external_body]
pub(crate) fn guarded_clone(r: &ReverseRef<'_>) -> (e: ecow::EcoString)
    ensures
        eco_text(e) == guarded_text(*r),
{
    r.value().clone()
}

/// `dashmap::DashMap::clear`: no entry is left.
#[verifier::external_body]
pub(crate) fn reverse_clear(m: &mut ReverseIndex)
    ensures
        reverse_entries(*final(m)) == no_reverse_entries(),
{
    m.clear()
}

/// `dashmap::DashMap::iter`, collected: every entry of the map exactly once,
/// in the order in which the shards happen to be walked.
#[verifier::external_body]
pub(crate) fn reverse_pairs(m: &ReverseIndex) -> (r: Vec<(AtomId, ecow::EcoString)>)
    ensures
        reverse_entries(*m).dom().finite() ==> r@.len() == reverse_entries(*m).dom().len(),
        forall|k: int|
            0 <= k < r@.len() ==> reverse_entries(*m).contains_key((#[trigger] r@[k]).0.0)
                && reverse_entries(*m)[r@[k].0.0] == eco_text(r@[k].1),
        forall|k: int, l: int|
            0 <= k < l < r@.len() ==> (#[trigger] r@[k]).0.0 != (#[trigger] r@[l]).0.0,
{
    m.iter().map(|e| (AtomId(*e.key()), e.value().clone())).collect()
}

/// `Clone` of `dashmap::DashMap`: the copy holds the same entries.
#[verifier::external_body]
pub(crate) fn reverse_clone(m: &ReverseIndex) -> (c: ReverseIndex)
    ensures
        reverse_entries(c) == reverse_entries(*m),
{
    m.clone()
}

} // verus!
