//! Attribute sets: the order-independent key that finds a data point, and the sorted form in which
//! a data point keeps its attributes.

use std::sync::Arc;

use vstd::prelude::*;
use vstd::relations::{
    antisymmetric, reflexive, sorted_by, strongly_connected, total_ordering, transitive,
};
use vstd::seq_lib::{commutative_foldl, lemma_fold_left_permutation, lemma_sorted_unique};
use vstd::utf8::encode_utf8;

verus! {

/// An attribute: key and value.
pub type AttrView = (Seq<char>, Seq<char>);

/// Sorted attribute pairs. Wrapped in `Arc` so that a snapshot shares them.
pub type Attrs = Arc<Vec<(String, String)>>;

/// The attributes that a borrowed list stands for.
pub open spec fn attrs_view(attrs: Seq<(&str, &str)>) -> Seq<AttrView> {
    attrs.map_values(|pair: (&str, &str)| (pair.0@, pair.1@))
}

/// The attributes that an owned list stands for.
pub open spec fn owned_view(attrs: Seq<(String, String)>) -> Seq<AttrView> {
    attrs.map_values(|pair: (String, String)| (pair.0@, pair.1@))
}

// --- Hash ---

/// FNV-1a offset basis.
pub const FNV_OFFSET: u64 = 0xcbf29ce484222325;

/// FNV-1a prime.
pub const FNV_PRIME: u64 = 0x100000001b3;

/// Stands between key and value, so that `("ab", "c")` and `("a", "bc")` hash apart.
pub const FNV_SEPARATOR: u8 = 0xff;

/// One FNV-1a step.
pub open spec fn fnv_step(hash: u64, byte: u8) -> u64 {
    (hash ^ (byte as u64)).wrapping_mul(FNV_PRIME)
}

/// FNV-1a over `bytes`, from `hash` on.
pub open spec fn fnv(hash: u64, bytes: Seq<u8>) -> u64
    decreases bytes.len(),
{
    if bytes.len() == 0 {
        hash
    } else {
        fnv_step(fnv(hash, bytes.drop_last()), bytes.last())
    }
}

/// FNV-1a of a pair: the key's bytes, the separator, the value's bytes.
pub open spec fn pair_hash(pair: AttrView) -> u64 {
    fnv(fnv_step(fnv(FNV_OFFSET, encode_utf8(pair.0)), FNV_SEPARATOR), encode_utf8(pair.1))
}

/// The key of an attribute set: the wrapping sum of its pairs' hashes, zero for none.
pub open spec fn attrs_key(attrs: Seq<AttrView>) -> u64 {
    attrs.fold_left(0u64, |sum: u64, pair: AttrView| sum.wrapping_add(pair_hash(pair)))
}

/// FNV-1a over a slice, from `hash` on.
fn fnv_bytes(hash: u64, bytes: &[u8]) -> (result: u64)
    ensures
        result == fnv(hash, bytes@),
{
    let mut h: u64 = hash;
    let mut i: usize = 0;
    while i < bytes.len()
        invariant
            i <= bytes@.len(),
            h == fnv(hash, bytes@.take(i as int)),
        decreases bytes@.len() - i,
    {
        h = (h ^ (bytes[i] as u64)).wrapping_mul(FNV_PRIME);
        i = i + 1;
        assert(bytes@.take(i as int).drop_last() == bytes@.take(i - 1));
    }
    assert(bytes@.take(i as int) == bytes@);
    h
}

/// Compute the key of an attribute set. The order of the pairs does not matter.
pub fn attrs_hash_unordered(attrs: &[(&str, &str)]) -> (key: u64)
    ensures
        key == attrs_key(attrs_view(attrs@)),
{
    let mut combined: u64 = 0;
    let mut i: usize = 0;
    let ghost all = attrs_view(attrs@);
    while i < attrs.len()
        invariant
            i <= attrs@.len(),
            all == attrs_view(attrs@),
            combined == attrs_key(all.take(i as int)),
        decreases attrs@.len() - i,
    {
        let (k, v) = attrs[i];
        let mut h: u64 = fnv_bytes(FNV_OFFSET, k.as_bytes());
        h = (h ^ (FNV_SEPARATOR as u64)).wrapping_mul(FNV_PRIME);
        h = fnv_bytes(h, v.as_bytes());
        combined = combined.wrapping_add(h);
        i = i + 1;
        proof {
            assert(all.take(i as int).drop_last() == all.take(i - 1));
            assert(all.take(i as int).last() == (k@, v@));
            reveal_with_fuel(Seq::fold_left, 2);
        }
    }
    assert(all.take(i as int) == all);
    combined
}

/// Attribute order does not matter to the key.
pub proof fn law_attrs_key_order(a: Seq<AttrView>, b: Seq<AttrView>)
    requires
        a.to_multiset() == b.to_multiset(),
    ensures
        attrs_key(a) == attrs_key(b),
{
    let f = |sum: u64, pair: AttrView| sum.wrapping_add(pair_hash(pair));
    assert(commutative_foldl(f));
    lemma_fold_left_permutation(a, b, f, 0u64);
}

/// No attributes have key zero.
pub proof fn law_attrs_key_empty()
    ensures
        attrs_key(Seq::<AttrView>::empty()) == 0,
{
}

// --- Order ---

/// Lexicographic order of byte strings.
pub open spec fn bytes_le(a: Seq<u8>, b: Seq<u8>) -> bool
    decreases a.len(),
{
    if a.len() == 0 {
        true
    } else if b.len() == 0 {
        false
    } else if a[0] != b[0] {
        a[0] < b[0]
    } else {
        bytes_le(a.skip(1), b.skip(1))
    }
}

/// Order of attributes: by key, then by value, each by its UTF-8 bytes.
pub open spec fn attr_le(a: AttrView, b: AttrView) -> bool {
    if a.0 == b.0 {
        bytes_le(encode_utf8(a.1), encode_utf8(b.1))
    } else {
        bytes_le(encode_utf8(a.0), encode_utf8(b.0))
    }
}

/// The attributes in ascending order.
pub open spec fn sorted_attrs(attrs: Seq<AttrView>) -> Seq<AttrView> {
    attrs.sort_by(|a: AttrView, b: AttrView| attr_le(a, b))
}

proof fn lemma_bytes_le_reflexive(a: Seq<u8>)
    ensures
        bytes_le(a, a),
    decreases a.len(),
{
    if a.len() > 0 {
        lemma_bytes_le_reflexive(a.skip(1));
    }
}

proof fn lemma_bytes_le_total(a: Seq<u8>, b: Seq<u8>)
    ensures
        bytes_le(a, b) || bytes_le(b, a),
    decreases a.len(),
{
    if a.len() > 0 && b.len() > 0 {
        lemma_bytes_le_total(a.skip(1), b.skip(1));
    }
}

proof fn lemma_bytes_le_antisymmetric(a: Seq<u8>, b: Seq<u8>)
    requires
        bytes_le(a, b),
        bytes_le(b, a),
    ensures
        a == b,
    decreases a.len(),
{
    if a.len() > 0 {
        lemma_bytes_le_antisymmetric(a.skip(1), b.skip(1));
        assert(a =~= seq![a[0]] + a.skip(1));
        assert(b =~= seq![b[0]] + b.skip(1));
    } else {
        assert(a =~= b);
    }
}

proof fn lemma_bytes_le_transitive(a: Seq<u8>, b: Seq<u8>, c: Seq<u8>)
    requires
        bytes_le(a, b),
        bytes_le(b, c),
    ensures
        bytes_le(a, c),
    decreases a.len(),
{
    if a.len() > 0 && b.len() > 0 && c.len() > 0 && a[0] == b[0] && b[0] == c[0] {
        lemma_bytes_le_transitive(a.skip(1), b.skip(1), c.skip(1));
    }
}

proof fn lemma_utf8_injective(a: Seq<char>, b: Seq<char>)
    requires
        encode_utf8(a) == encode_utf8(b),
    ensures
        a == b,
{
    vstd::utf8::encode_utf8_decode_utf8(a);
    vstd::utf8::encode_utf8_decode_utf8(b);
}

/// Whether two texts are the same.
pub fn same_text(a: &str, b: &str) -> (result: bool)
    ensures
        result == (a@ == b@),
{
    let x = a.as_bytes();
    let y = b.as_bytes();
    if x.len() != y.len() {
        return false;
    }
    let mut i: usize = 0;
    while i < x.len()
        invariant
            i <= x@.len(),
            x@.len() == y@.len(),
            x@ == encode_utf8(a@),
            y@ == encode_utf8(b@),
            forall|j: int| 0 <= j < i ==> x@[j] == y@[j],
        decreases x@.len() - i,
    {
        if x[i] != y[i] {
            return false;
        }
        i = i + 1;
    }
    proof {
        assert(x@ =~= y@);
        lemma_utf8_injective(a@, b@);
    }
    true
}

/// The order of attributes is total: reflexive, antisymmetric, transitive, and any two are related.
pub proof fn law_attr_order_total()
    ensures
        total_ordering(|a: AttrView, b: AttrView| attr_le(a, b)),
{
    let le = |a: AttrView, b: AttrView| attr_le(a, b);
    assert forall|a: AttrView| #[trigger] le(a, a) by {
        lemma_bytes_le_reflexive(encode_utf8(a.1));
    }
    assert forall|a: AttrView, b: AttrView| #[trigger] le(a, b) && #[trigger] le(b, a) implies a
        == b by {
        if a.0 == b.0 {
            lemma_bytes_le_antisymmetric(encode_utf8(a.1), encode_utf8(b.1));
            lemma_utf8_injective(a.1, b.1);
        } else {
            lemma_bytes_le_antisymmetric(encode_utf8(a.0), encode_utf8(b.0));
            lemma_utf8_injective(a.0, b.0);
        }
    }
    assert forall|a: AttrView, b: AttrView, c: AttrView| #[trigger] le(a, b) && #[trigger] le(
        b,
        c,
    ) implies le(a, c) by {
        if a.0 == b.0 && b.0 == c.0 {
            lemma_bytes_le_transitive(encode_utf8(a.1), encode_utf8(b.1), encode_utf8(c.1));
        } else if a.0 == c.0 {
            lemma_bytes_le_antisymmetric(encode_utf8(a.0), encode_utf8(b.0));
            lemma_utf8_injective(a.0, b.0);
        } else {
            lemma_bytes_le_reflexive(encode_utf8(b.0));
            lemma_bytes_le_transitive(encode_utf8(a.0), encode_utf8(b.0), encode_utf8(c.0));
        }
    }
    assert forall|a: AttrView, b: AttrView| #[trigger] le(a, b) || #[trigger] le(b, a) by {
        lemma_bytes_le_total(encode_utf8(a.0), encode_utf8(b.0));
        lemma_bytes_le_total(encode_utf8(a.1), encode_utf8(b.1));
    }
    assert(reflexive(le));
    assert(antisymmetric(le));
    assert(transitive(le));
    assert(strongly_connected(le));
}

/// Whether byte string `a` comes before `b` or equals it.
fn bytes_not_after(a: &[u8], b: &[u8]) -> (result: bool)
    ensures
        result == bytes_le(a@, b@),
{
    let mut i: usize = 0;
    assert(a@.skip(0) == a@);
    assert(b@.skip(0) == b@);
    while i < a.len() && i < b.len() && a[i] == b[i]
        invariant
            i <= a@.len(),
            i <= b@.len(),
            bytes_le(a@, b@) == bytes_le(a@.skip(i as int), b@.skip(i as int)),
        decreases a@.len() - i,
    {
        assert(a@.skip(i as int).skip(1) == a@.skip(i + 1));
        assert(b@.skip(i as int).skip(1) == b@.skip(i + 1));
        i = i + 1;
    }
    if i == a.len() {
        true
    } else if i == b.len() {
        false
    } else {
        a[i] < b[i]
    }
}

/// Whether attribute `a` comes before `b` or equals it.
fn attr_not_after(a: &(String, String), b: &(String, String)) -> (result: bool)
    ensures
        result == attr_le((a.0@, a.1@), (b.0@, b.1@)),
{
    if a.0 == b.0 {
        bytes_not_after(a.1.as_str().as_bytes(), b.1.as_str().as_bytes())
    } else {
        bytes_not_after(a.0.as_str().as_bytes(), b.0.as_str().as_bytes())
    }
}

/// Put an attribute into a sorted list, behind those that are not after it.
fn insert_sorted(list: &mut Vec<(String, String)>, pair: (String, String))
    requires
        sorted_by(owned_view(old(list)@), |a: AttrView, b: AttrView| attr_le(a, b)),
    ensures
        sorted_by(owned_view(final(list)@), |a: AttrView, b: AttrView| attr_le(a, b)),
        owned_view(final(list)@).to_multiset() == owned_view(old(list)@).to_multiset().insert(
            (pair.0@, pair.1@),
        ),
{
    let ghost le = |a: AttrView, b: AttrView| attr_le(a, b);
    let ghost before = owned_view(list@);
    let ghost new = (pair.0@, pair.1@);
    let mut at: usize = list.len();
    while at > 0 && !attr_not_after(&list[at - 1], &pair)
        invariant
            at <= list@.len(),
            before == owned_view(list@),
            new == (pair.0@, pair.1@),
            le == |a: AttrView, b: AttrView| attr_le(a, b),
            forall|j: int| at <= j < before.len() ==> !le(#[trigger] before[j], new),
        decreases at,
    {
        at = at - 1;
    }
    proof {
        law_attr_order_total();
        assert forall|j: int| 0 <= j < at implies le(#[trigger] before[j], new) by {
            if j < at - 1 {
                assert(le(before[j], before[at - 1]));
                assert(le(before[at - 1], new));
            }
        }
        assert forall|j: int| at <= j < before.len() implies le(new, #[trigger] before[j]) by {
            assert(le(before[j], new) || le(new, before[j]));
        }
    }
    list.insert(at, pair);
    proof {
        let after = owned_view(list@);
        assert(after == before.insert(at as int, new));
        assert(after.remove(at as int) == before);
        after.to_multiset_ensures();
        assert(after[at as int] == new);
        assert(after.to_multiset() =~= before.to_multiset().insert(new));
        assert forall|i: int, j: int| 0 <= i < j < after.len() implies #[trigger] le(
            after[i],
            after[j],
        ) by {
            if i < at && j == at {
                assert(le(before[i], new));
            } else if i == at {
                assert(le(new, before[j - 1]));
            } else if j < at {
                assert(le(before[i], before[j]));
            } else if i < at {
                assert(le(before[i], before[j - 1]));
            } else {
                assert(le(before[i - 1], before[j - 1]));
            }
        }
    }
}

/// Sort and own attribute pairs, wrapped in `Arc` so that snapshots share them.
pub fn owned_attrs(attrs: &[(&str, &str)]) -> (owned: Attrs)
    ensures
        owned_view(owned@) == sorted_attrs(attrs_view(attrs@)),
{
    let ghost le = |a: AttrView, b: AttrView| attr_le(a, b);
    let ghost all = attrs_view(attrs@);
    let mut owned: Vec<(String, String)> = Vec::new();
    let mut i: usize = 0;
    assert(owned_view(owned@) == all.take(0));
    while i < attrs.len()
        invariant
            i <= attrs@.len(),
            all == attrs_view(attrs@),
            le == |a: AttrView, b: AttrView| attr_le(a, b),
            sorted_by(owned_view(owned@), le),
            owned_view(owned@).to_multiset() == all.take(i as int).to_multiset(),
        decreases attrs@.len() - i,
    {
        let (k, v) = attrs[i];
        insert_sorted(&mut owned, (k.to_string(), v.to_string()));
        i = i + 1;
        proof {
            assert(all.take(i as int) == all.take(i - 1).push((k@, v@)));
            broadcast use vstd::seq_lib::group_to_multiset_ensures;
        }
    }
    proof {
        assert(all.take(i as int) == all);
        law_attr_order_total();
        all.lemma_sort_by_ensures(le);
        lemma_sorted_unique(owned_view(owned@), all.sort_by(le), le);
    }
    Arc::new(owned)
}

/// Attribute order does not matter to the stored attributes.
pub proof fn law_sorted_attrs_order(a: Seq<AttrView>, b: Seq<AttrView>)
    requires
        a.to_multiset() == b.to_multiset(),
    ensures
        sorted_attrs(a) == sorted_attrs(b),
{
    let le = |a: AttrView, b: AttrView| attr_le(a, b);
    law_attr_order_total();
    a.lemma_sort_by_ensures(le);
    b.lemma_sort_by_ensures(le);
    lemma_sorted_unique(a.sort_by(le), b.sort_by(le), le);
}

/// The stored attributes are the given ones, in ascending order.
pub proof fn law_sorted_attrs(attrs: Seq<AttrView>)
    ensures
        sorted_attrs(attrs).to_multiset() == attrs.to_multiset(),
        sorted_by(sorted_attrs(attrs), |a: AttrView, b: AttrView| attr_le(a, b)),
{
    law_attr_order_total();
    attrs.lemma_sort_by_ensures(|a: AttrView, b: AttrView| attr_le(a, b));
}

/// Stored attributes are the same if and only if the given ones are, up to their order.
pub proof fn law_sorted_attrs_identify(a: Seq<AttrView>, b: Seq<AttrView>)
    ensures
        sorted_attrs(a) == sorted_attrs(b) <==> a.to_multiset() == b.to_multiset(),
{
    law_sorted_attrs(a);
    law_sorted_attrs(b);
    if a.to_multiset() == b.to_multiset() {
        law_sorted_attrs_order(a, b);
    }
}

/// Byte strings are in order by the first byte in which they differ; one that is the beginning of
/// the other comes first.
pub proof fn law_bytes_order(common: Seq<u8>, a: Seq<u8>, b: Seq<u8>)
    requires
        a.len() > 0 && b.len() > 0 ==> a[0] != b[0],
    ensures
        a.len() == 0 ==> bytes_le(common + a, common + b),
        a.len() > 0 && b.len() == 0 ==> !bytes_le(common + a, common + b),
        a.len() > 0 && b.len() > 0 ==> (bytes_le(common + a, common + b) <==> a[0] < b[0]),
    decreases common.len(),
{
    if common.len() == 0 {
        assert(common + a =~= a);
        assert(common + b =~= b);
    } else {
        law_bytes_order(common.skip(1), a, b);
        assert((common + a).skip(1) =~= common.skip(1) + a);
        assert((common + b).skip(1) =~= common.skip(1) + b);
    }
}

/// Attributes are in order by their keys, those with the same key by their values.
pub proof fn law_attr_order(a: AttrView, b: AttrView)
    ensures
        a.0 != b.0 ==> (attr_le(a, b) <==> bytes_le(encode_utf8(a.0), encode_utf8(b.0))),
        a.0 == b.0 ==> (attr_le(a, b) <==> bytes_le(encode_utf8(a.1), encode_utf8(b.1))),
{
}

/// A step of the hash takes in the byte by exclusive or and multiplies by the prime, within
/// sixty-four bits.
pub proof fn law_fnv(hash: u64, bytes: Seq<u8>, byte: u8)
    ensures
        fnv(hash, Seq::empty()) == hash,
        fnv(hash, bytes.push(byte)) == (fnv(hash, bytes) ^ (byte as u64)).wrapping_mul(
            0x100000001b3,
        ),
{
    assert(bytes.push(byte).drop_last() =~= bytes);
}

/// A pair is hashed from the offset basis on: its key, a byte that no text holds, its value.
pub proof fn law_pair_hash(pair: AttrView)
    ensures
        pair_hash(pair) == fnv(
            0xcbf29ce484222325,
            encode_utf8(pair.0) + seq![0xffu8] + encode_utf8(pair.1),
        ),
{
    let key = encode_utf8(pair.0);
    let with = key.push(0xffu8);
    assert(key + seq![0xffu8] =~= with);
    lemma_fnv_concat(0xcbf29ce484222325, with, encode_utf8(pair.1));
    assert(with.drop_last() =~= key);
}

proof fn lemma_fnv_concat(hash: u64, a: Seq<u8>, b: Seq<u8>)
    ensures
        fnv(hash, a + b) == fnv(fnv(hash, a), b),
    decreases b.len(),
{
    if b.len() == 0 {
        assert(a + b =~= a);
    } else {
        assert((a + b).drop_last() =~= a + b.drop_last());
        lemma_fnv_concat(hash, a, b.drop_last());
    }
}

/// The key of an attribute set is the sum of the hashes of its pairs, within sixty-four bits.
pub proof fn law_attrs_key_adds(attrs: Seq<AttrView>, pair: AttrView)
    ensures
        attrs_key(attrs.push(pair)) == attrs_key(attrs).wrapping_add(pair_hash(pair)),
{
    assert(attrs.push(pair).drop_last() =~= attrs);
    reveal_with_fuel(Seq::fold_left, 2);
}

} // verus!
