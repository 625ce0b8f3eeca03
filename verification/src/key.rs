//! Hash keys for integer triples.
//!
//! A coordinate triple is stored under one `u128`: each coordinate is shifted
//! to a non-negative number below `2^32`, and the three are written side by
//! side, 32 bits each.

use vstd::prelude::*;
use vstd::arithmetic::div_mod::lemma_fundamental_div_mod;
use vstd::arithmetic::div_mod::lemma_fundamental_div_mod_converse;

verus! {

/// Whether `c` is the value of an `i32`.
pub open spec fn is_coord(c: int) -> bool {
    i32::MIN <= c <= i32::MAX
}

/// Whether all three components of `p` are values of an `i32`.
pub open spec fn is_coords(p: (int, int, int)) -> bool {
    is_coord(p.0) && is_coord(p.1) && is_coord(p.2)
}

/// Whether `k` is the key of some coordinate triple.
pub open spec fn is_key(k: int) -> bool {
    0 <= k < 0x1_0000_0000_0000_0000_0000_0000
}

/// The key of a coordinate triple.
pub open spec fn pack(p: (int, int, int)) -> int {
    ((p.0 + 0x8000_0000) * 0x1_0000_0000 + (p.1 + 0x8000_0000)) * 0x1_0000_0000 + (p.2
        + 0x8000_0000)
}

/// The coordinate triple of a key.
pub open spec fn unpack(k: int) -> (int, int, int) {
    (
        k / 0x1_0000_0000_0000_0000 - 0x8000_0000,
        (k / 0x1_0000_0000) % 0x1_0000_0000 - 0x8000_0000,
        k % 0x1_0000_0000 - 0x8000_0000,
    )
}

/// A triple of `i32` values is found again from its key.
pub proof fn lemma_unpack_pack(p: (int, int, int))
    requires
        is_coords(p),
    ensures
        is_key(pack(p)),
        unpack(pack(p)) == p,
{
    let a = p.0 + 0x8000_0000;
    let b = p.1 + 0x8000_0000;
    let c = p.2 + 0x8000_0000;
    let k = pack(p);
    assert(k == (a * 0x1_0000_0000 + b) * 0x1_0000_0000 + c);
    assert(k == a * 0x1_0000_0000_0000_0000 + (b * 0x1_0000_0000 + c));
    lemma_fundamental_div_mod_converse(k, 0x1_0000_0000, a * 0x1_0000_0000 + b, c);
    lemma_fundamental_div_mod_converse(a * 0x1_0000_0000 + b, 0x1_0000_0000, a, b);
    lemma_fundamental_div_mod_converse(k, 0x1_0000_0000_0000_0000, a, b * 0x1_0000_0000 + c);
}

/// A key is the key of the triple it unpacks to.
pub proof fn lemma_pack_unpack(k: int)
    requires
        is_key(k),
    ensures
        is_coords(unpack(k)),
        pack(unpack(k)) == k,
{
    let q = k / 0x1_0000_0000;
    let c = k % 0x1_0000_0000;
    lemma_fundamental_div_mod(k, 0x1_0000_0000);
    let a = q / 0x1_0000_0000;
    let b = q % 0x1_0000_0000;
    lemma_fundamental_div_mod(q, 0x1_0000_0000);
    assert(k == 0x1_0000_0000 * q + c);
    assert(q == 0x1_0000_0000 * a + b);
    assert(0 <= c < 0x1_0000_0000);
    assert(0 <= b < 0x1_0000_0000);
    assert(0 <= q);
    assert(0 <= a < 0x1_0000_0000);
    assert(k == a * 0x1_0000_0000_0000_0000 + (b * 0x1_0000_0000 + c));
    lemma_fundamental_div_mod_converse(k, 0x1_0000_0000_0000_0000, a, b * 0x1_0000_0000 + c);
}

/// Different triples have different keys.
pub proof fn lemma_pack_injective(p: (int, int, int), q: (int, int, int))
    requires
        is_coords(p),
        is_coords(q),
        pack(p) == pack(q),
    ensures
        p == q,
{
    lemma_unpack_pack(p);
    lemma_unpack_pack(q);
}

/// The map from coordinate triples that a map from their keys stands for.
pub open spec fn coord_map<V>(m: Map<u128, V>) -> Map<(int, int, int), V> {
    Map::new(
        |p: (int, int, int)| is_coords(p) && m.contains_key(pack(p) as u128),
        |p: (int, int, int)| m[pack(p) as u128],
    )
}

/// An entry stored under the key of a triple is an entry of that triple.
pub proof fn lemma_coord_map_insert<V>(m: Map<u128, V>, p: (int, int, int), v: V)
    requires
        is_coords(p),
    ensures
        coord_map(m.insert(pack(p) as u128, v)) == coord_map(m).insert(p, v),
{
    let a = coord_map(m.insert(pack(p) as u128, v));
    let b = coord_map(m).insert(p, v);
    lemma_unpack_pack(p);
    assert forall|q: (int, int, int)| a.contains_key(q) == b.contains_key(q) && (a.contains_key(
        q,
    ) ==> a[q] == b[q]) by {
        if is_coords(q) {
            lemma_unpack_pack(q);
            if q != p {
                assert(pack(q) != pack(p)) by {
                    if pack(q) == pack(p) {
                        lemma_pack_injective(p, q);
                    }
                }
            }
        }
    }
    assert(a =~= b);
}

/// No triple has an entry where no key has one.
pub proof fn lemma_coord_map_empty<V>()
    ensures
        coord_map(Map::<u128, V>::empty()) == Map::<(int, int, int), V>::empty(),
{
    assert(coord_map(Map::<u128, V>::empty()) =~= Map::<(int, int, int), V>::empty());
}

/// Entries that a map hands out by reference, no one twice, are still no one
/// twice when taken by value.
pub proof fn lemma_unref_no_duplicates<V>(entries: Seq<(&u128, &V)>)
    requires
        entries.no_duplicates(),
    ensures
        entries.unref().no_duplicates(),
{
    let values = entries.unref();
    assert forall|i: int, j: int|
        0 <= i < values.len() && 0 <= j < values.len() && i != j implies values[i] != values[j] by {
        assert(entries[i] != entries[j]);
    }
}

/// The triples under whose keys a sequence of entries is stored.
pub open spec fn positions<V>(entries: Seq<(u128, V)>) -> Seq<(int, int, int)> {
    Seq::new(entries.len(), |i: int| unpack(entries[i].0 as int))
}

/// Entries that list a map from keys once each give, by their triples, a
/// list of the coordinate map's domain, once each.
pub proof fn lemma_positions_enumerate<V>(m: Map<u128, V>, entries: Seq<(u128, V)>)
    requires
        entries.no_duplicates(),
        entries.to_set() == m.kv_pairs(),
        forall|k: u128| m.contains_key(k) ==> is_key(k as int),
    ensures
        positions(entries).no_duplicates(),
        positions(entries).to_set() == coord_map(m).dom(),
        forall|i: int|
            0 <= i < entries.len() ==> coord_map(m).contains_key(#[trigger] positions(entries)[i])
                && coord_map(m)[positions(entries)[i]] == entries[i].1 && pack(
                positions(entries)[i],
            ) == entries[i].0,
{
    let ps = positions(entries);
    assert forall|i: int| 0 <= i < entries.len() implies m.contains_key(entries[i].0) && m[entries[i].0]
        == entries[i].1 && is_key(entries[i].0 as int) by {
        assert(entries.to_set().contains(entries[i]));
        assert(m.kv_pairs().contains(entries[i]));
    }
    assert forall|i: int| 0 <= i < entries.len() implies coord_map(m).contains_key(
        #[trigger] ps[i],
    ) && coord_map(m)[ps[i]] == entries[i].1 && pack(ps[i]) == entries[i].0 by {
        lemma_pack_unpack(entries[i].0 as int);
    }
    assert forall|i: int, j: int| 0 <= i < ps.len() && 0 <= j < ps.len() && i != j implies ps[i]
        != ps[j] by {
        lemma_pack_unpack(entries[i].0 as int);
        lemma_pack_unpack(entries[j].0 as int);
        if ps[i] == ps[j] {
            assert(entries[i].0 == entries[j].0);
            assert(entries[i] == entries[j]);
        }
    }
    assert forall|p: (int, int, int)| ps.to_set().contains(p) == coord_map(m).dom().contains(
        p,
    ) by {
        if ps.to_set().contains(p) {
            let i = choose|i: int| 0 <= i < ps.len() && ps[i] == p;
            assert(coord_map(m).contains_key(ps[i]));
        }
        if coord_map(m).dom().contains(p) {
            let k = pack(p) as u128;
            lemma_unpack_pack(p);
            let pair = (k, m[k]);
            assert(m.kv_pairs().contains(pair));
            assert(entries.to_set().contains(pair));
            let i = choose|i: int| 0 <= i < entries.len() && entries[i] == pair;
            assert(ps[i] == p);
        }
    }
    assert(ps.to_set() =~= coord_map(m).dom());
}

/// A coordinate map has as many entries as the map from keys that it stands
/// for.
pub proof fn lemma_coord_map_len<V>(m: Map<u128, V>)
    requires
        m.dom().finite(),
        forall|k: u128| m.contains_key(k) ==> is_key(k as int),
    ensures
        coord_map(m).dom().finite(),
        coord_map(m).dom().len() == m.dom().len(),
{
    let f = |k: u128| unpack(k as int);
    let image = m.dom().map(f);
    assert forall|p: (int, int, int)| image.contains(p) == coord_map(m).dom().contains(p) by {
        if image.contains(p) {
            let k = choose|k: u128| m.dom().contains(k) && p == f(k);
            lemma_pack_unpack(k as int);
        }
        if coord_map(m).dom().contains(p) {
            lemma_unpack_pack(p);
            assert(m.dom().contains(pack(p) as u128) && p == f(pack(p) as u128));
        }
    }
    assert(image =~= coord_map(m).dom());
    assert forall|a: u128, b: u128|
        m.dom().contains(a) && m.dom().contains(b) && #[trigger] f(a) == #[trigger] f(b) implies a
        == b by {
        lemma_pack_unpack(a as int);
        lemma_pack_unpack(b as int);
    }
    vstd::set_lib::lemma_map_size(m.dom(), image, f);
}

/// The key of the triple `(x, y, z)`.
pub fn pack_key(x: i32, y: i32, z: i32) -> (k: u128)
    ensures
        k == pack((x as int, y as int, z as int)),
        is_key(k as int),
{
    let hi: u128 = (x as i64 + 0x8000_0000) as u128;
    let mid: u128 = (y as i64 + 0x8000_0000) as u128;
    let lo: u128 = (z as i64 + 0x8000_0000) as u128;
    (hi * 0x1_0000_0000 + mid) * 0x1_0000_0000 + lo
}

/// The triple that is stored under the key `k`.
pub fn unpack_key(k: u128) -> (p: (i32, i32, i32))
    requires
        is_key(k as int),
    ensures
        (p.0 as int, p.1 as int, p.2 as int) == unpack(k as int),
        pack((p.0 as int, p.1 as int, p.2 as int)) == k,
{
    proof {
        lemma_pack_unpack(k as int);
    }
    let hi: i64 = (k / 0x1_0000_0000_0000_0000) as i64;
    let mid: i64 = ((k / 0x1_0000_0000) % 0x1_0000_0000) as i64;
    let lo: i64 = (k % 0x1_0000_0000) as i64;
    ((hi - 0x8000_0000) as i32, (mid - 0x8000_0000) as i32, (lo - 0x8000_0000) as i32)
}

} // verus!
