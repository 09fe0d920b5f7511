use vstd::prelude::*;

verus! {

/// Chunk coordinate of a block coordinate (floor division by 16).
pub fn chunk_coord(b: i32) -> (c: i32)
    ensures
        c == b / 16,
        c * 16 <= b < c * 16 + 16,
{
    match b.checked_div_euclid(16) {
        Some(q) => q,
        None => 0,
    }
}

/// Position of a block coordinate inside its chunk (Euclidean remainder by 16).
pub fn local_coord(b: i32) -> (l: usize)
    ensures
        l == b % 16,
        l < 16,
        (b / 16) * 16 + l == b,
{
    match b.checked_rem_euclid(16) {
        Some(r) => r as usize,
        None => 0,
    }
}

/// The integer under which the chunk at (cx, cz) is filed: the 64-bit word whose high half
/// holds `cx` and whose low half holds the two's-complement bits of `cz`.
pub open spec fn pos_key(cx: i32, cz: i32) -> int {
    cx * 0x1_0000_0000 + (if cz >= 0 { cz as int } else { cz + 0x1_0000_0000 })
}

/// Distinct chunk positions are filed under distinct keys.
pub proof fn lemma_pos_key_injective(a: i32, b: i32, c: i32, d: i32)
    ensures
        pos_key(a, b) == pos_key(c, d) ==> (a == c && b == d),
        i64::MIN <= pos_key(a, b) <= i64::MAX,
{
}

/// The chunk position filed under key `k` (the inverse of `pos_key`).
pub open spec fn key_pos(k: int) -> (i32, i32) {
    let lo = k % 0x1_0000_0000;
    ((k / 0x1_0000_0000) as i32, (if lo < 0x8000_0000 { lo } else { lo - 0x1_0000_0000 }) as i32)
}

/// `key_pos` undoes `pos_key`, and every 64-bit key is the key of its position.
pub proof fn lemma_key_pos_inverse(cx: i32, cz: i32, k: i64)
    ensures
        key_pos(pos_key(cx, cz)) == (cx, cz),
        pos_key(key_pos(k as int).0, key_pos(k as int).1) == k,
{
    let q = pos_key(cx, cz);
    let lo: int = if cz >= 0 { cz as int } else { cz + 0x1_0000_0000 };
    vstd::arithmetic::div_mod::lemma_fundamental_div_mod_converse(q, 0x1_0000_0000, cx as int, lo);
}

/// The key of chunk position (cx, cz).
pub fn pack_pos(cx: i32, cz: i32) -> (k: i64)
    ensures
        k == pos_key(cx, cz),
{
    let low: i64 = if cz >= 0 { cz as i64 } else { cz as i64 + 0x1_0000_0000 };
    (cx as i64) * 0x1_0000_0000 + low
}

/// The chunk position filed under key `k`.
pub fn unpack_pos(k: i64) -> (p: (i32, i32))
    ensures
        pos_key(p.0, p.1) == k,
        p == key_pos(k as int),
{
    let hi: i64 = match k.checked_div_euclid(0x1_0000_0000) {
        Some(q) => q,
        None => 0,
    };
    let lo: i64 = match k.checked_rem_euclid(0x1_0000_0000) {
        Some(r) => r,
        None => 0,
    };
    let cz: i64 = if lo < 0x8000_0000 { lo } else { lo - 0x1_0000_0000 };
    (hi as i32, cz as i32)
}

} // verus!
