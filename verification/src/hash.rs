//! The 64-bit content hash of a file.

use vstd::arithmetic::div_mod::{
    lemma_fundamental_div_mod, lemma_mod_multiples_vanish, lemma_mul_mod_noop_left,
    lemma_small_mod, lemma_sub_mod_noop,
};
use vstd::prelude::*;

verus! {

/// The hash of an empty file.
pub const HASH_OFFSET: u64 = 0xcbf29ce484222325;

/// The factor that every byte is spread with.
pub const HASH_PRIME: u64 = 0x100000001b3;

/// The hash after one more byte.
pub open spec fn hash_byte(hash: u64, byte: u8) -> u64 {
    (((hash ^ (byte as u64)) * HASH_PRIME) % 0x1_0000_0000_0000_0000) as u64
}

/// The hash after more bytes, from left to right.
pub open spec fn hash_bytes(hash: u64, bytes: Seq<u8>) -> u64
    decreases bytes.len(),
{
    if bytes.len() == 0 {
        hash
    } else {
        hash_byte(hash_bytes(hash, bytes.drop_last()), bytes.last())
    }
}

/// The hash of a whole file.
pub open spec fn content_hash(content: Seq<u8>) -> u64 {
    hash_bytes(HASH_OFFSET, content)
}

/// Takes the next bytes of a file into its hash. A file starts with `HASH_OFFSET`.
pub fn hash_chunk(hash: u64, chunk: &[u8]) -> (next: u64)
    ensures
        next == hash_bytes(hash, chunk@),
{
    let mut next: u64 = hash;
    assert(chunk@.take(0) == Seq::<u8>::empty());
    for i in 0..chunk.len()
        invariant
            next == hash_bytes(hash, chunk@.take(i as int)),
    {
        assert(chunk@.take(i + 1).drop_last() == chunk@.take(i as int));
        let mixed: u64 = next ^ (chunk[i] as u64);
        next = mixed.wrapping_mul(HASH_PRIME);
    }
    assert(chunk@.take(chunk@.len() as int) == chunk@);
    next
}

/// Hashing more bytes goes on where hashing the bytes before them ended.
proof fn lemma_hash_goes_on(hash: u64, first: Seq<u8>, second: Seq<u8>)
    ensures
        hash_bytes(hash_bytes(hash, first), second) == hash_bytes(hash, first + second),
    decreases second.len(),
{
    if second.len() == 0 {
        assert(first + second == first);
    } else {
        assert((first + second).drop_last() == first + second.drop_last());
        lemma_hash_goes_on(hash, first, second.drop_last());
    }
}

/// The hash of a file does not depend on the pieces in which it is read.
pub proof fn law_hash_of_chunks(first: Seq<u8>, second: Seq<u8>)
    ensures
        hash_bytes(content_hash(first), second) == content_hash(first + second),
        content_hash(Seq::empty()) == HASH_OFFSET,
{
    lemma_hash_goes_on(HASH_OFFSET, first, second);
}

/// Multiplying by the factor can be undone, as it is odd.
proof fn lemma_factor_loses_nothing(a: int, b: int)
    requires
        0 <= a < 0x1_0000_0000_0000_0000,
        0 <= b < 0x1_0000_0000_0000_0000,
        (a * HASH_PRIME) % 0x1_0000_0000_0000_0000 == (b * HASH_PRIME) % 0x1_0000_0000_0000_0000,
    ensures
        a == b,
{
    lemma_factor_is_undone(a);
    lemma_factor_is_undone(b);
}

/// What the factor did, its inverse undoes.
proof fn lemma_factor_is_undone(a: int)
    requires
        0 <= a < 0x1_0000_0000_0000_0000,
    ensures
        (((a * HASH_PRIME) % 0x1_0000_0000_0000_0000) * 0xce965057aff6957b) % 0x1_0000_0000_0000_0000
            == a,
{
    let m: int = 0x1_0000_0000_0000_0000;
    let p: int = HASH_PRIME as int;
    let q: int = 0xce965057aff6957b;
    let k: int = 887285111055;
    assert(p * q == k * m + 1);
    lemma_mul_mod_noop_left(a * p, q, m);
    assert((a * p) * q == m * (a * k) + a) by (nonlinear_arith)
        requires
            p * q == k * m + 1,
    ;
    lemma_mod_multiples_vanish(a * k, a, m);
    lemma_small_mod(a as nat, m as nat);
}

/// Hashing a byte keeps different hashes apart, and tells different bytes apart.
pub proof fn law_every_byte_counts(hash: u64, other: u64, a: u8, b: u8)
    ensures
        a != b ==> hash_byte(hash, a) != hash_byte(hash, b),
        hash != other ==> hash_byte(hash, a) != hash_byte(other, a),
{
    let (x, y, z) = (hash ^ (a as u64), hash ^ (b as u64), other ^ (a as u64));
    assert(a != b ==> x != y) by (bit_vector)
        requires
            x == hash ^ (a as u64),
            y == hash ^ (b as u64),
    ;
    assert(hash != other ==> x != z) by (bit_vector)
        requires
            x == hash ^ (a as u64),
            z == other ^ (a as u64),
    ;
    if hash_byte(hash, a) == hash_byte(hash, b) {
        lemma_factor_loses_nothing(x as int, y as int);
    }
    if hash_byte(hash, a) == hash_byte(other, a) {
        lemma_factor_loses_nothing(x as int, z as int);
    }
}

/// Hashing the same bytes keeps different hashes apart.
proof fn lemma_hashes_stay_apart(hash: u64, other: u64, bytes: Seq<u8>)
    requires
        hash != other,
    ensures
        hash_bytes(hash, bytes) != hash_bytes(other, bytes),
    decreases bytes.len(),
{
    if bytes.len() > 0 {
        lemma_hashes_stay_apart(hash, other, bytes.drop_last());
        law_every_byte_counts(
            hash_bytes(hash, bytes.drop_last()),
            hash_bytes(other, bytes.drop_last()),
            bytes.last(),
            bytes.last(),
        );
    }
}

/// Two files that have different hashes still have them when both go on in the same way.
pub proof fn law_differences_are_never_lost(first: Seq<u8>, second: Seq<u8>, tail: Seq<u8>)
    requires
        content_hash(first) != content_hash(second),
    ensures
        content_hash(first + tail) != content_hash(second + tail),
{
    lemma_hash_goes_on(HASH_OFFSET, first, tail);
    lemma_hash_goes_on(HASH_OFFSET, second, tail);
    lemma_hashes_stay_apart(content_hash(first), content_hash(second), tail);
}

/// Changing one byte of a file, in any of its bits, changes the hash.
pub proof fn law_changed_byte_changes_the_hash(content: Seq<u8>, place: int, byte: u8)
    requires
        0 <= place < content.len(),
        content[place] != byte,
    ensures
        content_hash(content.update(place, byte)) != content_hash(content),
{
    let front = content.take(place);
    let tail = content.skip(place + 1);
    let before = front.push(content[place]);
    let after = front.push(byte);
    assert(before.drop_last() == front && after.drop_last() == front);
    law_every_byte_counts(content_hash(front), 0, content[place], byte);
    law_differences_are_never_lost(before, after, tail);
    assert(before + tail == content);
    assert(after + tail == content.update(place, byte));
}

/// Hashes that differ in their lowest byte only are close together.
proof fn lemma_close_together(u: u64, v: u64, a: u8, b: u8)
    requires
        u ^ (b as u64) == v ^ (a as u64),
    ensures
        u - v < 256,
        v - u < 256,
{
    assert(u < v + 256 && v < u + 256) by (bit_vector)
        requires
            u ^ (b as u64) == v ^ (a as u64),
    ;
}

/// The order of bytes counts: exchanging two different neighbours changes the hash.
pub proof fn law_exchanged_bytes_change_the_hash(content: Seq<u8>, place: int)
    requires
        0 <= place < content.len() - 1,
        content[place] != content[place + 1],
    ensures
        content_hash(
            content.update(place, content[place + 1]).update(place + 1, content[place]),
        ) != content_hash(content),
{
    let m: int = 0x1_0000_0000_0000_0000;
    let p: int = HASH_PRIME as int;
    let (a, b) = (content[place], content[place + 1]);
    let front = content.take(place);
    let tail = content.skip(place + 2);
    let (one, two) = (front.push(a), front.push(b));
    let before = one.push(b);
    let after = two.push(a);
    let h = content_hash(front);
    assert(one.drop_last() == front && two.drop_last() == front);
    assert(before.drop_last() == one && after.drop_last() == two);
    let (x, y) = (h ^ (a as u64), h ^ (b as u64));
    let (u, v) = (content_hash(one), content_hash(two));
    if content_hash(before) == content_hash(after) {
        lemma_factor_loses_nothing((u ^ (b as u64)) as int, (v ^ (a as u64)) as int);
        lemma_close_together(u, v, a, b);
        assert(x != y && x < y + 256 && y < x + 256) by (bit_vector)
            requires
                a != b,
                x == h ^ (a as u64),
                y == h ^ (b as u64),
        ;
        let d = x - y;
        assert((u - v) % m == (d * p) % m) by {
            lemma_sub_mod_noop(x * p, y * p, m);
            assert(x * p - y * p == d * p) by (nonlinear_arith)
                requires
                    d == x - y,
            ;
            lemma_small_mod(u as nat, m as nat);
            lemma_small_mod(v as nat, m as nat);
        }
        lemma_fundamental_div_mod(u - v, m);
        lemma_fundamental_div_mod(d * p, m);
    }
    law_differences_are_never_lost(before, after, tail);
    assert(before + tail == content);
    assert(after + tail == content.update(place, b).update(place + 1, a));
}

} // verus!
