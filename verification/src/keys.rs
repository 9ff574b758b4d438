//! The key by which Prometheus finds a sample among those of its family.

use vstd::prelude::*;
use vstd::utf8::encode_utf8;

verus! {

use crate::rows::texts;

/// The hash of no bytes.
pub const FNV_OFFSET: u64 = 0xcbf2_9ce4_8422_2325;

/// What the hash is multiplied by after every byte.
pub const FNV_PRIME: u64 = 0x100_0000_01b3;

/// The FNV-1a hash of some bytes, in 64 bits.
pub open spec fn fnv1a(bytes: Seq<u8>) -> u64
    decreases bytes.len(),
{
    if bytes.len() == 0 {
        FNV_OFFSET
    } else {
        (fnv1a(bytes.drop_last()) ^ (bytes.last() as u64)).wrapping_mul(FNV_PRIME)
    }
}

/// The hash by which Prometheus finds a sample. It is taken of the label values one after another,
/// with nothing between them.
pub open spec fn label_hash(values: Seq<char>) -> u64 {
    fnv1a(encode_utf8(values))
}

/// The key of the sample with these label values.
pub open spec fn series_key(labels: Seq<Seq<char>>) -> u64 {
    label_hash(labels.flatten())
}

/// The bytes of two texts one after another are the bytes of the whole.
proof fn lemma_encode_concat(a: Seq<char>, b: Seq<char>)
    ensures
        encode_utf8(a + b) == encode_utf8(a) + encode_utf8(b),
    decreases a.len(),
{
    if a.len() == 0 {
        assert(a + b =~= b);
        assert(encode_utf8(a) + encode_utf8(b) =~= encode_utf8(b));
    } else {
        assert((a + b).drop_first() =~= a.drop_first() + b);
        lemma_encode_concat(a.drop_first(), b);
        assert(encode_utf8(a + b) =~= encode_utf8(a) + encode_utf8(b));
    }
}

/// The key of the sample with these label values.
pub fn label_key<const N: usize>(labels: &[&str; N]) -> (r: u64)
    ensures
        r == series_key(texts(labels@)),
{
    let ghost row = texts(labels@);
    let mut hash: u64 = FNV_OFFSET;
    let mut i: usize = 0;
    assert(row.take(0).flatten() =~= Seq::empty());
    while i < N
        invariant
            i <= N,
            row == texts(labels@),
            hash == fnv1a(encode_utf8(row.take(i as int).flatten())),
        decreases N - i,
    {
        let bytes = labels[i].as_bytes();
        let ghost before = encode_utf8(row.take(i as int).flatten());
        let mut j: usize = 0;
        assert(before + bytes@.take(0) =~= before);
        while j < bytes.len()
            invariant
                j <= bytes@.len(),
                hash == fnv1a(before + bytes@.take(j as int)),
            decreases bytes@.len() - j,
        {
            proof {
                let next = before + bytes@.take(j + 1);
                assert(next.drop_last() =~= before + bytes@.take(j as int));
                assert(next.last() == bytes@[j as int]);
            }
            hash = (hash ^ (bytes[j] as u64)).wrapping_mul(FNV_PRIME);
            j = j + 1;
        }
        proof {
            assert(bytes@.take(j as int) =~= bytes@);
            assert(row.take(i + 1) =~= row.take(i as int).push(row[i as int]));
            row.take(i as int).lemma_flatten_push(row[i as int]);
            lemma_encode_concat(row.take(i as int).flatten(), row[i as int]);
        }
        i = i + 1;
    }
    assert(row.take(i as int) =~= row);
    hash
}

/// Law: the key of a row is built up byte by byte from the encoding of its values, run together.
pub proof fn law_key_of_a_row(labels: Seq<Seq<char>>, bytes: Seq<u8>, byte: u8)
    ensures
        fnv1a(Seq::empty()) == 0xcbf2_9ce4_8422_2325u64,
        fnv1a(bytes.push(byte)) == (fnv1a(bytes) ^ (byte as u64)).wrapping_mul(
            0x100_0000_01b3u64,
        ),
        series_key(labels) == fnv1a(encode_utf8(labels.flatten())),
{
    assert(bytes.push(byte).drop_last() =~= bytes);
}

/// Law: label values that spell the same text one after another have the same key.
pub proof fn law_same_text_same_key(a: Seq<Seq<char>>, b: Seq<Seq<char>>)
    requires
        a.flatten() == b.flatten(),
    ensures
        series_key(a) == series_key(b),
{
}

} // verus!
