use vstd::prelude::*;

verus! {

/// Byte `j` (0 = least significant) of a sample's bit pattern.
pub open spec fn byte_of(x: u32, j: int) -> u8 {
    if j == 0 {
        (x & 0xff) as u8
    } else if j == 1 {
        ((x >> 8u32) & 0xff) as u8
    } else if j == 2 {
        ((x >> 16u32) & 0xff) as u8
    } else {
        ((x >> 24u32) & 0xff) as u8
    }
}

/// The sample whose little-endian bytes are `b0 b1 b2 b3`.
pub open spec fn word_of(b0: u8, b1: u8, b2: u8, b3: u8) -> u32 {
    (b0 as u32) | ((b1 as u32) << 8u32) | ((b2 as u32) << 16u32) | ((b3 as u32) << 24u32)
}

/// The wire form of a block: four little-endian bytes per sample, in order.
pub open spec fn wire_of(s: Seq<u32>) -> Seq<u8> {
    Seq::new((4 * s.len()) as nat, |k: int| byte_of(s[k / 4], k % 4))
}

/// The block carried by a wire form: one sample per full group of four
/// bytes; a trailing partial group carries nothing.
pub open spec fn samples_of(b: Seq<u8>) -> Seq<u32> {
    Seq::new(
        b.len() / 4,
        |i: int| word_of(b[4 * i], b[4 * i + 1], b[4 * i + 2], b[4 * i + 3]),
    )
}

proof fn lemma_word_of_bytes(x: u32)
    ensures
        word_of(byte_of(x, 0), byte_of(x, 1), byte_of(x, 2), byte_of(x, 3)) == x,
{
    assert(((x & 0xff) as u8) as u32 | ((((x >> 8u32) & 0xff) as u8) as u32) << 8u32 | ((((x
        >> 16u32) & 0xff) as u8) as u32) << 16u32 | ((((x >> 24u32) & 0xff) as u8) as u32)
        << 24u32 == x) by (bit_vector);
}

proof fn lemma_bytes_of_word(b0: u8, b1: u8, b2: u8, b3: u8)
    ensures
        byte_of(word_of(b0, b1, b2, b3), 0) == b0,
        byte_of(word_of(b0, b1, b2, b3), 1) == b1,
        byte_of(word_of(b0, b1, b2, b3), 2) == b2,
        byte_of(word_of(b0, b1, b2, b3), 3) == b3,
{
    assert((((b0 as u32) | ((b1 as u32) << 8u32) | ((b2 as u32) << 16u32) | ((b3 as u32)
        << 24u32)) & 0xff) as u8 == b0) by (bit_vector);
    assert(((((b0 as u32) | ((b1 as u32) << 8u32) | ((b2 as u32) << 16u32) | ((b3 as u32)
        << 24u32)) >> 8u32) & 0xff) as u8 == b1) by (bit_vector);
    assert(((((b0 as u32) | ((b1 as u32) << 8u32) | ((b2 as u32) << 16u32) | ((b3 as u32)
        << 24u32)) >> 16u32) & 0xff) as u8 == b2) by (bit_vector);
    assert(((((b0 as u32) | ((b1 as u32) << 8u32) | ((b2 as u32) << 16u32) | ((b3 as u32)
        << 24u32)) >> 24u32) & 0xff) as u8 == b3) by (bit_vector);
}

/// Decoding the wire form of any block gives back that block, sample for
/// sample and bit for bit.
pub proof fn lemma_round_trip(x: Seq<u32>)
    ensures
        samples_of(wire_of(x)) == x,
{
    let w = wire_of(x);
    assert forall|i: int| 0 <= i < x.len() implies samples_of(w)[i] == x[i] by {
        assert((4 * i) / 4 == i && (4 * i + 1) / 4 == i && (4 * i + 2) / 4 == i && (4 * i + 3)
            / 4 == i);
        assert((4 * i) % 4 == 0 && (4 * i + 1) % 4 == 1 && (4 * i + 2) % 4 == 2 && (4 * i + 3)
            % 4 == 3);
        lemma_word_of_bytes(x[i]);
    }
    assert(samples_of(w) =~= x);
}

/// Decoding `4k + r` bytes with `0 <= r < 4` gives exactly `k` samples: those
/// of the first `4k` bytes, the last `r` bytes being dropped. Encoding that
/// result gives back the first `4k` bytes.
pub proof fn lemma_truncation(b: Seq<u8>)
    ensures
        samples_of(b).len() == b.len() / 4,
        samples_of(b) == samples_of(b.take(4 * (b.len() / 4) as int)),
        wire_of(samples_of(b)) == b.take(4 * (b.len() / 4) as int),
{
    let k = (b.len() / 4) as int;
    let t = b.take(4 * k);
    assert forall|j: int| 0 <= j < k implies samples_of(b)[j] == samples_of(t)[j] by {
        assert(t[4 * j] == b[4 * j] && t[4 * j + 1] == b[4 * j + 1] && t[4 * j + 2] == b[4 * j
            + 2] && t[4 * j + 3] == b[4 * j + 3]);
    }
    assert(samples_of(b) =~= samples_of(t));
    let s = samples_of(b);
    assert forall|m: int| 0 <= m < 4 * k implies wire_of(s)[m] == t[m] by {
        let j = m / 4;
        let q = m % 4;
        assert(m == 4 * j + q && 0 <= q < 4 && 0 <= j < k);
        lemma_bytes_of_word(b[4 * j], b[4 * j + 1], b[4 * j + 2], b[4 * j + 3]);
    }
    assert(wire_of(s) =~= t);
}

/// Encodes a block into its wire form.
pub fn encode(samples: &Vec<u32>) -> (r: Vec<u8>)
    ensures
        r@ == wire_of(samples@),
{
    let mut out: Vec<u8> = Vec::new();
    let mut i: usize = 0;
    while i < samples.len()
        invariant
            i <= samples@.len(),
            out@ =~= wire_of(samples@.take(i as int)),
        decreases samples@.len() - i,
    {
        let x = samples[i];
        out.push((x & 0xff) as u8);
        out.push(((x >> 8u32) & 0xff) as u8);
        out.push(((x >> 16u32) & 0xff) as u8);
        out.push(((x >> 24u32) & 0xff) as u8);
        proof {
            let s = samples@.take(i + 1);
            assert forall|k: int| 0 <= k < 4 * s.len() implies out@[k] == wire_of(s)[k] by {
                if k < 4 * i {
                    assert(samples@.take(i as int)[k / 4] == s[k / 4]);
                }
            }
            assert(out@ =~= wire_of(s));
        }
        i = i + 1;
    }
    assert(samples@.take(i as int) =~= samples@);
    out
}

/// Decodes a wire form into its block, dropping a trailing partial group.
pub fn decode(bytes: &Vec<u8>) -> (r: Vec<u32>)
    ensures
        r@ == samples_of(bytes@),
        r@.len() == bytes@.len() / 4,
{
    let mut out: Vec<u32> = Vec::new();
    let n = bytes.len();
    let mut i: usize = 0;
    while n - i >= 4
        invariant
            n == bytes@.len(),
            i <= n,
            i % 4 == 0,
            out@ =~= samples_of(bytes@.take(i as int)),
        decreases n - i,
    {
        let w = (bytes[i] as u32) | ((bytes[i + 1] as u32) << 8u32) | ((bytes[i + 2] as u32)
            << 16u32) | ((bytes[i + 3] as u32) << 24u32);
        out.push(w);
        proof {
            let t = bytes@.take(i + 4);
            assert forall|j: int| 0 <= j < t.len() / 4 implies out@[j] == samples_of(t)[j] by {
                if j < i / 4 {
                    let p = bytes@.take(i as int);
                    assert(p[4 * j] == t[4 * j] && p[4 * j + 1] == t[4 * j + 1] && p[4 * j + 2]
                        == t[4 * j + 2] && p[4 * j + 3] == t[4 * j + 3]);
                }
            }
            assert(out@ =~= samples_of(t));
        }
        i = i + 4;
    }
    proof {
        let t = bytes@.take(i as int);
        assert forall|j: int| 0 <= j < t.len() / 4 implies samples_of(bytes@)[j] == samples_of(t)[j] by {
            assert(t[4 * j] == bytes@[4 * j] && t[4 * j + 1] == bytes@[4 * j + 1] && t[4 * j + 2]
                == bytes@[4 * j + 2] && t[4 * j + 3] == bytes@[4 * j + 3]);
        }
        assert(samples_of(bytes@) =~= samples_of(t));
    }
    out
}

} // verus!
