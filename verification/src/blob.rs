//! The stored form of an embedding: each component's 32-bit pattern
//! (`f32::to_bits`) as four little-endian bytes, one component after the
//! other.

use vstd::prelude::*;

verus! {

/// The four little-endian bytes of a 32-bit word.
pub open spec fn le_bytes(w: u32) -> Seq<u8> {
    seq![(w % 256) as u8, ((w / 256) % 256) as u8, ((w / 65536) % 256) as u8, (w / 16777216) as u8]
}

/// The word written by four little-endian bytes starting at `4 * i`.
pub open spec fn word_at(b: Seq<u8>, i: int) -> u32 {
    (b[4 * i] + 256 * b[4 * i + 1] + 65536 * b[4 * i + 2] + 16777216 * b[4 * i + 3]) as u32
}

/// The blob of a sequence of words: their bytes, one word after the other.
pub open spec fn blob_of(words: Seq<u32>) -> Seq<u8> {
    Seq::new(4 * words.len(), |j: int| le_bytes(words[j / 4])[j % 4])
}

/// The words of a blob; none when its length is not a multiple of four.
pub open spec fn words_of(b: Seq<u8>) -> Seq<u32> {
    if b.len() % 4 != 0 {
        Seq::empty()
    } else {
        Seq::new(b.len() / 4, |i: int| word_at(b, i))
    }
}

/// A word is the little-endian sum of its bytes.
proof fn lemma_word_bytes(w: u32)
    ensures
        (w % 256) + 256 * ((w / 256) % 256) + 65536 * ((w / 65536) % 256) + 16777216 * (w / 16777216) == w,
        w / 16777216 < 256,
{
    assert((w % 256) + 256 * ((w / 256) % 256) + 65536 * ((w / 65536) % 256) + 16777216 * (w / 16777216) == w)
        by (nonlinear_arith);
    assert(w / 16777216 < 256) by (nonlinear_arith);
}

/// Encodes the bit patterns of an embedding's components.
pub fn embedding_to_blob(embedding: &[u32]) -> (r: Vec<u8>)
    requires
        4 * embedding@.len() <= usize::MAX,
    ensures
        r@ == blob_of(embedding@),
{
    let mut out: Vec<u8> = Vec::new();
    let mut i: usize = 0;
    while i < embedding.len()
        invariant
            i <= embedding@.len(),
            4 * embedding@.len() <= usize::MAX,
            out@.len() == 4 * i,
            forall|j: int| 0 <= j < 4 * i ==> #[trigger] out@[j] == le_bytes(embedding@[j / 4])[j % 4],
        decreases embedding@.len() - i,
    {
        let w = embedding[i];
        let ghost before = out@;
        proof {
            lemma_word_bytes(w);
        }
        out.push((w % 256) as u8);
        out.push(((w / 256) % 256) as u8);
        out.push(((w / 65536) % 256) as u8);
        out.push((w / 16777216) as u8);
        proof {
            assert forall|j: int| 0 <= j < 4 * (i + 1) implies #[trigger] out@[j] == le_bytes(embedding@[j / 4])[j
                % 4] by {
                if j >= 4 * i {
                    assert(j / 4 == i);
                    assert(j % 4 == j - 4 * i);
                } else {
                    assert(out@[j] == before[j]);
                }
            }
        }
        i = i + 1;
    }
    proof {
        assert(out@ =~= blob_of(embedding@));
    }
    out
}

/// Decodes a blob written by [`embedding_to_blob`]; an empty or misaligned
/// blob gives no components.
pub fn embedding_from_blob(blob: &[u8]) -> (r: Vec<u32>)
    ensures
        r@ == words_of(blob@),
{
    let mut out: Vec<u32> = Vec::new();
    if blob.len() % 4 != 0 {
        proof {
            assert(out@ =~= words_of(blob@));
        }
        return out;
    }
    let len = blob.len();
    let n = len / 4;
    let mut i: usize = 0;
    while i < n
        invariant
            len == blob@.len(),
            n == blob@.len() / 4,
            blob@.len() % 4 == 0,
            4 * n == blob@.len(),
            i <= n,
            out@.len() == i,
            forall|k: int| 0 <= k < i ==> #[trigger] out@[k] == word_at(blob@, k),
        decreases n - i,
    {
        let b0 = blob[4 * i] as u32;
        let b1 = blob[4 * i + 1] as u32;
        let b2 = blob[4 * i + 2] as u32;
        let b3 = blob[4 * i + 3] as u32;
        out.push(b0 + 256 * b1 + 65536 * b2 + 16777216 * b3);
        i = i + 1;
    }
    proof {
        assert(out@ =~= words_of(blob@));
    }
    out
}

/// Decoding an encoded embedding gives it back.
pub proof fn lemma_blob_round_trip(words: Seq<u32>)
    ensures
        words_of(blob_of(words)) == words,
{
    let b = blob_of(words);
    assert(b.len() % 4 == 0) by (nonlinear_arith)
        requires
            b.len() == 4 * words.len(),
    ;
    assert(b.len() / 4 == words.len()) by (nonlinear_arith)
        requires
            b.len() == 4 * words.len(),
    ;
    assert forall|i: int| 0 <= i < words.len() implies #[trigger] word_at(b, i) == words[i] by {
        let w = words[i];
        lemma_word_bytes(w);
        assert((4 * i) / 4 == i && (4 * i) % 4 == 0);
        assert((4 * i + 1) / 4 == i && (4 * i + 1) % 4 == 1);
        assert((4 * i + 2) / 4 == i && (4 * i + 2) % 4 == 2);
        assert((4 * i + 3) / 4 == i && (4 * i + 3) % 4 == 3);
        assert(b[4 * i] == (w % 256) as u8);
        assert(b[4 * i + 1] == ((w / 256) % 256) as u8);
        assert(b[4 * i + 2] == ((w / 65536) % 256) as u8);
        assert(b[4 * i + 3] == (w / 16777216) as u8);
    }
    assert(words_of(b) =~= words);
}

/// Encoding the words of an aligned blob gives the blob back.
pub proof fn lemma_words_round_trip(b: Seq<u8>)
    requires
        b.len() % 4 == 0,
    ensures
        blob_of(words_of(b)) == b,
{
    let ws = words_of(b);
    assert(4 * ws.len() == b.len());
    assert forall|j: int| 0 <= j < b.len() implies #[trigger] blob_of(ws)[j] == b[j] by {
        let i = j / 4;
        let k = j % 4;
        assert(0 <= i < ws.len());
        assert(j == 4 * i + k);
        let w = word_at(b, i);
        let b0 = b[4 * i] as int;
        let b1 = b[4 * i + 1] as int;
        let b2 = b[4 * i + 2] as int;
        let b3 = b[4 * i + 3] as int;
        assert(w == b0 + 256 * b1 + 65536 * b2 + 16777216 * b3);
        assert(w % 256 == b0 && (w / 256) % 256 == b1 && (w / 65536) % 256 == b2 && w / 16777216 == b3)
            by (nonlinear_arith)
            requires
                w == b0 + 256 * b1 + 65536 * b2 + 16777216 * b3,
                0 <= b0 < 256,
                0 <= b1 < 256,
                0 <= b2 < 256,
                0 <= b3 < 256,
        ;
    }
    assert(blob_of(ws) =~= b);
}

} // verus!
