//! Reassembly of a chunked download: every chunk that arrives, in whatever
//! order the workers deliver them, is copied into its place in a buffer of
//! the object's size.

use vstd::prelude::*;
use crate::chunks::{CHUNK_SIZE, download_fits, min_int, num_chunks, spec_chunk_range};

verus! {

/// `buf` with the bytes from `at` on overwritten by `chunk`.
pub open spec fn splice(buf: Seq<u8>, at: int, chunk: Seq<u8>) -> Seq<u8> {
    buf.take(at) + chunk + buf.skip(at + chunk.len())
}

/// `size` zero bytes.
pub open spec fn zeros(size: nat) -> Seq<u8> {
    Seq::new(size, |i: int| 0u8)
}

/// The bytes of chunk `i` of `object`: those of its chunk range.
pub open spec fn chunk_body(object: Seq<u8>, i: int) -> Seq<u8> {
    object.subrange(i * CHUNK_SIZE, min_int(i * CHUNK_SIZE + CHUNK_SIZE, object.len() as int))
}

/// The buffer after the chunks of `object` with the indices in `arrivals`
/// have been placed into `buf`, in that order.
pub open spec fn assemble(buf: Seq<u8>, object: Seq<u8>, arrivals: Seq<int>) -> Seq<u8>
    decreases arrivals.len(),
{
    if arrivals.len() == 0 {
        buf
    } else {
        let i: int = arrivals.last();
        splice(assemble(buf, object, arrivals.drop_last()), i * CHUNK_SIZE, chunk_body(object, i))
    }
}

/// Allocates the zero-filled buffer of `size` bytes into which chunks are
/// placed.
pub fn zeroed_buffer(size: usize) -> (buf: Vec<u8>)
    ensures
        buf@ == zeros(size as nat),
{
    let mut buf: Vec<u8> = Vec::new();
    let mut k: usize = 0;
    while k < size
        invariant
            k <= size,
            buf@ == zeros(k as nat),
        decreases size - k,
    {
        buf.push(0u8);
        k = k + 1;
        assert(buf@ =~= zeros(k as nat));
    }
    buf
}

/// Whether the body of chunk `index`, of `chunk_len` bytes, fits in a buffer
/// of `buffer_len` bytes at its place; a body that does not fit cannot be
/// placed.
pub fn chunk_fits(buffer_len: usize, index: usize, chunk_len: usize) -> (fits: bool)
    ensures
        fits == (index * CHUNK_SIZE + chunk_len <= buffer_len),
{
    if chunk_len > buffer_len {
        false
    } else {
        let room: usize = buffer_len - chunk_len;
        proof {
            let c: int = CHUNK_SIZE as int;
            vstd::arithmetic::div_mod::lemma_fundamental_div_mod(room as int, c);
            let q: int = room as int / c;
            let r: int = room as int % c;
            assert(0 <= r < c);
            assert((index <= q) <==> (index * c <= room)) by (nonlinear_arith)
                requires
                    room == c * q + r,
                    0 <= r < c,
                    index >= 0,
            ;
        }
        index <= room / CHUNK_SIZE
    }
}

/// Copies the body of chunk `index` into its place in `result`, starting at
/// byte `index * CHUNK_SIZE`.
pub fn place_chunk(result: &mut Vec<u8>, index: usize, chunk: &[u8])
    requires
        index * CHUNK_SIZE + chunk@.len() <= old(result)@.len(),
    ensures
        final(result)@ == splice(old(result)@, index * CHUNK_SIZE, chunk@),
{
    let total: usize = result.len();
    let at: usize = index * CHUNK_SIZE;
    let ghost before = result@;
    let mut k: usize = 0;
    while k < chunk.len()
        invariant
            at == index * CHUNK_SIZE,
            at + chunk@.len() <= before.len(),
            before.len() == total,
            k <= chunk@.len(),
            result@.len() == before.len(),
            forall|p: int| 0 <= p < at ==> #[trigger] result@[p] == before[p],
            forall|p: int| at <= p < at + k ==> #[trigger] result@[p] == chunk@[p - at],
            forall|p: int| at + k <= p < before.len() ==> #[trigger] result@[p] == before[p],
        decreases chunk@.len() - k,
    {
        result.set(at + k, chunk[k]);
        k = k + 1;
    }
    assert(result@ =~= splice(before, at as int, chunk@));
}

/// `p / CHUNK_SIZE == i` exactly for the bytes `p` of chunk `i`.
proof fn lemma_chunk_of_byte(p: int, i: int)
    requires
        p >= 0,
        i >= 0,
    ensures
        (p / (CHUNK_SIZE as int) == i) <==> (i * CHUNK_SIZE <= p < i * CHUNK_SIZE + CHUNK_SIZE),
{
    let c: int = CHUNK_SIZE as int;
    if i * c <= p < i * c + c {
        vstd::arithmetic::div_mod::lemma_fundamental_div_mod_converse(p, c, i, p - i * c);
    } else {
        vstd::arithmetic::div_mod::lemma_fundamental_div_mod(p, c);
        let q: int = p / c;
        let r: int = p % c;
        assert(0 <= r < c);
        if q == i {
            assert(p == i * c + r) by (nonlinear_arith)
                requires
                    p == c * q + r,
                    q == i,
            ;
        }
    }
}

/// Byte by byte, the buffer holds the object's byte where the chunk holding
/// that byte has arrived, and zero elsewhere.
proof fn lemma_assemble_pointwise(object: Seq<u8>, arrivals: Seq<int>)
    requires
        forall|k: int|
            0 <= k < arrivals.len() ==> 0 <= #[trigger] arrivals[k] < num_chunks(
                object.len() as int,
            ),
    ensures
        assemble(zeros(object.len()), object, arrivals).len() == object.len(),
        forall|p: int|
            0 <= p < object.len() ==> #[trigger] assemble(zeros(object.len()), object, arrivals)[p]
                == if arrivals.contains(p / (CHUNK_SIZE as int)) {
                object[p]
            } else {
                0u8
            },
    decreases arrivals.len(),
{
    let len: int = object.len() as int;
    let c: int = CHUNK_SIZE as int;
    if arrivals.len() == 0 {
        assert forall|p: int| 0 <= p < len implies !arrivals.contains(#[trigger] (p / c)) by {}
    } else {
        let prefix = arrivals.drop_last();
        let i: int = arrivals.last();
        assert forall|k: int| 0 <= k < prefix.len() implies 0 <= #[trigger] prefix[k] < num_chunks(
            len,
        ) by {
            assert(prefix[k] == arrivals[k]);
        }
        lemma_assemble_pointwise(object, prefix);
        let prev = assemble(zeros(object.len()), object, prefix);
        let at: int = i * c;
        crate::chunks::lemma_chunk_count(len);
        assert(at < len) by (nonlinear_arith)
            requires
                0 <= i < num_chunks(len),
                (num_chunks(len) - 1) * c < len,
                at == i * c,
                c > 0,
        ;
        assert(0 <= at) by (nonlinear_arith)
            requires
                i >= 0,
                at == i * c,
                c > 0,
        ;
        let body = chunk_body(object, i);
        let end: int = min_int(at + c, len);
        assert(body.len() == end - at);
        let cur = assemble(zeros(object.len()), object, arrivals);
        assert(cur == splice(prev, at, body));
        assert(cur.len() == len);
        assert forall|p: int| 0 <= p < len implies #[trigger] cur[p] == if arrivals.contains(p / c) {
            object[p]
        } else {
            0u8
        } by {
            lemma_chunk_of_byte(p, i);
            assert(arrivals.contains(p / c) <==> (prefix.contains(p / c) || p / c == i)) by {
                if prefix.contains(p / c) {
                    let k: int = choose|k: int| 0 <= k < prefix.len() && prefix[k] == p / c;
                    assert(arrivals[k] == p / c);
                }
                if p / c == i {
                    assert(arrivals[arrivals.len() - 1] == i);
                }
                if arrivals.contains(p / c) {
                    let k: int = choose|k: int| 0 <= k < arrivals.len() && arrivals[k] == p / c;
                    if k < arrivals.len() - 1 {
                        assert(prefix[k] == p / c);
                    }
                }
            }
            if at <= p < end {
                assert(cur[p] == body[p - at]);
            } else {
                assert(cur[p] == prev[p]);
            }
        }
    }
}

/// Placing the chunks of an object into a zeroed buffer of its size rebuilds
/// the object, whatever the order in which the chunks arrive and even if some
/// arrive more than once, provided every chunk arrives.
pub proof fn lemma_reassembly_rebuilds_object(object: Seq<u8>, arrivals: Seq<int>)
    requires
        forall|k: int|
            0 <= k < arrivals.len() ==> 0 <= #[trigger] arrivals[k] < num_chunks(
                object.len() as int,
            ),
        forall|i: int| 0 <= i < num_chunks(object.len() as int) ==> arrivals.contains(i),
    ensures
        assemble(zeros(object.len()), object, arrivals) == object,
{
    let len: int = object.len() as int;
    let c: int = CHUNK_SIZE as int;
    lemma_assemble_pointwise(object, arrivals);
    let result = assemble(zeros(object.len()), object, arrivals);
    assert forall|p: int| 0 <= p < len implies #[trigger] result[p] == object[p] by {
        crate::chunks::lemma_chunk_count(len);
        vstd::arithmetic::div_mod::lemma_fundamental_div_mod(p, c);
        let q: int = p / c;
        assert(0 <= q < num_chunks(len)) by (nonlinear_arith)
            requires
                p == c * q + p % c,
                0 <= p % c < c,
                p < len,
                len <= num_chunks(len) * c,
                0 <= p,
        ;
        assert(arrivals.contains(q));
    }
    assert(result =~= object);
}

/// A ranged read of chunk `i`'s range, from its first to its last byte,
/// reads exactly that chunk's body.
pub proof fn lemma_range_reads_chunk_body(object: Seq<u8>, i: int)
    requires
        download_fits(object.len() as int),
        0 <= i < num_chunks(object.len() as int),
    ensures
        object.subrange(
            spec_chunk_range(i, object.len() as int).first as int,
            spec_chunk_range(i, object.len() as int).last + 1,
        ) == chunk_body(object, i),
{
    let len: int = object.len() as int;
    crate::chunks::lemma_chunk_count(len);
    assert(0 <= i * CHUNK_SIZE < len) by (nonlinear_arith)
        requires
            0 <= i < num_chunks(len),
            (num_chunks(len) - 1) * CHUNK_SIZE < len,
    ;
}

} // verus!
