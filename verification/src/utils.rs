//! The positional-write model of the receiver's destination file: the file is
//! preallocated to its final size, chunks land at `index * chunk_size` in any
//! arrival order, and a complete set of chunks reconstructs the source file.

use vstd::prelude::*;
use crate::chunks::{spec_chunk, spec_chunk_count, lemma_chunk_count_bounds, lemma_chunk_len};

verus! {

/// The file after `data` is written at offset `pos`: bytes before and after
/// the written span keep their values, the span holds `data`.
pub open spec fn spec_write_at(file: Seq<u8>, pos: int, data: Seq<u8>) -> Seq<u8>
    recommends
        0 <= pos,
        pos + data.len() <= file.len(),
{
    file.subrange(0, pos) + data + file.subrange(pos + data.len(), file.len() as int)
}

/// How one positional write moves each byte of the file.
pub proof fn lemma_write_at_bytes(file: Seq<u8>, pos: int, data: Seq<u8>)
    requires
        0 <= pos,
        pos + data.len() <= file.len(),
    ensures
        spec_write_at(file, pos, data).len() == file.len(),
        forall|j: int|
            pos <= j < pos + data.len() ==> spec_write_at(file, pos, data)[j] == data[j - pos],
        forall|j: int|
            0 <= j < file.len() && !(pos <= j < pos + data.len()) ==> spec_write_at(
                file,
                pos,
                data,
            )[j] == file[j],
{
}

/// Idempotence of the positional write: writing the same data at the same
/// offset twice leaves the file as one write does.
pub proof fn lemma_write_at_idempotent(file: Seq<u8>, pos: int, data: Seq<u8>)
    requires
        0 <= pos,
        pos + data.len() <= file.len(),
    ensures
        spec_write_at(spec_write_at(file, pos, data), pos, data) == spec_write_at(
            file,
            pos,
            data,
        ),
{
    lemma_write_at_bytes(file, pos, data);
    lemma_write_at_bytes(spec_write_at(file, pos, data), pos, data);
    assert(spec_write_at(spec_write_at(file, pos, data), pos, data) =~= spec_write_at(
        file,
        pos,
        data,
    ));
}

/// Writes `data` into the preallocated file at offset `pos`, as a seek to
/// `pos` followed by a full write does on disk.
pub fn write_at(file: &mut Vec<u8>, pos: u64, data: &Vec<u8>)
    requires
        pos + data@.len() <= old(file)@.len(),
    ensures
        final(file)@ == spec_write_at(old(file)@, pos as int, data@),
{
    let flen = file.len();
    let start = pos as usize;
    let mut k: usize = 0;
    while k < data.len()
        invariant
            k <= data@.len(),
            start + data@.len() <= flen,
            flen == file@.len(),
            file@.len() == old(file)@.len(),
            forall|j: int| 0 <= j < start ==> file@[j] == old(file)@[j],
            forall|j: int| start + k <= j < flen ==> file@[j] == old(file)@[j],
            forall|j: int| start <= j < start + k ==> file@[j] == data@[j - start],
        decreases data@.len() - k,
    {
        file[start + k] = data[k];
        k += 1;
    }
    proof {
        assert(file@ =~= spec_write_at(old(file)@, pos as int, data@));
    }
}

/// The writes `(index, data)` performed in arrival order, first to last.
pub open spec fn spec_apply_chunks(
    file: Seq<u8>,
    pairs: Seq<(u64, Seq<u8>)>,
    chunk_size: int,
) -> Seq<u8>
    decreases pairs.len(),
{
    if pairs.len() == 0 {
        file
    } else {
        spec_apply_chunks(
            spec_write_at(file, pairs[0].0 * chunk_size, pairs[0].1),
            pairs.drop_first(),
            chunk_size,
        )
    }
}

/// A pair is a chunk of `src`: its index is in range and its bytes are that
/// chunk's bytes.
pub open spec fn pair_is_chunk_of(pair: (u64, Seq<u8>), src: Seq<u8>, chunk_size: int) -> bool {
    &&& 0 <= pair.0 < spec_chunk_count(src.len() as int, chunk_size)
    &&& pair.1 == spec_chunk(src, chunk_size, pair.0 as int)
}

/// After applying chunk writes of `src` to a destination of the same length:
/// a byte whose chunk index was written holds the source's byte, any other
/// keeps the destination's. Arrival order does not matter.
proof fn lemma_apply_chunks_bytes(
    dst: Seq<u8>,
    src: Seq<u8>,
    pairs: Seq<(u64, Seq<u8>)>,
    chunk_size: int,
)
    requires
        chunk_size > 0,
        dst.len() == src.len(),
        forall|k: int| 0 <= k < pairs.len() ==> pair_is_chunk_of(#[trigger] pairs[k], src, chunk_size),
    ensures
        spec_apply_chunks(dst, pairs, chunk_size).len() == src.len(),
        forall|j: int|
            0 <= j < src.len() && (exists|k: int|
                0 <= k < pairs.len() && (#[trigger] pairs[k]).0 * chunk_size <= j < (pairs[k].0
                    + 1) * chunk_size) ==> #[trigger] spec_apply_chunks(dst, pairs, chunk_size)[j]
                == src[j],
        forall|j: int|
            0 <= j < src.len() && !(exists|k: int|
                0 <= k < pairs.len() && (#[trigger] pairs[k]).0 * chunk_size <= j < (pairs[k].0
                    + 1) * chunk_size) ==> #[trigger] spec_apply_chunks(dst, pairs, chunk_size)[j]
                == dst[j],
    decreases pairs.len(),
{
    if pairs.len() == 0 {
    } else {
        let i0 = pairs[0].0 as int;
        let d0 = pairs[0].1;
        let count = spec_chunk_count(src.len() as int, chunk_size);
        lemma_chunk_len(src, chunk_size, i0);
        let dst1 = spec_write_at(dst, i0 * chunk_size, d0);
        assert((i0 + 1) * chunk_size == i0 * chunk_size + chunk_size) by (nonlinear_arith);
        lemma_write_at_bytes(dst, i0 * chunk_size, d0);
        lemma_apply_chunks_bytes(dst1, src, pairs.drop_first(), chunk_size);
        assert forall|j: int|
            0 <= j < src.len() && (exists|k: int|
                0 <= k < pairs.len() && (#[trigger] pairs[k]).0 * chunk_size <= j < (pairs[k].0
                    + 1) * chunk_size) implies #[trigger] spec_apply_chunks(
            dst,
            pairs,
            chunk_size,
        )[j] == src[j] by {
            let k = choose|k: int|
                0 <= k < pairs.len() && (#[trigger] pairs[k]).0 * chunk_size <= j < (pairs[k].0
                    + 1) * chunk_size;
            if k == 0 || (exists|k2: int|
                0 <= k2 < pairs.drop_first().len() && (#[trigger] pairs.drop_first()[k2]).0
                    * chunk_size <= j < (pairs.drop_first()[k2].0 + 1) * chunk_size) {
                if !(exists|k2: int|
                    0 <= k2 < pairs.drop_first().len() && (#[trigger] pairs.drop_first()[k2]).0
                        * chunk_size <= j < (pairs.drop_first()[k2].0 + 1) * chunk_size) {
                    // only the first pair covers j: the later writes left it,
                    // so it holds what the first write put there
                    assert(i0 * chunk_size <= j < (i0 + 1) * chunk_size);
                    assert(spec_apply_chunks(dst, pairs, chunk_size)[j] == dst1[j]);
                    if j < i0 * chunk_size + d0.len() {
                        assert(dst1[j] == d0[j - i0 * chunk_size]);
                        assert(d0[j - i0 * chunk_size] == src[j]);
                    } else {
                        // j lies past the last chunk's data, impossible below src.len()
                        assert(d0.len() == vstd::math::min(
                            (i0 + 1) * chunk_size,
                            src.len() as int,
                        ) - i0 * chunk_size);
                        assert(false);
                    }
                }
            } else {
                assert(pairs.drop_first()[k - 1] == pairs[k]);
                assert(false);
            }
        }
        assert forall|j: int|
            0 <= j < src.len() && !(exists|k: int|
                0 <= k < pairs.len() && (#[trigger] pairs[k]).0 * chunk_size <= j < (pairs[k].0
                    + 1) * chunk_size) implies #[trigger] spec_apply_chunks(
            dst,
            pairs,
            chunk_size,
        )[j] == dst[j] by {
            assert forall|k2: int|
                0 <= k2 < pairs.drop_first().len() implies !((#[trigger] pairs.drop_first()[k2]).0
                * chunk_size <= j < (pairs.drop_first()[k2].0 + 1) * chunk_size) by {
                assert(pairs.drop_first()[k2] == pairs[k2 + 1]);
            }
            assert(!(i0 * chunk_size <= j < (i0 + 1) * chunk_size));
            assert(dst1[j] == dst[j]);
        }
    }
}

/// Chunk index `i` arrives somewhere in the pairs.
pub open spec fn index_arrives(pairs: Seq<(u64, Seq<u8>)>, i: int) -> bool {
    exists|k: int| 0 <= k < pairs.len() && (#[trigger] pairs[k]).0 == i
}

/// Reassembly out of order: if every arriving pair is a chunk of `src` and
/// every chunk index arrives at least once — duplicates allowed, order
/// arbitrary — the writes turn a destination of the right size into `src`.
pub proof fn lemma_apply_chunks_reconstructs(
    dst: Seq<u8>,
    src: Seq<u8>,
    pairs: Seq<(u64, Seq<u8>)>,
    chunk_size: int,
)
    requires
        chunk_size > 0,
        dst.len() == src.len(),
        forall|k: int| 0 <= k < pairs.len() ==> pair_is_chunk_of(#[trigger] pairs[k], src, chunk_size),
        forall|i: int|
            0 <= i < spec_chunk_count(src.len() as int, chunk_size) ==> #[trigger] index_arrives(
                pairs,
                i,
            ),
    ensures
        spec_apply_chunks(dst, pairs, chunk_size) == src,
{
    let count = spec_chunk_count(src.len() as int, chunk_size);
    lemma_apply_chunks_bytes(dst, src, pairs, chunk_size);
    lemma_chunk_count_bounds(src.len() as int, chunk_size);
    assert forall|j: int| 0 <= j < src.len() implies #[trigger] spec_apply_chunks(
        dst,
        pairs,
        chunk_size,
    )[j] == src[j] by {
        let i = j / chunk_size;
        vstd::arithmetic::div_mod::lemma_fundamental_div_mod(j, chunk_size);
        vstd::arithmetic::div_mod::lemma_mod_bound(j, chunk_size);
        vstd::arithmetic::div_mod::lemma_div_pos_is_pos(j, chunk_size);
        assert((i + 1) * chunk_size == i * chunk_size + chunk_size) by (nonlinear_arith);
        assert(i * chunk_size <= j < (i + 1) * chunk_size);
        assert(i < count) by {
            if i >= count {
                assert(count * chunk_size <= i * chunk_size) by (nonlinear_arith)
                    requires
                        count <= i,
                        chunk_size > 0,
                ;
            }
        }
        assert(index_arrives(pairs, i));
        let k = choose|k: int| 0 <= k < pairs.len() && (#[trigger] pairs[k]).0 == i;
        assert(pairs[k].0 * chunk_size <= j < (pairs[k].0 + 1) * chunk_size);
    }
    assert(spec_apply_chunks(dst, pairs, chunk_size) =~= src);
}

/// The view of arriving `(index, bytes)` pairs.
pub open spec fn pairs_view(pairs: Seq<(u64, Vec<u8>)>) -> Seq<(u64, Seq<u8>)> {
    pairs.map_values(|p: (u64, Vec<u8>)| (p.0, p.1@))
}

/// The collector's loop: writes each arriving `(index, data)` pair at
/// `index * chunk_size`, in arrival order.
pub fn collect_chunks(file: &mut Vec<u8>, pairs: &Vec<(u64, Vec<u8>)>, chunk_size: u64)
    requires
        chunk_size > 0,
        forall|k: int|
            0 <= k < pairs@.len() ==> (#[trigger] pairs@[k]).0 * chunk_size + pairs@[k].1@.len()
                <= old(file)@.len(),
    ensures
        final(file)@ == spec_apply_chunks(old(file)@, pairs_view(pairs@), chunk_size as int),
{
    let flen = file.len();
    proof {
        assert(pairs_view(pairs@).skip(0) =~= pairs_view(pairs@));
    }
    let mut k: usize = 0;
    while k < pairs.len()
        invariant
            k <= pairs@.len(),
            chunk_size > 0,
            flen == old(file)@.len(),
            forall|k2: int|
                0 <= k2 < pairs@.len() ==> (#[trigger] pairs@[k2]).0 * chunk_size
                    + pairs@[k2].1@.len() <= old(file)@.len(),
            file@.len() == old(file)@.len(),
            spec_apply_chunks(old(file)@, pairs_view(pairs@), chunk_size as int)
                == spec_apply_chunks(file@, pairs_view(pairs@).skip(k as int), chunk_size as int),
        decreases pairs@.len() - k,
    {
        let index = pairs[k].0;
        proof {
            assert(pairs_view(pairs@).skip(k as int)[0] == (pairs@[k as int].0, pairs@[k as int].1@));
            assert(pairs_view(pairs@).skip(k as int).drop_first() =~= pairs_view(pairs@).skip(
                k + 1 as int,
            ));
        }
        write_at(file, index * chunk_size, &pairs[k].1);
        k += 1;
    }
    proof {
        assert(pairs_view(pairs@).skip(pairs@.len() as int) =~= Seq::<(u64, Seq<u8>)>::empty());
    }
}

} // verus!
