//! Chunk arithmetic shared by the sender and the receiver: how a file of
//! `file_size` bytes is cut into chunks of `chunk_size` bytes, and how the
//! chunks reassemble to the original file.

use vstd::prelude::*;

verus! {

/// Number of chunks a file of `file_size` bytes splits into: the ceiling of
/// `file_size / chunk_size`.
pub open spec fn spec_chunk_count(file_size: int, chunk_size: int) -> int
    recommends
        file_size >= 0,
        chunk_size > 0,
{
    (file_size + chunk_size - 1) / chunk_size
}

/// Bytes of chunk `i` of `file`: the slice from `i * chunk_size` up to the
/// next chunk boundary or the end of the file, whichever comes first.
pub open spec fn spec_chunk(file: Seq<u8>, chunk_size: int, i: int) -> Seq<u8>
    recommends
        chunk_size > 0,
        0 <= i,
{
    let start = vstd::math::min(i * chunk_size, file.len() as int);
    let end = vstd::math::min((i + 1) * chunk_size, file.len() as int);
    file.subrange(start, end)
}

/// The chunks of `file` with indices `0 .. n`, concatenated in index order.
pub open spec fn spec_concat_chunks(file: Seq<u8>, chunk_size: int, n: int) -> Seq<u8>
    recommends
        chunk_size > 0,
    decreases n,
{
    if n <= 0 {
        Seq::empty()
    } else {
        spec_concat_chunks(file, chunk_size, n - 1) + spec_chunk(file, chunk_size, n - 1)
    }
}

/// Computes the chunk count without the overflow that the naive
/// `(file_size + chunk_size - 1) / chunk_size` has near `u64::MAX`.
pub fn chunk_count(file_size: u64, chunk_size: u64) -> (r: u64)
    requires
        chunk_size > 0,
    ensures
        r == spec_chunk_count(file_size as int, chunk_size as int),
{
    if file_size == 0 {
        proof {
            vstd::arithmetic::div_mod::lemma_basic_div(chunk_size - 1, chunk_size as int);
        }
        0
    } else {
        proof {
            vstd::arithmetic::div_mod::lemma_div_nonincreasing(
                file_size - 1,
                chunk_size as int,
            );
            lemma_ceil_div(file_size as int, chunk_size as int);
        }
        (file_size - 1) / chunk_size + 1
    }
}

/// For a positive dividend, `(n - 1) / d + 1` is the ceiling of `n / d`.
proof fn lemma_ceil_div(n: int, d: int)
    requires
        n >= 1,
        d >= 1,
    ensures
        (n - 1) / d + 1 == (n + d - 1) / d,
{
    let q = (n - 1) / d;
    let r = (n - 1) % d;
    vstd::arithmetic::div_mod::lemma_fundamental_div_mod(n - 1, d);
    vstd::arithmetic::div_mod::lemma_mod_bound(n - 1, d);
    assert(n + d - 1 == (q + 1) * d + r) by (nonlinear_arith)
        requires
            n - 1 == q * d + r,
    ;
    vstd::arithmetic::div_mod::lemma_fundamental_div_mod_converse(n + d - 1, d, q + 1, r);
}

/// The chunk count is the least count whose chunks cover the whole file:
/// `chunk_count * chunk_size` reaches `file_size`, and one chunk fewer
/// falls short.
pub proof fn lemma_chunk_count_bounds(file_size: int, chunk_size: int)
    requires
        file_size >= 0,
        chunk_size > 0,
    ensures
        spec_chunk_count(file_size, chunk_size) * chunk_size >= file_size,
        spec_chunk_count(file_size, chunk_size) >= 0,
        file_size > 0 ==> (spec_chunk_count(file_size, chunk_size) - 1) * chunk_size
            < file_size,
        file_size == 0 ==> spec_chunk_count(file_size, chunk_size) == 0,
        file_size > 0 ==> spec_chunk_count(file_size, chunk_size) >= 1,
{
    let q = spec_chunk_count(file_size, chunk_size);
    let r = (file_size + chunk_size - 1) % chunk_size;
    vstd::arithmetic::div_mod::lemma_fundamental_div_mod(file_size + chunk_size - 1, chunk_size);
    vstd::arithmetic::div_mod::lemma_mod_bound(file_size + chunk_size - 1, chunk_size);
    assert(q * chunk_size == file_size + chunk_size - 1 - r);
    assert((q - 1) * chunk_size == q * chunk_size - chunk_size) by (nonlinear_arith);
    if file_size == 0 {
        vstd::arithmetic::div_mod::lemma_basic_div(chunk_size - 1, chunk_size);
    }
    if file_size > 0 {
        vstd::arithmetic::div_mod::lemma_div_pos_is_pos(file_size + chunk_size - 1, chunk_size);
    }
}

/// Every chunk before the last has exactly `chunk_size` bytes; the last has
/// the remainder `file_size - (chunk_count - 1) * chunk_size`, which lies in
/// `(0, chunk_size]`.
pub proof fn lemma_chunk_len(file: Seq<u8>, chunk_size: int, i: int)
    requires
        chunk_size > 0,
        0 <= i < spec_chunk_count(file.len() as int, chunk_size),
    ensures
        i < spec_chunk_count(file.len() as int, chunk_size) - 1 ==> spec_chunk(
            file,
            chunk_size,
            i,
        ).len() == chunk_size,
        i == spec_chunk_count(file.len() as int, chunk_size) - 1 ==> {
            let last_len = file.len() - (spec_chunk_count(file.len() as int, chunk_size) - 1)
                * chunk_size;
            &&& spec_chunk(file, chunk_size, i).len() == last_len
            &&& 0 < last_len <= chunk_size
        },
        i * chunk_size + spec_chunk(file, chunk_size, i).len() <= file.len(),
        spec_chunk(file, chunk_size, i) == file.subrange(
            i * chunk_size,
            i * chunk_size + spec_chunk(file, chunk_size, i).len(),
        ),
{
    let len = file.len() as int;
    let count = spec_chunk_count(len, chunk_size);
    lemma_chunk_count_bounds(len, chunk_size);
    assert(len > 0);
    assert(0 <= i * chunk_size && i * chunk_size <= (count - 1) * chunk_size) by (nonlinear_arith)
        requires
            0 <= i <= count - 1,
            chunk_size > 0,
    ;
    assert((i + 1) * chunk_size == i * chunk_size + chunk_size) by (nonlinear_arith);
    assert(count * chunk_size == (count - 1) * chunk_size + chunk_size) by (nonlinear_arith);
    if i < count - 1 {
        assert((i + 1) * chunk_size <= (count - 1) * chunk_size) by (nonlinear_arith)
            requires
                i + 1 <= count - 1,
                chunk_size > 0,
        ;
    }
}

/// Concatenating chunks `0 .. n` yields the file's first
/// `min(n * chunk_size, file_size)` bytes.
proof fn lemma_concat_chunks_prefix(file: Seq<u8>, chunk_size: int, n: int)
    requires
        chunk_size > 0,
        n >= 0,
    ensures
        spec_concat_chunks(file, chunk_size, n) == file.take(
            vstd::math::min(n * chunk_size, file.len() as int),
        ),
    decreases n,
{
    let len = file.len() as int;
    if n == 0 {
        assert(spec_concat_chunks(file, chunk_size, 0) =~= file.take(0));
    } else {
        lemma_concat_chunks_prefix(file, chunk_size, n - 1);
        assert((n - 1) * chunk_size == n * chunk_size - chunk_size && 0 <= (n - 1) * chunk_size)
            by (nonlinear_arith)
            requires
                n >= 1,
                chunk_size > 0,
        ;
        let m1 = vstd::math::min((n - 1) * chunk_size, len);
        let m2 = vstd::math::min(n * chunk_size, len);
        assert(m1 <= m2);
        assert(spec_concat_chunks(file, chunk_size, n) == file.take(m1) + file.subrange(m1, m2));
        assert(file.take(m1) + file.subrange(m1, m2) =~= file.take(m2));
    }
}

/// Reassembly law: the concatenation of all chunks in index order is exactly
/// the original file.
pub proof fn lemma_chunks_reassemble(file: Seq<u8>, chunk_size: int)
    requires
        chunk_size > 0,
    ensures
        spec_concat_chunks(
            file,
            chunk_size,
            spec_chunk_count(file.len() as int, chunk_size),
        ) == file,
{
    let len = file.len() as int;
    let count = spec_chunk_count(len, chunk_size);
    lemma_chunk_count_bounds(len, chunk_size);
    lemma_concat_chunks_prefix(file, chunk_size, count);
    assert(file.take(len) =~= file);
}

/// A chunk index is in range exactly when its start offset lies inside the
/// file: `i * chunk_size < file_size` if and only if `i < chunk_count`.
pub proof fn lemma_chunk_index_in_range(file_size: int, chunk_size: int, i: int)
    requires
        file_size >= 0,
        chunk_size > 0,
        i >= 0,
    ensures
        i * chunk_size < file_size <==> i < spec_chunk_count(file_size, chunk_size),
{
    let count = spec_chunk_count(file_size, chunk_size);
    lemma_chunk_count_bounds(file_size, chunk_size);
    if i < count {
        assert(i * chunk_size <= (count - 1) * chunk_size) by (nonlinear_arith)
            requires
                i <= count - 1,
                chunk_size > 0,
        ;
    }
    if i >= count {
        assert(count * chunk_size <= i * chunk_size) by (nonlinear_arith)
            requires
                count <= i,
                chunk_size > 0,
        ;
    }
}

/// Copies chunk `chunk_index` out of an in-memory file, as the sender does
/// from disk: the bytes from `chunk_index * chunk_size` to the next chunk
/// boundary or the end of the file.
pub fn read_chunk(file: &Vec<u8>, chunk_index: u64, chunk_size: u64) -> (r: Vec<u8>)
    requires
        chunk_size > 0,
        chunk_index < spec_chunk_count(file@.len() as int, chunk_size as int),
    ensures
        r@ == spec_chunk(file@, chunk_size as int, chunk_index as int),
{
    let flen = file.len();
    proof {
        lemma_chunk_count_bounds(file@.len() as int, chunk_size as int);
        lemma_chunk_len(file@, chunk_size as int, chunk_index as int);
        assert(chunk_index * chunk_size < file@.len());
    }
    let start = (chunk_index * chunk_size) as usize;
    let remaining = file.len() - start;
    let len: usize = if chunk_size <= remaining as u64 {
        chunk_size as usize
    } else {
        remaining
    };
    let mut r: Vec<u8> = Vec::new();
    let mut k: usize = 0;
    while k < len
        invariant
            k <= len,
            flen == file@.len(),
            start + len <= flen,
            r@ == file@.subrange(start as int, start + k as int),
        decreases len - k,
    {
        r.push(file[start + k]);
        assert(r@ =~= file@.subrange(start as int, start + k + 1 as int));
        k += 1;
    }
    proof {
        assert(r@ =~= spec_chunk(file@, chunk_size as int, chunk_index as int));
    }
    r
}

} // verus!
