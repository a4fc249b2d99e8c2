use vstd::prelude::*;
use vstd::string::*;
use crate::digits::{dec_digits, u64_to_decimal};

verus! {

/// Size of one transfer chunk, in bytes (50 MB).
pub const CHUNK_SIZE: u64 = 50_000_000;

/// How many chunks of `[0, content_length)` a partition into `chunk_size`
/// pieces produces: the quotient, rounded up.
pub open spec fn chunk_count(content_length: nat, chunk_size: nat) -> nat
    recommends
        chunk_size > 0,
{
    if content_length % chunk_size == 0 {
        content_length / chunk_size
    } else {
        content_length / chunk_size + 1
    }
}

/// Inclusive end offset of chunk `i`: one before the next chunk's start, or
/// the last byte of the file for the final, truncated chunk.
pub open spec fn chunk_end(i: nat, content_length: nat, chunk_size: nat) -> nat
    recommends
        chunk_size > 0,
        content_length > 0,
{
    if (i + 1) * chunk_size <= content_length {
        ((i + 1) * chunk_size - 1) as nat
    } else {
        (content_length - 1) as nat
    }
}

/// The chunk partition of `[0, content_length)`, as inclusive byte ranges in
/// ascending order.
pub open spec fn chunk_ranges_spec(content_length: u64, chunk_size: u64) -> Seq<(u64, u64)>
    recommends
        chunk_size > 0,
        content_length > 0,
{
    Seq::new(
        chunk_count(content_length as nat, chunk_size as nat),
        |i: int| ((i * chunk_size) as u64, chunk_end(i as nat, content_length as nat, chunk_size as nat) as u64),
    )
}

/// Index of the chunk whose range contains byte offset `off`.
pub open spec fn covering_index(off: u64, chunk_size: u64) -> int
    recommends
        chunk_size > 0,
{
    off as int / chunk_size as int
}

/// A chunk that is not the last one ends exactly one byte before the next
/// multiple of the chunk size.
proof fn lemma_chunk_end_untruncated(i: nat, content_length: nat, chunk_size: nat)
    requires
        chunk_size > 0,
        (i + 1) * chunk_size <= content_length,
    ensures
        chunk_end(i, content_length, chunk_size) == (i + 1) * chunk_size - 1,
{
    assert((i + 1) * chunk_size >= 1) by (nonlinear_arith)
        requires
            chunk_size >= 1,
    ;
}

/// There are exactly `chunk_count` chunks: `k` pieces cover the length iff
/// `k - 1` pieces do not.
proof fn lemma_count_from_bounds(content_length: nat, chunk_size: nat, k: nat)
    requires
        chunk_size > 0,
        content_length > 0,
        k >= 1,
        (k - 1) * chunk_size < content_length,
        content_length <= k * chunk_size,
    ensures
        k == chunk_count(content_length, chunk_size),
{
    let c = chunk_size;
    let l = content_length;
    let q = l / c;
    let r = l % c;
    vstd::arithmetic::div_mod::lemma_fundamental_div_mod(l as int, c as int);
    assert(0 <= r < c);
    if r == 0 {
        assert((k - 1) * c < q * c && q * c <= k * c);
        assert(k - 1 < q && q <= k) by (nonlinear_arith)
            requires
                c > 0,
                (k - 1) * c < q * c,
                q * c <= k * c,
        ;
    } else {
        assert((k - 1) * c < q * c + r && q * c + r <= k * c);
        assert(k - 1 <= q && q < k) by (nonlinear_arith)
            requires
                c > 0,
                0 < r < c,
                (k - 1) * c < q * c + r,
                q * c + r <= k * c,
        ;
    }
}

/// Partitions `[0, content_length)` into `chunk_size`-byte chunks in
/// ascending order; the final chunk is truncated to end at
/// `content_length - 1`.
pub fn chunk_ranges(content_length: u64, chunk_size: u64) -> (r: Vec<(u64, u64)>)
    requires
        content_length > 0,
        chunk_size > 0,
        chunk_count(content_length as nat, chunk_size as nat) <= usize::MAX,
    ensures
        r@ == chunk_ranges_spec(content_length, chunk_size),
{
    let mut r: Vec<(u64, u64)> = Vec::new();
    let mut start: u64 = 0;
    while start < content_length
        invariant
            content_length > 0,
            chunk_size > 0,
            chunk_count(content_length as nat, chunk_size as nat) <= usize::MAX,
            start <= content_length,
            start as int == r@.len() * chunk_size || (start == content_length && r@.len() >= 1
                && content_length <= r@.len() * chunk_size),
            r@.len() >= 1 ==> (r@.len() - 1) * chunk_size < content_length,
            forall|i: int|
                0 <= i < r@.len() ==> #[trigger] r@[i] == ((i * chunk_size) as u64, chunk_end(
                    i as nat,
                    content_length as nat,
                    chunk_size as nat,
                ) as u64),
        decreases content_length - start,
    {
        let ghost n = r@.len() as int;
        proof {
            assert(n * chunk_size <= content_length || start == content_length);
            assert(start as int == n * chunk_size);
        }
        let end: u64 = if content_length - start > chunk_size {
            start + chunk_size - 1
        } else {
            content_length - 1
        };
        proof {
            assert((n + 1) * chunk_size == n * chunk_size + chunk_size) by (nonlinear_arith);
            assert(end as int == chunk_end(n as nat, content_length as nat, chunk_size as nat));
            assert(n * chunk_size < content_length);
        }
        r.push((start, end));
        start = end + 1;
    }
    proof {
        let n = r@.len() as int;
        if n == 0 {
            assert(start as int == 0 * chunk_size);
            assert(false);
        }
        lemma_count_from_bounds(content_length as nat, chunk_size as nat, n as nat);
        assert(r@ =~= chunk_ranges_spec(content_length, chunk_size));
    }
    r
}

/// Partition completeness: the chunk ranges of any positive length are
/// non-empty, start at zero, are contiguous and in ascending order, end at
/// the last byte, and cover every offset of `[0, content_length)` exactly
/// once.
pub proof fn lemma_partition_complete(content_length: u64, chunk_size: u64)
    requires
        content_length > 0,
        chunk_size > 0,
    ensures
        chunk_ranges_spec(content_length, chunk_size).len() >= 1,
        chunk_ranges_spec(content_length, chunk_size)[0].0 == 0,
        chunk_ranges_spec(content_length, chunk_size).last().1 == content_length - 1,
        forall|i: int|
            0 <= i < chunk_ranges_spec(content_length, chunk_size).len()
                ==> (#[trigger] chunk_ranges_spec(content_length, chunk_size)[i]).0
                <= chunk_ranges_spec(content_length, chunk_size)[i].1 < content_length,
        forall|i: int|
            0 <= i < chunk_ranges_spec(content_length, chunk_size).len() - 1
                ==> (#[trigger] chunk_ranges_spec(content_length, chunk_size)[i + 1]).0
                == chunk_ranges_spec(content_length, chunk_size)[i].1 + 1,
        forall|off: u64|
            off < content_length ==> {
                &&& 0 <= #[trigger] covering_index(off, chunk_size) < chunk_ranges_spec(
                    content_length,
                    chunk_size,
                ).len()
                &&& chunk_ranges_spec(content_length, chunk_size)[covering_index(off, chunk_size)].0
                    <= off
                &&& off <= chunk_ranges_spec(content_length, chunk_size)[covering_index(
                    off,
                    chunk_size,
                )].1
            },
        forall|i: int, j: int|
            0 <= i < j < chunk_ranges_spec(content_length, chunk_size).len()
                ==> (#[trigger] chunk_ranges_spec(content_length, chunk_size)[i]).1
                < (#[trigger] chunk_ranges_spec(content_length, chunk_size)[j]).0,
{
    let l = content_length as nat;
    let c = chunk_size as nat;
    let rs = chunk_ranges_spec(content_length, chunk_size);
    let count = chunk_count(l, c) as int;
    vstd::arithmetic::div_mod::lemma_fundamental_div_mod(l as int, c as int);
    if l % c == 0 {
        assert(l / c >= 1) by (nonlinear_arith)
            requires
                c > 0,
                l > 0,
                l == c * (l / c),
        ;
    }
    assert(count >= 1);
    assert((count - 1) * c < l && l <= count * c) by (nonlinear_arith)
        requires
            c > 0,
            l > 0,
            count == chunk_count(l, c),
            l == c * (l / c) + l % c,
            0 <= l % c < c,
    ;
    assert forall|i: int| 0 <= i < count implies (#[trigger] rs[i]).0 <= rs[i].1 < content_length
        && rs[i].0 == i * c && rs[i].1 == chunk_end(i as nat, l, c) by {
        assert(i * c < l && i * c >= 0 && i * c <= (i + 1) * c - 1) by (nonlinear_arith)
            requires
                c > 0,
                0 <= i < count,
                (count - 1) * c < l,
        ;
        assert(i * c <= u64::MAX);
    }
    assert forall|i: int| 0 <= i < count - 1 implies (#[trigger] rs[i + 1]).0 == rs[i].1 + 1 by {
        assert((i + 1) * c <= l) by (nonlinear_arith)
            requires
                c > 0,
                0 <= i < count - 1,
                (count - 1) * c < l,
        ;
        assert((i + 1) * c == i * c + c) by (nonlinear_arith);
    }
    assert forall|off: u64| off < content_length implies {
        &&& 0 <= #[trigger] covering_index(off, chunk_size) < rs.len()
        &&& rs[covering_index(off, chunk_size)].0 <= off
        &&& off <= rs[covering_index(off, chunk_size)].1
    } by {
        let i = covering_index(off, chunk_size);
        let ci = c as int;
        vstd::arithmetic::div_mod::lemma_fundamental_div_mod(off as int, ci);
        assert(0 <= i && i * ci <= off < (i + 1) * ci) by (nonlinear_arith)
            requires
                ci > 0,
                off >= 0,
                off as int == ci * i + off as int % ci,
                0 <= off as int % ci < ci,
        ;
        assert(i < count) by (nonlinear_arith)
            requires
                c > 0,
                i * c <= off as int,
                off < l,
                l <= count * c,
        ;
        if (i + 1) * c <= l {
            assert(off <= rs[i].1);
        } else {
            assert(off <= rs[i].1);
        }
    }
    assert forall|i: int, j: int| 0 <= i < j < count implies (#[trigger] rs[i]).1
        < (#[trigger] rs[j]).0 by {
        assert((i + 1) * c <= j * c && j * c <= (count - 1) * c && (i + 1) * c <= (count - 1)
            * c) by (nonlinear_arith)
            requires
                0 <= i < j < count,
                c > 0,
        ;
        assert(rs[i] == (((i * chunk_size) as u64, chunk_end(i as nat, l, c) as u64)));
        assert(rs[j] == (((j * chunk_size) as u64, chunk_end(j as nat, l, c) as u64)));
        assert((i + 1) * c <= l);
        lemma_chunk_end_untruncated(i as nat, l, c);
    }
}

/// The value of an HTTP `Range` header for the inclusive byte range
/// `[start, end]`, as the chunk requests send it.
pub open spec fn range_header_of(start: u64, end: u64) -> Seq<char> {
    "bytes="@ + dec_digits(start as nat) + "-"@ + dec_digits(end as nat)
}

/// Renders the `Range: bytes=<start>-<end>` header value for one chunk.
pub fn range_header_value(start: u64, end: u64) -> (r: String)
    ensures
        r@ == range_header_of(start, end),
{
    let mut r = String::from_str("bytes=");
    r.append(u64_to_decimal(start).as_str());
    r.append("-");
    r.append(u64_to_decimal(end).as_str());
    r
}

} // verus!
