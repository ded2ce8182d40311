use vstd::prelude::*;
use vstd::arithmetic::power2::*;
use vstd::bits::*;
use vstd::std_specs::bits::*;
use crate::error::{invalid_data_error, DataError, ErrorKind};
use crate::text::{decimal_text, ipv4_text, ipv4_to_text, join, text, u64_text};

verus! {

/// The largest exponent `e` no greater than `max` such that a block of `2^e`
/// addresses can start at `start` (it is aligned) and fits in `remaining` addresses.
pub open spec fn largest_block_exp(start: nat, remaining: nat, max: nat) -> nat
    decreases max,
{
    if max == 0 {
        0
    } else if start % pow2(max) == 0 && pow2(max) <= remaining {
        max
    } else {
        largest_block_exp(start, remaining, (max - 1) as nat)
    }
}

/// The exponent of the first CIDR block of the range `[start, start + remaining)`.
pub open spec fn block_exp(start: nat, remaining: nat) -> nat {
    largest_block_exp(start, remaining, 32)
}

/// The largest block found is aligned at the start, fits in the remaining addresses,
/// and has an exponent of at most `max`.
pub proof fn lemma_largest_block_fits(start: nat, remaining: nat, max: nat)
    requires
        remaining >= 1,
    ensures
        largest_block_exp(start, remaining, max) <= max,
        start % pow2(largest_block_exp(start, remaining, max)) == 0,
        pow2(largest_block_exp(start, remaining, max)) <= remaining,
    decreases max,
{
    if max == 0 {
        lemma2_to64();
    } else if start % pow2(max) == 0 && pow2(max) <= remaining {
    } else {
        lemma_largest_block_fits(start, remaining, (max - 1) as nat);
    }
}

/// The IPv4 range `[start, start + remaining)` split, from its start, into the largest
/// aligned power-of-two blocks, each as a prefix (network, length).
pub open spec fn cidr_blocks(start: nat, remaining: nat) -> Seq<(u32, u8)>
    decreases remaining,
{
    if remaining == 0 || start + remaining > pow2(32) {
        seq![]
    } else {
        let e = block_exp(start, remaining);
        proof {
            lemma_largest_block_fits(start, remaining, 32);
            lemma_pow2_pos(e);
        }
        seq![(start as u32, (32 - e) as u8)] + cidr_blocks(
            start + pow2(e),
            (remaining - pow2(e)) as nat,
        )
    }
}

/// Whether `blocks` are prefixes that cover `[start, start + remaining)` in order: each
/// starts where the one before ends, is aligned to its own size and lies in the range.
pub open spec fn tiles(blocks: Seq<(u32, u8)>, start: nat, remaining: nat) -> bool
    decreases blocks.len(),
{
    if blocks.len() == 0 {
        remaining == 0
    } else {
        let (net, len) = blocks[0];
        let size = pow2((32 - len) as nat);
        &&& len <= 32
        &&& net == start
        &&& start % size == 0
        &&& size <= remaining
        &&& tiles(blocks.drop_first(), start + size, (remaining - size) as nat)
    }
}

/// The prefixes into which an IPv4 allocation is split cover exactly the allocated
/// addresses, in order, each aligned to its size; no larger aligned block could
/// start where any of them starts.
pub proof fn lemma_cidr_blocks_tile(start: nat, remaining: nat)
    requires
        start + remaining <= pow2(32),
    ensures
        tiles(cidr_blocks(start, remaining), start, remaining),
        forall|i: int|
            0 <= i < cidr_blocks(start, remaining).len() ==> {
                let (net, len) = #[trigger] cidr_blocks(start, remaining)[i];
                forall|e: nat|
                    32 - len < e <= 32 ==> !((net as nat) % pow2(e) == 0 && pow2(e) <= start
                        + remaining - net)
            },
    decreases remaining,
{
    let blocks = cidr_blocks(start, remaining);
    if remaining == 0 {
    } else {
        let e = block_exp(start, remaining);
        lemma_largest_block_fits(start, remaining, 32);
        lemma_pow2_pos(e);
        lemma_largest_block_is_largest(start, remaining, 32);
        let rest = cidr_blocks(start + pow2(e), (remaining - pow2(e)) as nat);
        lemma_cidr_blocks_tile(start + pow2(e), (remaining - pow2(e)) as nat);
        assert(blocks == seq![(start as u32, (32 - e) as u8)] + rest);
        assert(blocks.drop_first() =~= rest);
        lemma2_to64();
        assert(start < pow2(32));
        assert((32 - (32 - e) as u8) as nat == e);
        assert forall|i: int| 0 <= i < blocks.len() implies {
            let (net, len) = #[trigger] blocks[i];
            forall|f: nat|
                32 - len < f <= 32 ==> !((net as nat) % pow2(f) == 0 && pow2(f) <= start + remaining
                    - net)
        } by {
            if i > 0 {
                assert(blocks[i] == rest[i - 1]);
            }
        }
    }
}

/// Every block that tiles a range is a prefix of at most 32 bits.
proof fn lemma_tiles_lengths(blocks: Seq<(u32, u8)>, start: nat, remaining: nat)
    requires
        tiles(blocks, start, remaining),
    ensures
        forall|i: int| 0 <= i < blocks.len() ==> (#[trigger] blocks[i]).1 <= 32,
    decreases blocks.len(),
{
    if blocks.len() > 0 {
        let size = pow2((32 - blocks[0].1) as nat);
        lemma_tiles_lengths(blocks.drop_first(), start + size, (remaining - size) as nat);
        assert forall|i: int| 0 <= i < blocks.len() implies (#[trigger] blocks[i]).1 <= 32 by {
            if i > 0 {
                assert(blocks[i] == blocks.drop_first()[i - 1]);
            }
        }
    }
}

/// The blocks of an IPv4 range are prefixes of at most 32 bits.
pub proof fn lemma_cidr_block_lengths(start: nat, remaining: nat)
    requires
        start + remaining <= pow2(32),
    ensures
        forall|i: int|
            0 <= i < cidr_blocks(start, remaining).len() ==> (#[trigger] cidr_blocks(
                start,
                remaining,
            )[i]).1 <= 32,
{
    lemma_cidr_blocks_tile(start, remaining);
    lemma_tiles_lengths(cidr_blocks(start, remaining), start, remaining);
}

proof fn lemma_largest_block_is_largest(start: nat, remaining: nat, max: nat)
    ensures
        forall|f: nat|
            largest_block_exp(start, remaining, max) < f <= max ==> !(start % pow2(f) == 0
                && pow2(f) <= remaining),
    decreases max,
{
    if max == 0 {
    } else if start % pow2(max) == 0 && pow2(max) <= remaining {
    } else {
        lemma_largest_block_is_largest(start, remaining, (max - 1) as nat);
    }
}

/// The message of the error for an allocation of no addresses.
pub open spec fn empty_allocation_message(record_index: usize, source: Seq<char>) -> Seq<char> {
    "invalid IPv4 allocation size 0 in delegated record "@ + decimal_text(record_index as u64)
        + " from '"@ + source + "'"@
}

/// The message of the error for an allocation that runs past the IPv4 address space.
pub open spec fn oversized_allocation_message(
    net: u32,
    addresses: u32,
    record_index: usize,
    source: Seq<char>,
) -> Seq<char> {
    "IPv4 allocation "@ + ipv4_text(net) + " with size "@ + decimal_text(addresses as u64)
        + " exceeds the IPv4 address space in delegated record "@ + decimal_text(
        record_index as u64,
    ) + " from '"@ + source + "'"@
}


/// A nonzero number is divisible by `2^e` exactly when `e` is at most its number of
/// trailing zero bits.
proof fn lemma_trailing_zeros_divides(c: u64, e: nat)
    requires
        c != 0,
        e < 64,
    ensures
        (c as nat % pow2(e) == 0) <==> e <= u64_trailing_zeros(c),
{
    axiom_u64_trailing_zeros(c);
    let t = u64_trailing_zeros(c) as u64;
    let u = (64 - t) as u64;
    assert(c << u == 0);
    assert((c >> t) & 1u64 == 1u64);
    let ee = e as u64;
    lemma_u64_pow2_no_overflow(e);
    lemma_u64_shl_is_mul(1, ee);
    lemma_u64_low_bits_mask_is_mod(c, e);
    let m = ((1u64 << ee) - 1) as u64;
    assert(low_bits_mask(e) as u64 == m);
    assert(c & m == 0 <==> ee <= t) by (bit_vector)
        requires
            c != 0,
            t < 64,
            u == 64 - t,
            c << u == 0,
            (c >> t) & 1u64 == 1u64,
            ee < 64,
            m == (1u64 << ee) - 1,
    ;
}

/// A positive number is at least `2^e` exactly when `e` is at most the position of its
/// highest set bit.
proof fn lemma_leading_zeros_bounds(r: u64, e: nat)
    requires
        r != 0,
        e < 64,
    ensures
        (pow2(e) <= r) <==> e <= 63 - u64_leading_zeros(r),
{
    axiom_u64_leading_zeros(r);
    let l = u64_leading_zeros(r);
    let b = (63 - l) as u64;
    let h = (64 - l) as u64;
    assert((r >> b) & 1u64 != 0u64);
    assert(r >> h == 0);
    let ee = e as u64;
    lemma_u64_pow2_no_overflow(e);
    lemma_u64_shl_is_mul(1, ee);
    assert((1u64 << ee) <= r <==> ee <= b) by (bit_vector)
        requires
            r != 0,
            b < 64,
            h == b + 1,
            (r >> b) & 1u64 != 0u64,
            h < 64 ==> r >> h == 0,
            ee < 64,
    ;
}

/// The number of trailing zero bits of `2^m` is `m`.
proof fn lemma_trailing_zeros_of_power(m: u64)
    requires
        m < 64,
    ensures
        u64_trailing_zeros(1u64 << m) == m,
{
    let x = 1u64 << m;
    axiom_u64_trailing_zeros(x);
    assert(x != 0) by (bit_vector)
        requires
            m < 64,
            x == 1u64 << m,
    ;
    let t = u64_trailing_zeros(x) as u64;
    assert((x >> t) & 1u64 == 1u64);
    assert((x >> m) & 1u64 == 1u64) by (bit_vector)
        requires
            m < 64,
            x == 1u64 << m,
    ;
    if t < m {
        assert((x >> t) & 1u64 == 0u64) by (bit_vector)
            requires
                t < m < 64,
                x == 1u64 << m,
        ;
    }
    if t > m {
        assert((x >> m) & 1u64 == 0u64);
    }
}

/// With every exponent up to `m` (and none above it, up to 32) naming a block that is
/// aligned and fits, the largest such exponent up to `k` is `min(m, k)`.
proof fn lemma_largest_block_exp_is(start: nat, remaining: nat, m: nat, k: nat)
    requires
        m <= 32,
        k <= 32,
        forall|f: nat| f <= 32 ==> ((start % pow2(f) == 0 && pow2(f) <= remaining) <==> f <= m),
    ensures
        largest_block_exp(start, remaining, k) == if m < k { m } else { k },
    decreases k,
{
    if k > 0 {
        lemma_largest_block_exp_is(start, remaining, m, (k - 1) as nat);
    }
}

/// The block that the loop of `decompose_ipv4_allocation` takes is the largest aligned
/// block that fits.
proof fn lemma_block_size(current: u64, remaining: u64)
    requires
        0 < remaining,
        current + remaining <= 0x1_0000_0000,
    ensures
        ({
            let a = if current == 0 { 32 } else { u64_trailing_zeros(current) as int };
            let b = 63 - u64_leading_zeros(remaining);
            &&& 0 <= a <= 32
            &&& 0 <= b <= 32
            &&& block_exp(current as nat, remaining as nat) == if a < b { a } else { b }
        }),
{
    lemma2_to64();
    let a = if current == 0 { 32 } else { u64_trailing_zeros(current) as int };
    let b = 63 - u64_leading_zeros(remaining);
    axiom_u64_leading_zeros(remaining);
    lemma_leading_zeros_bounds(remaining, 33);
    assert(pow2(33) == 0x2_0000_0000) by {
        lemma_pow2_unfold(33);
    }
    if current != 0 {
        axiom_u64_trailing_zeros(current);
        lemma_trailing_zeros_divides(current, 32);
        assert(current as nat % pow2(32) != 0);
    }
    let m = if a < b { a } else { b };
    assert forall|f: nat| f <= 32 implies ((current as nat % pow2(f) == 0 && pow2(f)
        <= remaining as nat) <==> f <= m) by {
        lemma_leading_zeros_bounds(remaining, f);
        if current != 0 {
            lemma_trailing_zeros_divides(current, f);
        } else {
            lemma_pow2_pos(f);
            vstd::arithmetic::div_mod::lemma_small_mod(0, pow2(f));
        }
    }
    lemma_largest_block_exp_is(current as nat, remaining as nat, m as nat, 32);
}

/// Splits an IPv4 allocation of `addresses` addresses starting at `net` into CIDR
/// prefixes, from the start, each the largest aligned block that fits. `source` and
/// `record_index` name the input record in error messages.
pub fn decompose_ipv4_allocation(
    net: u32,
    addresses: u32,
    source: &str,
    record_index: usize,
) -> (r: Result<Vec<(u32, u8)>, DataError>)
    ensures
        addresses == 0 ==> (r matches Err(e) && e.kind == ErrorKind::InvalidData
            && e.message@ == empty_allocation_message(record_index, source@)),
        addresses != 0 && net + addresses > 0x1_0000_0000 ==> (r matches Err(e) && e.kind
            == ErrorKind::InvalidData && e.message@ == oversized_allocation_message(
            net,
            addresses,
            record_index,
            source@,
        )),
        addresses != 0 && net + addresses <= 0x1_0000_0000 ==> (r matches Ok(v) && v@
            == cidr_blocks(net as nat, addresses as nat)),
{
    if addresses == 0 {
        let m = text("invalid IPv4 allocation size 0 in delegated record ");
        let m = join(m, u64_text(record_index as u64).as_str());
        let m = join(m, " from '");
        let m = join(m, source);
        let m = join(m, "'");
        return Err(invalid_data_error(m));
    }
    let start = net as u64;
    let mut current = start;
    let mut remaining = addresses as u64;
    let end_exclusive = start + remaining;

    if end_exclusive > (u32::MAX as u64) + 1 {
        let m = text("IPv4 allocation ");
        let m = join(m, ipv4_to_text(net).as_str());
        let m = join(m, " with size ");
        let m = join(m, u64_text(addresses as u64).as_str());
        let m = join(m, " exceeds the IPv4 address space in delegated record ");
        let m = join(m, u64_text(record_index as u64).as_str());
        let m = join(m, " from '");
        let m = join(m, source);
        let m = join(m, "'");
        return Err(invalid_data_error(m));
    }
    proof {
        lemma2_to64();
    }
    let mut prefixes: Vec<(u32, u8)> = Vec::new();
    while remaining > 0
        invariant
            current + remaining == end_exclusive,
            end_exclusive <= 0x1_0000_0000,
            end_exclusive == net + addresses,
            prefixes@ + cidr_blocks(current as nat, remaining as nat) == cidr_blocks(
                net as nat,
                addresses as nat,
            ),
        decreases remaining,
    {
        proof {
            lemma_block_size(current, remaining);
            axiom_u64_leading_zeros(remaining);
        }
        let ghost e = block_exp(current as nat, remaining as nat);
        let max_by_alignment = if current == 0 {
            1_u64 << 32
        } else {
            1_u64 << (current.trailing_zeros())
        };
        let max_by_remaining = 1_u64 << (63 - remaining.leading_zeros());
        let block_size = max_by_alignment.min(max_by_remaining);
        proof {
            let a: nat = if current == 0 { 32 } else { u64_trailing_zeros(current) as nat };
            let b: nat = (63 - u64_leading_zeros(remaining)) as nat;
            lemma_u64_pow2_no_overflow(e);
            lemma_u64_pow2_no_overflow(a);
            lemma_u64_pow2_no_overflow(b);
            lemma_u64_shl_is_mul(1, e as u64);
            lemma_u64_shl_is_mul(1, a as u64);
            lemma_u64_shl_is_mul(1, b as u64);
            assert(max_by_alignment == pow2(a));
            assert(max_by_remaining == pow2(b));
            if a < b {
                lemma_pow2_strictly_increases(a, b);
            } else if b < a {
                lemma_pow2_strictly_increases(b, a);
            }
            assert(block_size == 1u64 << (e as u64));
            lemma_trailing_zeros_of_power(e as u64);
            lemma_largest_block_fits(current as nat, remaining as nat, 32);
            lemma2_to64();
        }
        let prefix_len = 32 - block_size.trailing_zeros() as u8;
        assert(prefix_len == (32 - e) as u8);
        assert(block_size == pow2(e));
        let ghost rest = cidr_blocks((current + block_size) as nat, (remaining - block_size) as nat);
        assert(cidr_blocks(current as nat, remaining as nat) == seq![(current as u32, prefix_len)]
            + rest);
        prefixes.push((current as u32, prefix_len));
        current += block_size;
        remaining -= block_size;
        assert(prefixes@ + cidr_blocks(current as nat, remaining as nat) =~= cidr_blocks(
            net as nat,
            addresses as nat,
        ));
    }
    assert(prefixes@ + cidr_blocks(current as nat, remaining as nat) =~= prefixes@);
    Ok(prefixes)
}

} // verus!
