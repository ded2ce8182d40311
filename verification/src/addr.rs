use vstd::prelude::*;
use vstd::arithmetic::power2::*;
use vstd::bits::*;

verus! {

/// An IP address: an IPv4 address as a 32-bit number, or an IPv6 address as a
/// 128-bit number.
#[derive(Clone, Copy, Debug, PartialEq, Eq, Structural)]
pub enum Addr {
    V4(u32),
    V6(u128),
}

/// An IP prefix: an address and the number of leading bits that make up the network.
#[derive(Clone, Copy, Debug, PartialEq, Eq, Structural)]
pub struct Prefix {
    pub addr: Addr,
    pub len: u8,
}

impl Addr {
    /// The number of bits in an address of this family.
    pub open spec fn width(self) -> nat {
        match self {
            Addr::V4(_) => 32,
            Addr::V6(_) => 128,
        }
    }

    /// The address as a number.
    pub open spec fn value(self) -> nat {
        match self {
            Addr::V4(v) => v as nat,
            Addr::V6(v) => v as nat,
        }
    }
}

impl Prefix {
    /// A prefix whose length does not exceed the width of its address family.
    pub open spec fn well_formed(self) -> bool {
        self.len <= self.addr.width()
    }

    /// The prefix of `len` bits of `addr`.
    pub fn new(addr: Addr, len: u8) -> (p: Prefix)
        ensures
            p.addr == addr,
            p.len == len,
    {
        Prefix { addr, len }
    }
}

/// `value` with every bit after the first `len` of a `width`-bit number cleared.
pub open spec fn masked(value: nat, width: nat, len: nat) -> nat {
    let block = pow2((width - len) as nat);
    (value / block) * block
}

/// The network address of `addr` under a prefix of `len` bits.
pub open spec fn network_of(addr: Addr, len: nat) -> Addr {
    match addr {
        Addr::V4(v) => Addr::V4(masked(v as nat, 32, len) as u32),
        Addr::V6(v) => Addr::V6(masked(v as nat, 128, len) as u128),
    }
}

/// Whether the prefix `p` covers the address `a`: same family, and `a` agrees with
/// `p`'s address in the first `p.len` bits.
pub open spec fn covers(p: Prefix, a: Addr) -> bool {
    &&& p.addr.width() == a.width()
    &&& p.len <= a.width()
    &&& masked(p.addr.value(), a.width(), p.len as nat) == masked(a.value(), a.width(), p.len as nat)
}

/// What reading one text field as an address gives: as an IP address of either
/// family, as an IPv4 address, and as an IPv6 address; each error as its text.
pub struct AddrParse {
    pub ip: Result<Addr, String>,
    pub v4: Result<u32, String>,
    pub v6: Result<u128, String>,
}

/// A reading of a text field as an address, as values.
pub type AddrParseView = (Result<Addr, Seq<char>>, Result<u32, Seq<char>>, Result<u128, Seq<char>>);

/// A result whose error text is taken as a value.
pub open spec fn result_view<T>(r: Result<T, String>) -> Result<T, Seq<char>> {
    match r {
        Ok(v) => Ok(v),
        Err(e) => Err(e@),
    }
}

impl View for AddrParse {
    type V = AddrParseView;

    open spec fn view(&self) -> AddrParseView {
        (result_view(self.ip), result_view(self.v4), result_view(self.v6))
    }
}

impl From<u32> for Addr {
    /// The IPv4 address with the number `addr`.
    fn from(addr: u32) -> (a: Addr)
        ensures
            a == Addr::V4(addr),
    {
        Addr::V4(addr)
    }
}

impl vstd::std_specs::convert::FromSpecImpl<u32> for Addr {
    open spec fn obeys_from_spec() -> bool {
        true
    }

    open spec fn from_spec(addr: u32) -> Addr {
        Addr::V4(addr)
    }
}

/// Masking twice, to a longer and then to a shorter length, is masking once to the
/// shorter length.
pub proof fn lemma_masked_nested(v: nat, width: nat, l1: nat, l2: nat)
    requires
        l2 <= l1 <= width,
    ensures
        masked(masked(v, width, l1), width, l2) == masked(v, width, l2),
{
    let b1 = pow2((width - l1) as nat);
    let b2 = pow2((width - l2) as nat);
    let d = pow2((l1 - l2) as nat);
    lemma_pow2_pos((width - l1) as nat);
    lemma_pow2_pos((l1 - l2) as nat);
    lemma_pow2_adds((width - l1) as nat, (l1 - l2) as nat);
    assert(b2 == b1 * d);
    let q = v / b1;
    // masked(v, l1) = q * b1; masked(q * b1, l2) = (q * b1 / b2) * b2 = (q / d) * b2
    vstd::arithmetic::div_mod::lemma_div_denominator(v as int, b1 as int, d as int);
    assert(v / b2 == q / d);
    vstd::arithmetic::mul::lemma_mul_is_commutative(q as int, b1 as int);
    vstd::arithmetic::div_mod::lemma_div_denominator((q * b1) as int, b1 as int, d as int);
    vstd::arithmetic::div_mod::lemma_div_by_multiple(q as int, b1 as int);
    assert((q * b1) / b2 == q / d);
}

/// A masked value is its own mask.
pub proof fn lemma_masked_idempotent(v: nat, width: nat, len: nat)
    requires
        len <= width,
    ensures
        masked(masked(v, width, len), width, len) == masked(v, width, len),
{
    lemma_masked_nested(v, width, len, len);
}

/// Shifting left by `s` multiplies by `2^s` when nothing is shifted out.
proof fn lemma_u128_shl(x: u128, s: u128)
    requires
        s < 128,
        x < pow2((128 - s) as nat),
    ensures
        (x << s) as nat == x * pow2(s as nat),
    decreases s,
{
    if s == 0 {
        assert(x << 0u128 == x) by (bit_vector);
        lemma2_to64();
        vstd::arithmetic::mul::lemma_mul_basics(x as int);
    } else {
        let t = (s - 1) as u128;
        lemma_pow2_unfold((128 - t) as nat);
        lemma_u128_shl(x, t);
        lemma_pow2_adds((128 - s) as nat, t as nat);
        assert(127 == (128 - s) + t);
        lemma_pow2_pos(t as nat);
        vstd::arithmetic::mul::lemma_mul_strict_inequality(x as int, pow2((128 - s) as nat) as int, pow2(t as nat) as int);
        let y = x << t;
        assert(y < 0x8000_0000_0000_0000_0000_0000_0000_0000u128) by {
            lemma_pow2_unfold(128);
            assert(pow2(127) * 2 == pow2(128));
            assert(0x8000_0000_0000_0000_0000_0000_0000_0000u128 * 2 == 0x1_0000_0000_0000_0000_0000_0000_0000_0000int);
            lemma2_to64();
            lemma2_to64_rest();
            vstd::arithmetic::power2::lemma_pow2_adds(64, 64);
        }
        assert((x << s) == (y << 1u128)) by (bit_vector)
            requires
                0 < s < 128,
                t == s - 1,
                y == x << t,
        ;
        assert((y << 1u128) == y * 2) by (bit_vector)
            requires
                y < 0x8000_0000_0000_0000_0000_0000_0000_0000u128,
        ;
        lemma_pow2_unfold(s as nat);
        vstd::arithmetic::mul::lemma_mul_is_associative(x as int, pow2(t as nat) as int, 2);
        assert(pow2(s as nat) == pow2(t as nat) * 2);
        assert(y as int == x * pow2(t as nat));
        assert((x * pow2(t as nat)) * 2 == x * (pow2(t as nat) * 2));
        assert(y * 2 == x * pow2(s as nat));
    }
}

proof fn lemma_masked_is_round_down(v: nat, block: nat)
    requires
        block > 0,
    ensures
        (v / block) * block <= v,
        (v / block) * block == v - v % block,
{
    vstd::arithmetic::div_mod::lemma_fundamental_div_mod(v as int, block as int);
    vstd::arithmetic::div_mod::lemma_mod_bound(v as int, block as int);
    vstd::arithmetic::mul::lemma_mul_is_commutative((v / block) as int, block as int);
}

proof fn lemma_masked_everything(v: nat, width: nat)
    requires
        v < pow2(width),
    ensures
        masked(v, width, 0) == 0,
{
    vstd::arithmetic::div_mod::lemma_basic_div(v as int, pow2(width) as int);
    vstd::arithmetic::mul::lemma_mul_by_zero_is_zero(pow2(width) as int);
}

proof fn lemma_masked_nothing(v: nat, width: nat)
    ensures
        masked(v, width, width) == v,
{
    lemma2_to64();
    vstd::arithmetic::div_mod::lemma_div_basics(v as int);
    vstd::arithmetic::mul::lemma_mul_basics(v as int);
}

/// Clearing the low bits with a shifted all-ones mask rounds down to a multiple of
/// the block size.
proof fn lemma_u32_mask(v: u32, s: u32)
    requires
        0 < s < 32,
    ensures
        (v & (!0u32 << s)) as nat == masked(v as nat, 32, (32 - s) as nat),
{
    assert((v & (!0u32 << s)) == ((v >> s) << s)) by (bit_vector)
        requires
            0 < s < 32,
    ;
    lemma_u32_shr_is_div(v, s);
    lemma_pow2_pos(s as nat);
    let q = v >> s;
    lemma_masked_is_round_down(v as nat, pow2(s as nat));
    lemma_u32_shl_is_mul(q, s);
}

proof fn lemma_u128_mask(v: u128, s: u128)
    requires
        0 < s < 128,
    ensures
        (v & (!0u128 << s)) as nat == masked(v as nat, 128, (128 - s) as nat),
{
    assert((v & (!0u128 << s)) == ((v >> s) << s)) by (bit_vector)
        requires
            0 < s < 128,
    ;
    lemma_u128_shr_is_div(v, s);
    lemma_pow2_pos(s as nat);
    let q = v >> s;
    lemma_masked_is_round_down(v as nat, pow2(s as nat));
    assert(q < pow2((128 - s) as nat)) by {
        lemma_pow2_adds((128 - s) as nat, s as nat);
        lemma2_to64();
        lemma2_to64_rest();
        vstd::arithmetic::power2::lemma_pow2_adds(64, 64);
        assert(pow2(128) == 0x1_0000_0000_0000_0000_0000_0000_0000_0000int);
        vstd::arithmetic::mul::lemma_mul_is_commutative(pow2((128 - s) as nat) as int, pow2(s as nat) as int);
        vstd::arithmetic::div_mod::lemma_multiply_divide_lt(v as int, pow2(s as nat) as int, pow2((128 - s) as nat) as int);
    }
    lemma_u128_shl(q, s);
}

/// The network address of `addr` under a prefix of `len` bits: every bit after the
/// first `len` is cleared.
pub fn network_addr(addr: Addr, len: u8) -> (r: Addr)
    requires
        len <= addr.width(),
    ensures
        r.width() == addr.width(),
        r.value() == masked(addr.value(), addr.width(), len as nat),
        r == network_of(addr, len as nat),
{
    proof {
        lemma2_to64();
        lemma2_to64_rest();
    }
    match addr {
        Addr::V4(value) => {
            let masked_value = if len == 0 {
                proof {
                    lemma_masked_everything(value as nat, 32);
                }
                0
            } else if len == 32 {
                proof {
                    lemma_masked_nothing(value as nat, 32);
                }
                value
            } else {
                proof {
                    lemma_u32_mask(value, (32 - len) as u32);
                }
                value & (!0u32 << (32 - len))
            };
            Addr::V4(masked_value)
        },
        Addr::V6(value) => {
            let masked_value = if len == 0 {
                proof {
                    assert(pow2(128) == 0x1_0000_0000_0000_0000_0000_0000_0000_0000int) by {
                        vstd::arithmetic::power2::lemma_pow2_adds(64, 64);
                    }
                    lemma_masked_everything(value as nat, 128);
                }
                0
            } else if len == 128 {
                proof {
                    lemma_masked_nothing(value as nat, 128);
                }
                value
            } else {
                proof {
                    lemma_u128_mask(value, (128 - len) as u128);
                }
                value & (!0u128 << (128 - len))
            };
            Addr::V6(masked_value)
        },
    }
}

} // verus!
