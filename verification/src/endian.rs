//! Integers as sequences of bytes.
use vstd::arithmetic::{div_mod, power};
use vstd::prelude::*;

verus! {

/// The `len` lowest bytes of `n`, least significant byte first.
pub open spec fn le_bytes(n: nat, len: nat) -> Seq<u8>
    decreases len,
{
    if len == 0 {
        seq![]
    } else {
        seq![(n % 256) as u8] + le_bytes(n / 256, (len - 1) as nat)
    }
}

/// The number whose bytes are `s`, least significant byte first.
pub open spec fn le_value(s: Seq<u8>) -> nat
    decreases s.len(),
{
    if s.len() == 0 {
        0
    } else {
        s[0] as nat + 256 * le_value(s.drop_first())
    }
}

/// The `len` lowest bytes of `n`, most significant byte first.
pub open spec fn be_bytes(n: nat, len: nat) -> Seq<u8> {
    le_bytes(n, len).reverse()
}

/// The number whose bytes are `s`, most significant byte first.
pub open spec fn be_value(s: Seq<u8>) -> nat {
    le_value(s.reverse())
}

/// 256 to the power of `len`: the first number that `len` bytes cannot hold.
pub open spec fn byte_limit(len: nat) -> nat
    decreases len,
{
    if len == 0 {
        1
    } else {
        256 * byte_limit((len - 1) as nat)
    }
}

/// Writing a number into enough bytes and reading it back gives the number.
pub proof fn lemma_le_value_of_bytes(n: nat, len: nat)
    requires
        n < byte_limit(len),
    ensures
        le_bytes(n, len).len() == len,
        le_value(le_bytes(n, len)) == n,
    decreases len,
{
    if len > 0 {
        lemma_le_value_of_bytes(n / 256, (len - 1) as nat);
        assert(le_bytes(n, len).drop_first() =~= le_bytes(n / 256, (len - 1) as nat));
    }
}

/// Reading a number and writing it back gives the bytes.
pub proof fn lemma_le_bytes_of_value(s: Seq<u8>)
    ensures
        le_value(s) < byte_limit(s.len()),
        le_bytes(le_value(s), s.len()) == s,
    decreases s.len(),
{
    if s.len() > 0 {
        lemma_le_bytes_of_value(s.drop_first());
        let rest = le_value(s.drop_first());
        assert(le_value(s) % 256 == s[0] as nat && le_value(s) / 256 == rest);
        assert(s =~= seq![s[0]] + s.drop_first());
    }
}

/// Writing a number into enough bytes and reading it back gives the number.
pub proof fn lemma_be_value_of_bytes(n: nat, len: nat)
    requires
        n < byte_limit(len),
    ensures
        be_bytes(n, len).len() == len,
        be_value(be_bytes(n, len)) == n,
{
    lemma_le_value_of_bytes(n, len);
    assert(le_bytes(n, len).reverse().reverse() =~= le_bytes(n, len));
}

/// The limits of the integer types that the wire format uses.
pub proof fn lemma_byte_limits()
    ensures
        byte_limit(2) == 0x1_0000,
        byte_limit(4) == 0x1_0000_0000,
        byte_limit(8) == 0x1_0000_0000_0000_0000,
        byte_limit(16) == u128::MAX + 1,
{
    reveal_with_fuel(byte_limit, 17);
}

/// The limit of some bytes is a power of 256.
pub proof fn lemma_byte_limit(len: nat)
    ensures
        byte_limit(len) == power::pow(256, len),
    decreases len,
{
    reveal(power::pow);
    if len > 0 {
        lemma_byte_limit((len - 1) as nat);
    }
}

/// The byte of a number at a place, with the least significant one at the first
/// place, is the digit of the number to the base 256.
pub proof fn law_le_digit(n: nat, len: nat, i: int)
    requires
        0 <= i < len,
    ensures
        le_bytes(n, len).len() == len,
        le_bytes(n, len)[i] == (n as int / power::pow(256, i as nat)) % 256,
    decreases len,
{
    reveal(power::pow);
    lemma_le_len(n, len);
    if i > 0 {
        let rest = le_bytes(n / 256, (len - 1) as nat);
        lemma_le_len(n / 256, (len - 1) as nat);
        law_le_digit(n / 256, (len - 1) as nat, i - 1);
        assert(le_bytes(n, len)[i] == rest[i - 1]);
        let c = power::pow(256, (i - 1) as nat);
        power::lemma_pow_positive(256, (i - 1) as nat);
        div_mod::lemma_div_denominator(n as int, 256, c);
    } else {
        assert(power::pow(256, 0) == 1);
    }
}

/// A number has as many bytes as it is written in.
pub proof fn lemma_le_len(n: nat, len: nat)
    ensures
        le_bytes(n, len).len() == len,
    decreases len,
{
    if len > 0 {
        lemma_le_len(n / 256, (len - 1) as nat);
    }
}

/// The number that bytes hold, with the least significant one first, has these
/// bytes as its digits to the base 256, and no others.
pub proof fn law_le_value(s: Seq<u8>, i: int)
    requires
        0 <= i < s.len(),
    ensures
        s[i] == (le_value(s) as int / power::pow(256, i as nat)) % 256,
        le_value(s) < power::pow(256, s.len()),
{
    lemma_le_bytes_of_value(s);
    lemma_byte_limit(s.len());
    law_le_digit(le_value(s), s.len(), i);
}

} // verus!
