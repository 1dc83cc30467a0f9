//! Big-endian numbers as byte sequences.

use vstd::prelude::*;

verus! {

/// The number that a byte sequence holds in network byte order.
pub open spec fn be_value(s: Seq<u8>) -> nat
    decreases s.len(),
{
    if s.len() == 0 {
        0
    } else {
        be_value(s.drop_last()) * 256 + s.last() as nat
    }
}

/// The `len` low bytes of a number in network byte order.
pub open spec fn be_bytes(v: nat, len: nat) -> Seq<u8>
    decreases len,
{
    if len == 0 {
        seq![]
    } else {
        be_bytes(v / 256, (len - 1) as nat).push((v % 256) as u8)
    }
}

/// `bytes` written over `buf` from `off` on.
pub open spec fn splice(buf: Seq<u8>, off: int, bytes: Seq<u8>) -> Seq<u8> {
    buf.subrange(0, off) + bytes + buf.subrange(off + bytes.len(), buf.len() as int)
}

/// `be_bytes` has the length that it is asked for.
pub proof fn lemma_be_bytes_len(v: nat, len: nat)
    ensures
        be_bytes(v, len).len() == len,
    decreases len,
{
    if len > 0 {
        lemma_be_bytes_len(v / 256, (len - 1) as nat);
    }
}

/// Reading back the bytes of a number gives the number, if it fits.
pub proof fn lemma_be_value_of_bytes(v: nat, len: nat)
    requires
        v < vstd::arithmetic::power::pow(256, len),
    ensures
        be_value(be_bytes(v, len)) == v,
    decreases len,
{
    vstd::arithmetic::power::lemma_pow0(256);
    if len > 0 {
        let rest = (len - 1) as nat;
        assert(vstd::arithmetic::power::pow(256, len) == 256 * vstd::arithmetic::power::pow(
            256,
            rest,
        )) by {
            reveal(vstd::arithmetic::power::pow);
        }
        assert(v / 256 < vstd::arithmetic::power::pow(256, rest));
        lemma_be_value_of_bytes(v / 256, rest);
        assert(be_bytes(v, len).drop_last() =~= be_bytes(v / 256, rest));
    }
}

/// A byte sequence holds a number below the limit that its length sets.
pub proof fn lemma_be_value_bound(s: Seq<u8>)
    ensures
        be_value(s) < vstd::arithmetic::power::pow(256, s.len()),
    decreases s.len(),
{
    vstd::arithmetic::power::lemma_pow0(256);
    if s.len() > 0 {
        lemma_be_value_bound(s.drop_last());
        vstd::arithmetic::power::lemma_pow1(256);
        vstd::arithmetic::power::lemma_pow_adds(256, 1, (s.len() - 1) as nat);
    }
}

/// The limits that the lengths of addresses set.
pub proof fn lemma_address_limits()
    ensures
        vstd::arithmetic::power::pow(256, 4) == 0x1_0000_0000,
        vstd::arithmetic::power::pow(256, 16) == 0x1_0000_0000_0000_0000_0000_0000_0000_0000,
{
    reveal_with_fuel(vstd::arithmetic::power::pow, 17);
}

/// The number in a byte sequence and one more byte.
pub proof fn lemma_be_value_push(s: Seq<u8>, b: u8)
    ensures
        be_value(s.push(b)) == be_value(s) * 256 + b as nat,
{
    assert(s.push(b).drop_last() =~= s);
}

/// The `len` low bytes of a number in network byte order.
pub fn be_octets(v: u128, len: usize) -> (r: Vec<u8>)
    ensures
        r@ == be_bytes(v as nat, len as nat),
    decreases len,
{
    if len == 0 {
        Vec::new()
    } else {
        let mut r = be_octets(v / 256, len - 1);
        r.push((v % 256) as u8);
        r
    }
}

/// The bytes of a number stand in network order: each is the digit to base 256
/// whose weight is told by the number of bytes behind it.
pub proof fn law_bytes_stand_in_network_order(v: nat, len: nat, i: int)
    requires
        0 <= i < len,
    ensures
        be_bytes(v, len).len() == len,
        be_bytes(v, len)[i] as int == v as int / vstd::arithmetic::power::pow(
            256,
            (len - 1 - i) as nat,
        ) % 256,
    decreases len,
{
    lemma_be_bytes_len(v, len);
    lemma_be_bytes_len(v / 256, (len - 1) as nat);
    vstd::arithmetic::power::lemma_pow0(256);
    if i < len - 1 {
        law_bytes_stand_in_network_order(v / 256, (len - 1) as nat, i);
        let rest = (len - 2 - i) as nat;
        let weight = vstd::arithmetic::power::pow(256, rest);
        vstd::arithmetic::power::lemma_pow_positive(256, rest);
        vstd::arithmetic::power::lemma_pow1(256);
        vstd::arithmetic::power::lemma_pow_adds(256, 1, rest);
        vstd::arithmetic::div_mod::lemma_div_denominator(v as int, 256, weight);
    }
}

/// The number in a byte sequence grows with each of its bytes by the weight that
/// network order gives it.
pub proof fn law_value_weighs_the_first_byte(s: Seq<u8>)
    requires
        s.len() > 0,
    ensures
        be_value(s) == s[0] as int * vstd::arithmetic::power::pow(256, (s.len() - 1) as nat)
            + be_value(s.drop_first()),
    decreases s.len(),
{
    vstd::arithmetic::power::lemma_pow0(256);
    if s.len() == 1 {
        assert(s.drop_last() =~= seq![]);
        assert(s.drop_first() =~= seq![]);
        assert(be_value(seq![]) == 0);
        assert(be_value(s) == be_value(s.drop_last()) * 256 + s[0] as nat);
    } else {
        law_value_weighs_the_first_byte(s.drop_last());
        assert(s.drop_last().drop_first() =~= s.drop_first().drop_last());
        let w = vstd::arithmetic::power::pow(256, (s.len() - 2) as nat);
        vstd::arithmetic::power::lemma_pow1(256);
        vstd::arithmetic::power::lemma_pow_adds(256, 1, (s.len() - 2) as nat);
        assert((s[0] as int * w) * 256 == s[0] as int * (256 * w)) by (nonlinear_arith);
    }
}

/// Writing over a part of a buffer changes that part alone.
pub proof fn law_splice_changes_its_part_alone(buf: Seq<u8>, off: int, bytes: Seq<u8>)
    requires
        0 <= off,
        off + bytes.len() <= buf.len(),
    ensures
        splice(buf, off, bytes).len() == buf.len(),
        forall|i: int|
            0 <= i < buf.len() ==> #[trigger] splice(buf, off, bytes)[i] == if off <= i < off
                + bytes.len() {
                bytes[i - off]
            } else {
                buf[i]
            },
{
}

} // verus!
