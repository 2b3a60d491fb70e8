//! Numbers of sixteen bits: half precision, and bfloat16 with the exponent of
//! single precision.

use vstd::arithmetic::power2::{lemma2_to64, lemma_pow2_unfold, pow2};
use vstd::prelude::*;

verus! {

/// The whole number nearest to `over / under`, the even one of two.
pub open spec fn nearest(over: int, under: int) -> int {
    let below = over / under;
    let rest = over % under;
    if 2 * rest < under || (2 * rest == under && below % 2 == 0) {
        below
    } else {
        below + 1
    }
}

/// The half-precision number nearest to the size of a bfloat16 number. One that
/// is too great becomes infinite, one that is too small zero, and what is no
/// number stays none, with the first bit of its fraction set.
pub open spec fn narrowed_size(exponent: int, fraction: int) -> int {
    if exponent == 0xff && fraction != 0 {
        0x7e00 + fraction % 0x40 * 8
    } else if exponent >= 0x8f {
        0x7c00
    } else if exponent >= 0x71 {
        (exponent - 0x70) * 0x400 + fraction * 8
    } else if exponent >= 0x66 {
        nearest((0x80 + fraction) * pow2((exponent - 0x66) as nat), 0x100)
    } else {
        0
    }
}

/// The half-precision number nearest to a bfloat16 number.
pub open spec fn narrowed(bits: int) -> int {
    bits / 0x8000 * 0x8000 + narrowed_size(bits / 0x80 % 0x100, bits % 0x80)
}

/// `number` times a power of two, at most the tenth.
fn scaled(number: u32, power: u32) -> (result: u32)
    requires
        number <= 0xff,
        power <= 10,
    ensures
        result == number * pow2(power as nat),
        result <= 0xff * 0x400,
{
    let mut result = number;
    let mut n: u32 = 0;
    proof {
        lemma2_to64();
    }
    assert(number * pow2(0) == number) by (nonlinear_arith)
        requires
            pow2(0) == 1,
    ;
    while n < power
        invariant
            n <= power <= 10,
            number <= 0xff,
            result == number * pow2(n as nat),
            pow2(n as nat) <= 0x400,
            n < 10 ==> pow2((n + 1) as nat) <= 0x400,
        decreases power - n,
    {
        proof {
            lemma2_to64();
            lemma_pow2_unfold((n + 1) as nat);
        }
        assert(number * pow2(n as nat) <= 0xff * 0x400) by (nonlinear_arith)
            requires
                number <= 0xff,
                pow2(n as nat) <= 0x400,
        ;
        assert(number * (2 * pow2(n as nat)) == 2 * (number * pow2(n as nat))) by (nonlinear_arith);
        result = result * 2;
        n += 1;
    }
    assert(number * pow2(n as nat) <= 0xff * 0x400) by (nonlinear_arith)
        requires
            number <= 0xff,
            pow2(n as nat) <= 0x400,
    ;
    result
}

/// The half-precision number nearest to a bfloat16 number.
pub fn narrow(bits: u16) -> (half: u16)
    ensures
        half == narrowed(bits as int),
{
    let sign: u16 = bits / 0x8000 * 0x8000;
    let exponent: u16 = bits / 0x80 % 0x100;
    let fraction: u16 = bits % 0x80;
    let size: u16 = if exponent == 0xff && fraction != 0 {
        0x7e00 + fraction % 0x40 * 8
    } else if exponent >= 0x8f {
        0x7c00
    } else if exponent >= 0x71 {
        (exponent - 0x70) * 0x400 + fraction * 8
    } else if exponent >= 0x66 {
        let over = scaled(0x80 + fraction as u32, exponent as u32 - 0x66);
        let below: u32 = over / 0x100;
        let rest: u32 = over % 0x100;
        if 2 * rest < 0x100 || (2 * rest == 0x100 && below % 2 == 0) {
            below as u16
        } else {
            (below + 1) as u16
        }
    } else {
        0
    };
    sign + size
}

/// The sixteen bits of two bytes, the low one first.
pub open spec fn word(bytes: Seq<u8>, at: int) -> int {
    bytes[at] + bytes[at + 1] * 0x100
}

/// Bytes with the half-precision number nearest to each bfloat16 number of
/// others in front, over what was there.
pub open spec fn narrowed_over(source: Seq<u8>, target: Seq<u8>) -> Seq<u8> {
    Seq::new(
        target.len(),
        |i: int|
            if i >= source.len() {
                target[i]
            } else if i % 2 == 0 {
                (narrowed(word(source, i)) % 0x100) as u8
            } else {
                (narrowed(word(source, i - 1)) / 0x100) as u8
            },
    )
}

/// Writes the nearest half-precision number to each bfloat16 number. What lies
/// behind them stays.
pub fn narrow_into(source: &[u8], target: &mut [u8])
    requires
        source@.len() % 2 == 0,
        source@.len() <= old(target)@.len(),
    ensures
        final(target)@ == narrowed_over(source@, old(target)@),
{
    let ghost before = target@;
    let len: usize = source.len();
    let count: usize = len / 2;
    let mut n: usize = 0;
    while n < count
        invariant
            len == source@.len(),
            len % 2 == 0,
            count == len / 2,
            n <= count,
            source@.len() <= before.len(),
            target@.len() == before.len(),
            forall|i: int|
                0 <= i < 2 * n ==> #[trigger] target@[i] == narrowed_over(source@, before)[i],
            forall|i: int| 2 * n <= i < before.len() ==> #[trigger] target@[i] == before[i],
        decreases count - n,
    {
        let at: usize = 2 * n;
        let half = narrow(source[at] as u16 + source[at + 1] as u16 * 0x100);
        target[at] = (half % 0x100) as u8;
        target[at + 1] = (half / 0x100) as u8;
        n += 1;
    }
    assert(target@ =~= narrowed_over(source@, before));
}

/// Bytes that repeat one number of sixteen bits, the low byte first.
pub open spec fn repeated(bits: u16, count: nat) -> Seq<u8> {
    Seq::new(
        count,
        |i: int|
            if i % 2 == 0 {
                (bits % 0x100) as u8
            } else {
                (bits / 0x100) as u8
            },
    )
}

/// Fills bytes with one number of sixteen bits.
pub fn repeat_into(bits: u16, target: &mut [u8])
    ensures
        final(target)@ == repeated(bits, old(target)@.len()),
{
    let ghost len = target@.len();
    let mut i: usize = 0;
    while i < target.len()
        invariant
            i <= target@.len(),
            target@.len() == len,
            len == old(target)@.len(),
            forall|j: int| 0 <= j < i ==> #[trigger] target@[j] == repeated(bits, len)[j],
        decreases len - i,
    {
        if i % 2 == 0 {
            target[i] = (bits % 0x100) as u8;
        } else {
            target[i] = (bits / 0x100) as u8;
        }
        i += 1;
    }
    assert(target@ =~= repeated(bits, len));
}

/// Numbers are narrowed one for one: the number that is read at a place of the target is
/// the nearest one to what stands there in the source, and what lies behind the source
/// stays.
pub proof fn numbers_are_narrowed_in_place(source: Seq<u8>, target: Seq<u8>, i: int)
    requires
        source.len() % 2 == 0,
        source.len() <= target.len(),
        0 <= i < source.len() / 2,
    ensures
        ({
            let after = narrowed_over(source, target);
            &&& after.len() == target.len()
            &&& word(after, 2 * i) == narrowed(word(source, 2 * i))
            &&& after.skip(source.len() as int) == target.skip(source.len() as int)
        }),
{
    let after = narrowed_over(source, target);
    assert(after.skip(source.len() as int) =~= target.skip(source.len() as int));
    let bits = word(source, 2 * i);
    assert(0 <= bits < 0x1_0000);
    lemma_narrowed_is_a_word(bits);
    assert((2 * i) % 2 == 0 && (2 * i + 1) % 2 == 1);
}

/// A number that is narrowed keeps its sign, and fits in sixteen bits.
proof fn lemma_narrowed_is_a_word(bits: int)
    requires
        0 <= bits < 0x1_0000,
    ensures
        0 <= narrowed(bits) < 0x1_0000,
        narrowed(bits) / 0x8000 == bits / 0x8000,
{
    let exponent = bits / 0x80 % 0x100;
    let fraction = bits % 0x80;
    let size = narrowed_size(exponent, fraction);
    assert(0 <= size < 0x8000) by {
        if exponent >= 0x66 && exponent < 0x71 {
            lemma2_to64();
            let power = pow2((exponent - 0x66) as nat) as int;
            assert(1 <= power <= 0x400);
            let over = (0x80 + fraction) * power;
            assert(0 <= over <= 0xff * 0x400) by (nonlinear_arith)
                requires
                    over == (0x80 + fraction) * power,
                    0 <= fraction < 0x80,
                    1 <= power <= 0x400,
            ;
            assert(0 <= nearest(over, 0x100) <= 0x3fd);
        }
    }
}

/// Bytes that repeat a number hold it at every place.
pub proof fn a_repeated_number_is_read_everywhere(bits: u16, count: nat, i: int)
    requires
        0 <= i,
        2 * i + 1 < count,
    ensures
        repeated(bits, count).len() == count,
        word(repeated(bits, count), 2 * i) == bits,
{
    assert((2 * i) % 2 == 0 && (2 * i + 1) % 2 == 1);
}

} // verus!
