//! Big-endian integers: the bytes of a number and the number of some bytes.

use crate::d_stream::DStream;
use crate::error::Error;
use crate::o_stream::OStream;
use vstd::prelude::*;
use vstd::slice::slice_subrange;

verus! {

/// The number of values that `width` bytes can tell apart: 256 to the power
/// `width`.
pub open spec fn limit(width: nat) -> nat
    decreases width,
{
    if width == 0 {
        1
    } else {
        256 * limit((width - 1) as nat)
    }
}

/// The `width` low-order bytes of `value`, most significant first.
pub open spec fn be_bytes(value: nat, width: nat) -> Seq<u8>
    decreases width,
{
    if width == 0 {
        Seq::empty()
    } else {
        be_bytes(value / 256, (width - 1) as nat).push((value % 256) as u8)
    }
}

/// The number that `bytes` spell, most significant first.
pub open spec fn be_value(bytes: Seq<u8>) -> nat
    decreases bytes.len(),
{
    if bytes.len() == 0 {
        0
    } else {
        be_value(bytes.drop_last()) * 256 + bytes.last() as nat
    }
}

/// The unsigned number that carries `value` in two's complement on `width`
/// bytes.
pub open spec fn signed_to_raw(value: int, width: nat) -> nat {
    if value < 0 {
        (value + limit(width)) as nat
    } else {
        value as nat
    }
}

/// The signed number that `raw` carries in two's complement on `width` bytes.
pub open spec fn raw_to_signed(raw: nat, width: nat) -> int {
    if 2 * raw >= limit(width) {
        raw - limit(width)
    } else {
        raw as int
    }
}

/// Whether `value` is a two's complement number of `width` bytes.
pub open spec fn fits_signed(value: int, width: nat) -> bool {
    -(limit(width) as int) <= 2 * value < limit(width)
}

/// The limits of the widths in use.
pub proof fn lemma_limits()
    ensures
        limit(0) == 1,
        limit(1) == 0x100,
        limit(2) == 0x1_0000,
        limit(4) == 0x1_0000_0000,
        limit(8) == 0x1_0000_0000_0000_0000,
        limit(16) == 0x1_0000_0000_0000_0000_0000_0000_0000_0000,
{
    reveal_with_fuel(limit, 17);
}

/// A wider field tells more values apart.
pub proof fn lemma_limit_grows(narrow: nat, wide: nat)
    requires
        narrow <= wide,
    ensures
        0 < limit(narrow) <= limit(wide),
    decreases wide,
{
    if wide == 0 {
    } else if narrow == wide {
        lemma_limit_grows((narrow - 1) as nat, (wide - 1) as nat);
    } else {
        lemma_limit_grows(narrow, (wide - 1) as nat);
    }
}

/// A number is spelt on exactly as many bytes as asked for.
pub proof fn lemma_be_bytes_len(value: nat, width: nat)
    ensures
        be_bytes(value, width).len() == width,
    decreases width,
{
    if width > 0 {
        lemma_be_bytes_len(value / 256, (width - 1) as nat);
    }
}

/// What some bytes spell is below the limit of their count.
pub proof fn lemma_be_value_bound(bytes: Seq<u8>)
    ensures
        be_value(bytes) < limit(bytes.len()),
    decreases bytes.len(),
{
    if bytes.len() > 0 {
        lemma_be_value_bound(bytes.drop_last());
    }
}

/// Reading the bytes of a number that fits gives the number back.
pub proof fn lemma_be_value_of_bytes(value: nat, width: nat)
    requires
        value < limit(width),
    ensures
        be_value(be_bytes(value, width)) == value,
    decreases width,
{
    if width > 0 {
        let rest = be_bytes(value / 256, (width - 1) as nat);
        lemma_be_value_of_bytes(value / 256, (width - 1) as nat);
        lemma_be_bytes_len(value / 256, (width - 1) as nat);
        assert(be_bytes(value, width).drop_last() =~= rest);
    }
}

/// Spelling what some bytes spell, on as many bytes, gives the bytes back.
pub proof fn lemma_be_bytes_of_value(bytes: Seq<u8>)
    ensures
        be_bytes(be_value(bytes), bytes.len()) == bytes,
    decreases bytes.len(),
{
    if bytes.len() > 0 {
        lemma_be_bytes_of_value(bytes.drop_last());
        assert(be_bytes(be_value(bytes), bytes.len()) =~= bytes);
    }
}

/// Two's complement loses nothing of a number that fits.
pub proof fn lemma_signed_round_trip(value: int, width: nat)
    requires
        fits_signed(value, width),
    ensures
        signed_to_raw(value, width) < limit(width),
        raw_to_signed(signed_to_raw(value, width), width) == value,
{
}

/// What two's complement reads from a raw number fits, and carries it back.
pub proof fn lemma_unsigned_round_trip(raw: nat, width: nat)
    requires
        raw < limit(width),
    ensures
        fits_signed(raw_to_signed(raw, width), width),
        signed_to_raw(raw_to_signed(raw, width), width) == raw,
{
}

/// Writes the `width` low-order bytes of `value`, most significant first.
pub fn put_be(stream: &mut OStream, value: u128, width: usize)
    requires
        width <= 16,
        width <= old(stream).free(),
    ensures
        final(stream).extends(old(stream), be_bytes(value as nat, width as nat)),
        final(final(stream).target())@ == final(old(stream).target())@,
{
    let mut digits: [u8; 16] = [0;16];
    let mut rest: u128 = value;
    let mut done: usize = 0;
    while done < width
        invariant
            done <= width <= 16,
            be_bytes(value as nat, width as nat) == be_bytes(rest as nat, (width - done) as nat)
                + digits@.subrange(16 - done, 16),
        decreases width - done,
    {
        let ghost before = digits@;
        digits[15 - done] = (rest % 256) as u8;
        proof {
            let low = digits@.subrange(16 - done, 16);
            assert(low =~= before.subrange(16 - done, 16));
            assert(digits@.subrange(15 - done, 16) =~= seq![(rest % 256) as u8] + low);
            let high = be_bytes(rest as nat / 256, (width - done - 1) as nat);
            assert(be_bytes(rest as nat, (width - done) as nat) == high.push((rest % 256) as u8));
            assert(high.push((rest % 256) as u8) + low =~= high + (seq![(rest % 256) as u8] + low));
        }
        rest = rest / 256;
        done = done + 1;
    }
    let bytes = slice_subrange(digits.as_slice(), 16 - width, 16);
    assert(bytes@ =~= be_bytes(value as nat, width as nat));
    stream.write(bytes);
}

/// What [`take_be`] makes of `bytes`: the number on the first `width` of them,
/// or the report that fewer are left.
pub open spec fn parse_be(bytes: Seq<u8>, width: nat) -> Result<nat, Error> {
    if bytes.len() < width {
        Err(Error::EndOfDStream { len: bytes.len() as usize, ok_len: width as usize })
    } else {
        Ok(be_value(bytes.take(width as int)))
    }
}

/// Reads a number of `width` bytes, most significant first.
pub fn take_be(stream: &mut DStream, width: usize) -> (r: Result<u128, Error>)
    requires
        width <= 16,
    ensures
        match r {
            Ok(value) => parse_be(old(stream)@, width as nat) == Ok::<nat, Error>(value as nat)
                && final(stream)@ == old(stream)@.skip(width as int),
            Err(e) => parse_be(old(stream)@, width as nat) == Err::<nat, Error>(e)
                && final(stream)@ == old(stream)@,
        },
{
    match stream.take(width) {
        Err(e) => Err(e),
        Ok(bytes) => {
            let mut value: u128 = 0;
            let mut done: usize = 0;
            while done < width
                invariant
                    done <= width <= 16,
                    bytes@.len() == width,
                    value == be_value(bytes@.take(done as int)),
                decreases width - done,
            {
                proof {
                    let next = bytes@.take(done + 1);
                    assert(next.drop_last() =~= bytes@.take(done as int));
                    lemma_be_value_bound(bytes@.take(done as int));
                    lemma_be_value_bound(next);
                    lemma_limit_grows((done + 1) as nat, 16);
                    lemma_limits();
                }
                value = value * 256 + bytes[done] as u128;
                done = done + 1;
            }
            assert(bytes@.take(width as int) =~= bytes@);
            Ok(value)
        },
    }
}

/// The number of values that `width` bytes can tell apart, for fewer than
/// sixteen bytes.
pub fn limit_of(width: usize) -> (bound: u128)
    requires
        width < 16,
    ensures
        bound == limit(width as nat),
{
    let mut bound: u128 = 1;
    let mut done: usize = 0;
    while done < width
        invariant
            done <= width < 16,
            bound == limit(done as nat),
        decreases width - done,
    {
        proof {
            lemma_limit_grows((done + 1) as nat, 15);
            reveal_with_fuel(limit, 16);
        }
        bound = bound * 256;
        done = done + 1;
    }
    bound
}

/// The raw number that carries `value` in two's complement on `width` bytes.
pub fn twos_complement(value: i128, width: usize) -> (raw: u128)
    requires
        width <= 16,
        fits_signed(value as int, width as nat),
    ensures
        raw == signed_to_raw(value as int, width as nat),
{
    proof {
        lemma_limits();
    }
    if value >= 0 {
        value as u128
    } else if width == 16 {
        let above: i128 = value + i128::MAX + 1;
        above as u128 + 0x8000_0000_0000_0000_0000_0000_0000_0000u128
    } else {
        let below: u128 = (-(value + 1)) as u128;
        limit_of(width) - 1 - below
    }
}

/// The signed number that `raw` carries in two's complement on `width` bytes.
pub fn from_twos_complement(raw: u128, width: usize) -> (value: i128)
    requires
        width <= 16,
        raw < limit(width as nat),
    ensures
        value == raw_to_signed(raw as nat, width as nat),
{
    proof {
        lemma_limits();
    }
    if width == 16 {
        if raw >= 0x8000_0000_0000_0000_0000_0000_0000_0000u128 {
            let below: u128 = raw - 0x8000_0000_0000_0000_0000_0000_0000_0000u128;
            below as i128 - i128::MAX - 1
        } else {
            raw as i128
        }
    } else {
        let bound = limit_of(width);
        proof {
            lemma_limit_grows(width as nat, 15);
            reveal_with_fuel(limit, 16);
        }
        if raw >= bound - raw {
            -((bound - raw) as i128)
        } else {
            raw as i128
        }
    }
}

} // verus!
