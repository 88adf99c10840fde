use vstd::prelude::*;
use vstd::std_specs::bits::{axiom_u32_trailing_zeros, u32_trailing_zeros};

verus! {

/// Whether bit `i` of `x` is set.
pub open spec fn bit_set(x: u32, i: u32) -> bool {
    (x >> i) & 1u32 == 1u32
}

/// Clearing the lowest set bit `t` of `x` with `x & (x - 1)` keeps every other bit, and makes
/// the value smaller.
proof fn lemma_clear_lowest(x: u32, t: u32, i: u32)
    requires
        x != 0,
        t < 32,
        i < 32,
        x << ((32 - t) as u32) == 0,
        (x >> t) & 1u32 == 1u32,
    ensures
        bit_set(x & ((x - 1) as u32), i) == (bit_set(x, i) && i != t),
        x & ((x - 1) as u32) < x,
{
    assert((((x & ((x - 1) as u32)) >> i) & 1u32 == 1u32) == (((x >> i) & 1u32 == 1u32) && i
        != t)) by (bit_vector)
        requires
            x != 0,
            t < 32,
            i < 32,
            x << ((32 - t) as u32) == 0,
            (x >> t) & 1u32 == 1u32,
    ;
    assert(x & ((x - 1) as u32) < x) by (bit_vector)
        requires
            x != 0,
    ;
}

proof fn lemma_zero_no_bits(i: u32)
    requires
        i < 32,
    ensures
        !bit_set(0, i),
{
    assert(((0u32 >> i) & 1u32) == 0u32) by (bit_vector);
}

/// The position of the lowest set bit of `x`, and `x` with that bit cleared.
pub open spec fn lowest_bit(x: u32) -> u32 {
    u32_trailing_zeros(x)
}

/// Facts about the lowest set bit of a nonzero value.
proof fn lemma_lowest_bit(x: u32)
    requires
        x != 0,
    ensures
        lowest_bit(x) < 32,
        bit_set(x, lowest_bit(x)),
        forall|i: u32| i < lowest_bit(x) ==> !#[trigger] bit_set(x, i),
        forall|i: u32|
            i < 32 ==> #[trigger] bit_set(x & ((x - 1) as u32), i) == (bit_set(x, i) && i
                != lowest_bit(x)),
        x & ((x - 1) as u32) < x,
{
    axiom_u32_trailing_zeros(x);
    let t: u32 = u32_trailing_zeros(x);
    assert(x << ((32 - t) as u32) == 0);
    assert forall|i: u32| i < 32 implies #[trigger] bit_set(x & ((x - 1) as u32), i) == (bit_set(
        x,
        i,
    ) && i != t) by {
        lemma_clear_lowest(x, t, i);
    }
    lemma_clear_lowest(x, t, 0);
    assert forall|i: u32| i < t implies !#[trigger] bit_set(x, i) by {
        assert((x >> i) & 1u32 == 0u32);
    }
}

/// Walks the set bits of a mask, lowest first.
pub struct BitIter(pub u32);

impl BitIter {
    /// The position of the lowest bit still set, which is then cleared; `None` once no bit is
    /// left.
    pub fn next(&mut self) -> (r: Option<u32>)
        ensures
            old(self).0 == 0 ==> r.is_none() && final(self).0 == 0,
            old(self).0 != 0 ==> r == Some(lowest_bit(old(self).0)) && final(self).0 == old(
                self,
            ).0 & ((old(self).0 - 1) as u32),
    {
        if self.0 == 0 {
            return None;
        }
        let bit: u32 = self.0.trailing_zeros();
        self.0 = self.0 & (self.0 - 1);
        Some(bit)
    }
}

/// Whether `lines` holds exactly the set bits of `mask`, lowest first.
pub open spec fn lines_of(mask: u32, lines: Seq<u32>) -> bool {
    &&& forall|i: u32| i < 32 ==> (#[trigger] bit_set(mask, i) <==> lines.contains(i))
    &&& forall|k: int| 0 <= k < lines.len() ==> #[trigger] lines[k] < 32
    &&& forall|a: int, b: int| 0 <= a < b < lines.len() ==> #[trigger] lines[a] < #[trigger] lines[b]
}

/// The CPU interrupt lines that `mask` names, lowest first.
pub fn mask_lines(mask: u32) -> (lines: Vec<u32>)
    ensures
        lines_of(mask, lines@),
{
    let mut iter = BitIter(mask);
    let mut lines: Vec<u32> = Vec::new();
    loop
        invariant
            forall|i: u32|
                i < 32 ==> (#[trigger] bit_set(mask, i) <==> (lines@.contains(i) || bit_set(
                    iter.0,
                    i,
                ))),
            forall|k: int| 0 <= k < lines@.len() ==> #[trigger] lines@[k] < 32,
            forall|a: int, b: int|
                0 <= a < b < lines@.len() ==> #[trigger] lines@[a] < #[trigger] lines@[b],
            forall|k: int, i: u32|
                0 <= k < lines@.len() && i < 32 && #[trigger] bit_set(iter.0, i) ==> #[trigger] lines@[k]
                    < i,
            forall|k: int| 0 <= k < lines@.len() ==> !bit_set(iter.0, #[trigger] lines@[k]),
        ensures
            lines_of(mask, lines@),
        decreases iter.0,
    {
        let ghost before = iter.0;
        let ghost old_lines = lines@;
        match iter.next() {
            None => {
                proof {
                    assert forall|i: u32| i < 32 implies (#[trigger] bit_set(mask, i) <==> lines@.contains(i)) by {
                        lemma_zero_no_bits(i);
                    }
                }
                break;
            },
            Some(bit) => {
                proof {
                    lemma_lowest_bit(before);
                }
                lines.push(bit);
                proof {
                    assert(lines@ == old_lines.push(bit));
                    assert forall|i: u32| i < 32 implies (#[trigger] bit_set(mask, i) <==> (lines@.contains(i) || bit_set(iter.0, i))) by {
                        if i == bit {
                            assert(lines@[old_lines.len() as int] == i);
                        } else if old_lines.contains(i) {
                            let k = choose|k: int| 0 <= k < old_lines.len() && #[trigger] old_lines[k] == i;
                            assert(lines@[k] == i);
                        } else if lines@.contains(i) {
                            let k = choose|k: int| 0 <= k < lines@.len() && #[trigger] lines@[k] == i;
                            assert(k < old_lines.len());
                            assert(old_lines[k] == i);
                        }
                    }
                    assert forall|k: int, i: u32|
                        0 <= k < lines@.len() && i < 32 && #[trigger] bit_set(iter.0, i) implies #[trigger] lines@[k] < i by {
                        if k < old_lines.len() {
                            assert(bit_set(before, i));
                        } else {
                            assert(bit_set(before, i));
                            if i <= bit {
                                assert(i != bit);
                                assert(!bit_set(before, i));
                            }
                        }
                    }
                    assert forall|a: int, b: int|
                        0 <= a < b < lines@.len() implies #[trigger] lines@[a] < #[trigger] lines@[b] by {
                        if b == old_lines.len() {
                            assert(bit_set(before, bit));
                            assert(old_lines[a] < bit);
                        }
                    }
                    assert forall|k: int| 0 <= k < lines@.len() implies !bit_set(iter.0, #[trigger] lines@[k]) by {
                        if k < old_lines.len() {
                            assert(!bit_set(before, old_lines[k]));
                        }
                    }
                }
            },
        }
    }
    lines
}

/// The CPU interrupt lines to enable for `mask`: each set bit names one line, whose own enable
/// register is then written.
pub fn chip_ints_on(mask: u32) -> (lines: Vec<u32>)
    ensures
        lines_of(mask, lines@),
{
    mask_lines(mask)
}

/// The CPU interrupt lines to disable for `mask`, as [`chip_ints_on`].
pub fn chip_ints_off(mask: u32) -> (lines: Vec<u32>)
    ensures
        lines_of(mask, lines@),
{
    mask_lines(mask)
}

} // verus!

verus! {

/// Whether the Wi-Fi blob may register an interrupt handler under number `n`: numbers 0 and 1
/// both name the one Wi-Fi interrupt, which the MAC and power interrupts dispatch to; any other
/// number is a fault of the caller.
pub fn isr_number_supported(n: i32) -> (r: bool)
    ensures
        r == (n == 0 || n == 1),
{
    match n {
        0 | 1 => true,
        _ => false,
    }
}

} // verus!
