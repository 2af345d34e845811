//! Byte-sequence vocabulary shared by the rendering specifications.

use vstd::prelude::*;

verus! {

/// `n` space bytes.
pub open spec fn spaces(n: nat) -> Seq<u8> {
    Seq::new(n, |_i: int| 32u8)
}

/// `unit` repeated `n` times.
pub open spec fn repeat(unit: Seq<u8>, n: nat) -> Seq<u8>
    decreases n,
{
    if n == 0 {
        Seq::empty()
    } else {
        repeat(unit, (n - 1) as nat) + unit
    }
}

/// The decimal digits of `v`, most significant first, without leading zeros.
pub open spec fn decimal(v: nat) -> Seq<u8>
    decreases v,
{
    if v < 10 {
        seq![(48 + v) as u8]
    } else {
        decimal(v / 10) + seq![(48 + v % 10) as u8]
    }
}

/// Repetitions concatenate.
pub proof fn lemma_repeat_add(unit: Seq<u8>, a: nat, b: nat)
    ensures
        repeat(unit, a) + repeat(unit, b) == repeat(unit, a + b),
    decreases b,
{
    if b == 0 {
        assert(repeat(unit, a) + repeat(unit, 0) =~= repeat(unit, a));
    } else {
        lemma_repeat_add(unit, a, (b - 1) as nat);
        assert(repeat(unit, a) + (repeat(unit, (b - 1) as nat) + unit) =~= (repeat(unit, a)
            + repeat(unit, (b - 1) as nat)) + unit);
    }
}

/// A repetition has `n` times the unit's length.
pub proof fn lemma_repeat_len(unit: Seq<u8>, n: nat)
    ensures
        repeat(unit, n).len() == n * unit.len(),
    decreases n,
{
    if n > 0 {
        lemma_repeat_len(unit, (n - 1) as nat);
        assert((n - 1) * unit.len() + unit.len() == n * unit.len()) by (nonlinear_arith)
            requires n > 0;
    } else {
        assert(n * unit.len() == 0) by (nonlinear_arith)
            requires n == 0;
    }
}

/// A prefix of whole units of a repetition is a shorter repetition.
pub proof fn lemma_repeat_take(unit: Seq<u8>, n: nat, m: nat)
    requires
        m <= n,
    ensures
        repeat(unit, n).take((m * unit.len()) as int) == repeat(unit, m),
{
    lemma_repeat_add(unit, m, (n - m) as nat);
    lemma_repeat_len(unit, m);
    assert(repeat(unit, n).take((m * unit.len()) as int) =~= repeat(unit, m));
}

/// Spaces are a repetition of a single space.
pub proof fn lemma_spaces_repeat(n: nat)
    ensures
        spaces(n) == repeat(seq![32u8], n),
    decreases n,
{
    if n > 0 {
        lemma_spaces_repeat((n - 1) as nat);
        assert(spaces(n) =~= spaces((n - 1) as nat) + seq![32u8]);
    } else {
        assert(spaces(0) =~= Seq::<u8>::empty());
    }
}

/// A decimal representation is between one and twenty digits long for a `u64`.
pub proof fn lemma_decimal_len(v: nat)
    ensures
        decimal(v).len() >= 1,
        v < 10 ==> decimal(v).len() == 1,
        v >= 10 ==> decimal(v).len() == decimal(v / 10).len() + 1,
    decreases v,
{
    if v >= 10 {
        lemma_decimal_len(v / 10);
    }
}

} // verus!

verus! {

/// Appends `bytes` to `out`.
pub fn append_bytes(out: &mut Vec<u8>, bytes: &[u8])
    ensures
        final(out)@ == old(out)@ + bytes@,
{
    let ghost start = out@;
    out.extend_from_slice(bytes);
    assert forall|i: int| 0 <= i < out@.len() implies out@[i] == (start + bytes@)[i] by {
        if i >= start.len() {
            assert(cloned::<u8>(bytes@[i - start.len()], out@[i]));
        }
    }
    assert(out@ =~= start + bytes@);
}

} // verus!
