//! Laws that relate the library's functions to one another.

use crate::address::{bytes_lt, lemma_bytes_lt_asymmetric, lemma_bytes_lt_trichotomy};
use crate::errors::AmmError;
use crate::hashing::pool_address_bytes;
use crate::v2::{amount_in_err, amount_in_num, amount_out_err, amount_out_num};
use vstd::arithmetic::div_mod::{lemma_div_is_ordered, lemma_div_multiples_vanish,
    lemma_div_pos_is_pos, lemma_fundamental_div_mod, lemma_multiply_divide_lt};
use vstd::prelude::*;

verus! {

/// The derived pool address does not depend on the order in which the two
/// tokens of a distinct pair are given.
pub proof fn lemma_pool_address_order_independent(
    factory: Seq<u8>,
    code_hash: Seq<u8>,
    a: Seq<u8>,
    b: Seq<u8>,
)
    requires
        a.len() == b.len(),
        a != b,
    ensures
        pool_address_bytes(factory, code_hash, a, b) == pool_address_bytes(factory, code_hash, b, a),
{
    if bytes_lt(a, b) {
        lemma_bytes_lt_asymmetric(a, b);
    } else if bytes_lt(b, a) {
        lemma_bytes_lt_asymmetric(b, a);
    } else {
        lemma_bytes_lt_trichotomy(a, b);
    }
}

/// A larger input never buys a smaller output: the trading formula is
/// monotone in its input amount.
pub proof fn lemma_amount_out_monotone(
    x1: int,
    x2: int,
    reserve_in: u128,
    reserve_out: u128,
    o1: int,
    o2: int,
)
    requires
        x1 <= x2,
        amount_out_err(x1, reserve_in, reserve_out) is None,
        o1 == amount_out_num(x1, reserve_in, reserve_out),
        amount_out_err(x2, reserve_in, reserve_out) is None,
        o2 == amount_out_num(x2, reserve_in, reserve_out),
    ensures
        o1 <= o2,
{
    let rin = reserve_in as int;
    let rout = reserve_out as int;
    let a1 = x1 * 997 * rout;
    let b1 = rin * 1000 + x1 * 997;
    let a2 = x2 * 997 * rout;
    let b2 = rin * 1000 + x2 * 997;
    assert(b1 >= 1000 && b2 >= 1000 && a1 >= 0 && a2 >= 0) by (nonlinear_arith)
        requires
            rin >= 1,
            rout >= 1,
            x1 >= 1,
            x2 >= 1,
            a1 == x1 * 997 * rout,
            b1 == rin * 1000 + x1 * 997,
            a2 == x2 * 997 * rout,
            b2 == rin * 1000 + x2 * 997,
    ;
    // The first quotient stays below the output reserve.
    assert(o1 < rout) by {
        assert(a1 < b1 * rout) by (nonlinear_arith)
            requires
                rin >= 1,
                rout >= 1,
                x1 >= 1,
                a1 == x1 * 997 * rout,
                b1 == rin * 1000 + x1 * 997,
        ;
        lemma_multiply_divide_lt(a1, b1, rout);
    }
    // The first quotient, scaled by the second denominator, stays below the
    // second numerator, because the quotient is below the output reserve.
    assert(o1 * b1 <= a1) by {
        lemma_fundamental_div_mod(a1, b1);
        assert((a1 / b1) * b1 == b1 * (a1 / b1)) by (nonlinear_arith);
        assert(b1 * (a1 / b1) <= a1) by (nonlinear_arith)
            requires
                a1 == b1 * (a1 / b1) + a1 % b1,
                a1 % b1 >= 0,
        ;
    }
    assert(o1 * b2 <= a2) by (nonlinear_arith)
        requires
            o1 * b1 <= a1,
            o1 <= rout,
            o1 >= 0,
            x1 <= x2,
            a1 == x1 * 997 * rout,
            b1 == rin * 1000 + x1 * 997,
            a2 == x2 * 997 * rout,
            b2 == rin * 1000 + x2 * 997,
    ;
    assert(a2 / b2 >= o1) by {
        lemma_div_is_ordered(o1 * b2, a2, b2);
        lemma_div_multiples_vanish(o1, b2);
        assert(o1 * b2 == b2 * o1) by (nonlinear_arith);
    }
}

/// The conservative rounding of the required-input formula: supplying the
/// input that `get_amount_in` asks for a desired output yields at least that
/// output from `get_amount_out`. The fee plus rounding never lets the caller
/// under-supply input relative to the desired output.
pub proof fn lemma_required_input_covers_output(
    amount_out: int,
    reserve_in: u128,
    reserve_out: u128,
    x: int,
    o: int,
)
    requires
        amount_in_err(amount_out, reserve_in, reserve_out) is None,
        x == amount_in_num(amount_out, reserve_in, reserve_out),
        o == amount_out_num(x, reserve_in, reserve_out),
    ensures
        o >= amount_out,
{
    let y = amount_out;
    let rin = reserve_in as int;
    let rout = reserve_out as int;
    let n1 = rin * y * 1000;
    let d1 = (rout - y) * 997;
    assert(d1 >= 997 && n1 >= 0) by (nonlinear_arith)
        requires
            rin >= 1,
            y >= 1,
            rout - y >= 1,
            d1 == (rout - y) * 997,
            n1 == rin * y * 1000,
    ;
    lemma_div_pos_is_pos(n1, d1);
    assert(x == n1 / d1 + 1);
    // The required input, times the post-trade reserve gap, strictly exceeds
    // the numerator that produced it.
    assert(x * d1 > n1) by {
        lemma_fundamental_div_mod(n1, d1);
        assert(x * d1 == d1 * (n1 / d1) + d1) by (nonlinear_arith)
            requires
                x == n1 / d1 + 1,
        ;
    }
    let a2 = x * 997 * rout;
    let b2 = rin * 1000 + x * 997;
    assert(a2 - y * b2 == x * d1 - n1) by (nonlinear_arith)
        requires
            a2 == x * 997 * rout,
            b2 == rin * 1000 + x * 997,
            d1 == (rout - y) * 997,
            n1 == rin * y * 1000,
    ;
    assert(a2 >= y * b2);
    assert(b2 >= 1000) by (nonlinear_arith)
        requires
            rin >= 1,
            x >= 1,
            b2 == rin * 1000 + x * 997,
    ;
    assert(o >= y) by {
        lemma_div_is_ordered(y * b2, a2, b2);
        lemma_div_multiples_vanish(y, b2);
        assert(y * b2 == b2 * y) by (nonlinear_arith);
    }
}

/// The path form of the conservative rounding law: a backward fold asks for
/// the inputs that reach a desired output; feeding its first element into
/// the forward fold over the same leg reserves ends at or above the desired
/// output at every position, in particular at the path's end. `v` and `w`
/// are the numeric values of the two folds' amounts.
pub proof fn lemma_amounts_round_trip(rs: Seq<(u128, u128)>, v: Seq<int>, w: Seq<int>)
    requires
        v.len() == rs.len() + 1,
        w.len() == rs.len() + 1,
        w[0] >= v[0],
        forall|i: int|
            0 <= i < rs.len() ==> amount_in_err(v[i + 1], (#[trigger] rs[i]).0, rs[i].1) is None
                && v[i] == amount_in_num(v[i + 1], rs[i].0, rs[i].1),
        forall|i: int|
            0 <= i < rs.len() ==> amount_out_err(w[i], (#[trigger] rs[i]).0, rs[i].1) is None
                && w[i + 1] == amount_out_num(w[i], rs[i].0, rs[i].1),
    ensures
        w[rs.len() as int] >= v[rs.len() as int],
    decreases rs.len(),
{
    if rs.len() > 0 {
        let rin = rs[0].0;
        let rout = rs[0].1;
        assert(amount_in_err(v[1], rin, rout) is None && v[0] == amount_in_num(v[1], rin, rout));
        assert(amount_out_err(w[0], rin, rout) is None && w[1] == amount_out_num(w[0], rin, rout));
        // The first required input is at least one, so the per-leg lemmas
        // apply to it; its overflow conditions follow from the larger first
        // forward amount's.
        assert(v[0] >= 1) by {
            assert((rout - v[1]) * 997 >= 997 && rin as int * v[1] * 1000 >= 0)
                by (nonlinear_arith)
                requires
                    rin >= 1,
                    v[1] >= 1,
                    rout - v[1] >= 1,
            ;
            lemma_div_pos_is_pos(rin as int * v[1] * 1000, (rout - v[1]) * 997);
        }
        assert(amount_out_err(v[0], rin, rout) is None) by {
            assert(v[0] * 997 * rout as int <= w[0] * 997 * rout as int && rin as int * 1000 + v[0]
                * 997 <= rin as int * 1000 + w[0] * 997) by (nonlinear_arith)
                requires
                    v[0] <= w[0],
                    rout >= 1,
            ;
        }
        let o = amount_out_num(v[0], rin, rout);
        lemma_required_input_covers_output(v[1], rin, rout, v[0], o);
        lemma_amount_out_monotone(v[0], w[0], rin, rout, o, w[1]);
        assert(w[1] >= v[1]);
        let rs1 = rs.skip(1);
        let v1 = v.skip(1);
        let w1 = w.skip(1);
        assert(forall|i: int| 0 <= i < rs1.len() ==> #[trigger] rs1[i] == rs[i + 1]);
        assert(forall|i: int| 0 <= i < v1.len() ==> #[trigger] v1[i] == v[i + 1]);
        assert(forall|i: int| 0 <= i < w1.len() ==> #[trigger] w1[i] == w[i + 1]);
        lemma_amounts_round_trip(rs1, v1, w1);
        assert(w1[rs1.len() as int] == w[rs.len() as int]);
        assert(v1[rs1.len() as int] == v[rs.len() as int]);
    }
}

} // verus!
