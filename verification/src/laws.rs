//! Engine-wide laws, stated over the spec functions the contracts use and
//! proved once and for all.

use vstd::prelude::*;

use crate::sen::dec_wrap;
use crate::sen::encode;
use crate::sen::inc_wrap;
use crate::sen::op_bit;
use crate::sen::op_token;
use crate::sen::pow4;
use crate::sen::row_apply;
use crate::sen::row_tokens;
use crate::sen::row_wf;
use crate::sen::zero_row;
use crate::sen::Sen;
use crate::sen::SenOp;
use crate::status::PuzzleStatus;
use crate::status::RoundState;

verus! {

/// `Off` always finalizes the round as a reset, whatever the row then
/// encodes to: the row, the counter and the history return to their initial
/// values, the round stays playable, and no flag is earned by the step.
pub proof fn lemma_off_always_resets(pre: PuzzleStatus, sel: Seq<bool>, post: PuzzleStatus)
    requires
        pre.sen_op@[pre.sen_op.sen_index as int] == SenOp::Off,
        PuzzleStatus::step_ok(pre, sel, post),
    ensures
        post.state == RoundState::InProgress,
        post.sen@ == zero_row(pre.sen@.len()),
        post.ops_count == 0,
        post.is_clear == pre.is_clear,
        post.is_using_onsen == pre.is_using_onsen,
        post.is_lower_border == pre.is_lower_border,
{
}

/// Encoding concatenates two-bit fields, most-significant cell first: the
/// encoding of two rows laid end to end is the first row's encoding shifted
/// past the second row's fields, plus the second row's encoding.
pub proof fn lemma_encode_concat(s1: Seq<Sen>, s2: Seq<Sen>)
    ensures
        encode(s1 + s2) == encode(s1) * pow4(s2.len()) + encode(s2),
    decreases s2.len(),
{
    if s2.len() == 0 {
        assert(s1 + s2 =~= s1);
        assert(encode(s2) == 0);
        assert(pow4(s2.len()) == 1);
    } else {
        lemma_encode_concat(s1, s2.drop_last());
        assert((s1 + s2).drop_last() =~= s1 + s2.drop_last());
        assert((s1 + s2).last() == s2.last());
        let a = encode(s1);
        let m = pow4((s2.len() - 1) as nat);
        let e = encode(s2.drop_last());
        let x = s2.last().bit;
        assert(encode(s1 + s2) == encode((s1 + s2).drop_last()) * 4 + x);
        assert(encode(s1 + s2.drop_last()) == a * m + e);
        assert((a * m + e) * 4 + x == a * (4 * m) + (e * 4 + x)) by (nonlinear_arith);
        assert(pow4(s2.len()) == 4 * m);
        assert(a * pow4(s2.len()) == a * (4 * m));
        assert(encode(s2) == e * 4 + x);
    }
}

/// A single cell encodes to its own value, so `lemma_encode_concat` pins
/// the encoding of any row built cell by cell.
pub proof fn lemma_encode_singleton(s: Sen)
    ensures
        encode(seq![s]) == s.bit,
{
    reveal_with_fuel(encode, 2);
    assert(seq![s].drop_last() =~= Seq::<Sen>::empty());
    assert(encode(Seq::<Sen>::empty()) == 0);
}

/// Applying `Off` with a selector that picks every cell zeroes the whole
/// row, whatever it held before; `On` sets every cell to three.
pub proof fn lemma_off_on_total(row: Seq<Sen>, sel: Seq<bool>)
    requires
        forall|i: int| 0 <= i < row.len() ==> sel[i],
    ensures
        row_apply(SenOp::Off, row, sel) == zero_row(row.len()),
        forall|i: int|
            0 <= i < row.len() ==> (#[trigger] row_apply(SenOp::On, row, sel)[i]).bit == 3,
{
    assert(row_apply(SenOp::Off, row, sel) =~= zero_row(row.len()));
}

/// Applying `Not` twice with the same selector restores the original row.
pub proof fn lemma_not_involution(row: Seq<Sen>, sel: Seq<bool>)
    requires
        row_wf(row),
    ensures
        row_apply(SenOp::Not, row_apply(SenOp::Not, row, sel), sel) == row,
{
    let once = row_apply(SenOp::Not, row, sel);
    let twice = row_apply(SenOp::Not, once, sel);
    assert forall|i: int| 0 <= i < row.len() implies twice[i] == row[i] by {
        assert(row[i].wf());
        let b = row[i].bit;
        if sel[i] {
            assert(b & 3 == b) by (bit_vector)
                requires
                    b < 4,
            ;
            let nb = (3 - b) as u8;
            assert(nb & 3 == nb) by (bit_vector)
                requires
                    nb < 4,
            ;
        }
    }
    assert(twice =~= row);
}

/// A selector that picks no cell produces no token.
pub proof fn lemma_row_tokens_none(op: SenOp, row: Seq<Sen>, sel: Seq<bool>)
    requires
        forall|j: int| 0 <= j < row.len() ==> !sel[j],
    ensures
        row_tokens(op, row, sel) == Seq::<SenOp>::empty(),
    decreases row.len(),
{
    if row.len() > 0 {
        lemma_row_tokens_none(op, row.drop_last(), sel);
        assert(row_tokens(op, row, sel) =~= Seq::<SenOp>::empty());
    }
}

/// A token-producing operator applied under a selector that picks exactly
/// one cell produces exactly that cell's token.
pub proof fn lemma_row_tokens_single(op: SenOp, row: Seq<Sen>, sel: Seq<bool>, k: int)
    requires
        0 <= k < row.len(),
        sel[k],
        forall|j: int| 0 <= j < row.len() && j != k ==> !sel[j],
        op == SenOp::Or || op == SenOp::And,
    ensures
        row_tokens(op, row, sel) == seq![op_token(op, row[k].bit)->Some_0],
    decreases row.len(),
{
    if k == row.len() - 1 {
        lemma_row_tokens_none(op, row.drop_last(), sel);
        assert(row_tokens(op, row, sel) =~= seq![op_token(op, row[k].bit)->Some_0]);
    } else {
        lemma_row_tokens_single(op, row.drop_last(), sel, k);
        assert(row.drop_last()[k] == row[k]);
        assert(row_tokens(op, row, sel) =~= seq![op_token(op, row[k].bit)->Some_0]);
    }
}

/// The two-step `Or` commit: applied to a single selected cell holding `v`,
/// `Or` leaves the whole row unchanged and yields exactly one pending token
/// carrying `v | 0b10`; applying that token back to the same cell commits
/// the carried value and yields no further token.
pub proof fn lemma_or_two_step(row: Seq<Sen>, sel: Seq<bool>, k: int)
    requires
        row_wf(row),
        0 <= k < row.len(),
        sel[k],
        forall|j: int| 0 <= j < row.len() && j != k ==> !sel[j],
    ensures
        row_apply(SenOp::Or, row, sel) == row,
        row_tokens(SenOp::Or, row, sel) == seq![SenOp::OrO(Sen { bit: row[k].bit | 2 })],
        row_apply(SenOp::OrO(Sen { bit: row[k].bit | 2 }), row, sel) == row.update(
            k,
            Sen { bit: row[k].bit | 2 },
        ),
        row_tokens(SenOp::OrO(Sen { bit: row[k].bit | 2 }), row, sel) == Seq::<SenOp>::empty(),
{
    assert(row_apply(SenOp::Or, row, sel) =~= row);
    lemma_row_tokens_single(SenOp::Or, row, sel, k);
    let token = SenOp::OrO(Sen { bit: row[k].bit | 2 });
    assert(row_apply(token, row, sel) =~= row.update(k, Sen { bit: row[k].bit | 2 }));
    lemma_row_tokens_none_of_pending(token, row, sel);
}

/// The two-step `And` commit, symmetric to `lemma_or_two_step`: the staged
/// token carries `v & 0b10`.
pub proof fn lemma_and_two_step(row: Seq<Sen>, sel: Seq<bool>, k: int)
    requires
        row_wf(row),
        0 <= k < row.len(),
        sel[k],
        forall|j: int| 0 <= j < row.len() && j != k ==> !sel[j],
    ensures
        row_apply(SenOp::And, row, sel) == row,
        row_tokens(SenOp::And, row, sel) == seq![SenOp::AndO(Sen { bit: row[k].bit & 2 })],
        row_apply(SenOp::AndO(Sen { bit: row[k].bit & 2 }), row, sel) == row.update(
            k,
            Sen { bit: row[k].bit & 2 },
        ),
        row_tokens(SenOp::AndO(Sen { bit: row[k].bit & 2 }), row, sel) == Seq::<SenOp>::empty(),
{
    assert(row_apply(SenOp::And, row, sel) =~= row);
    lemma_row_tokens_single(SenOp::And, row, sel, k);
    let token = SenOp::AndO(Sen { bit: row[k].bit & 2 });
    assert(row_apply(token, row, sel) =~= row.update(k, Sen { bit: row[k].bit & 2 }));
    lemma_row_tokens_none_of_pending(token, row, sel);
}

/// An operator that produces no token per cell produces no tokens at all,
/// whatever the selector picks.
pub proof fn lemma_row_tokens_none_of_pending(op: SenOp, row: Seq<Sen>, sel: Seq<bool>)
    requires
        forall|b: u8| op_token(op, b) is None,
    ensures
        row_tokens(op, row, sel) == Seq::<SenOp>::empty(),
    decreases row.len(),
{
    if row.len() > 0 {
        lemma_row_tokens_none_of_pending(op, row.drop_last(), sel);
        assert(row_tokens(op, row, sel) =~= Seq::<SenOp>::empty());
    }
}

/// The cursor position after `k` forward rotations.
pub open spec fn iter_next(c: int, len: int, k: nat) -> int
    decreases k,
{
    if k == 0 {
        c
    } else {
        inc_wrap(iter_next(c, len, (k - 1) as nat), len)
    }
}

/// The cursor position after `k` backward rotations.
pub open spec fn iter_prev(c: int, len: int, k: nat) -> int
    decreases k,
{
    if k == 0 {
        c
    } else {
        dec_wrap(iter_prev(c, len, (k - 1) as nat), len)
    }
}

/// Taking a remainder first does not change a sum's remainder.
proof fn lemma_mod_then_add(x: int, d: int, m: int)
    requires
        0 < m,
    ensures
        (x % m + d) % m == (x + d) % m,
{
    vstd::arithmetic::div_mod::lemma_fundamental_div_mod(x, m);
    vstd::arithmetic::div_mod::lemma_mod_multiples_vanish(x / m, x % m + d, m);
}

/// After `k` forward rotations the cursor stands at `(c + k) mod len`.
pub proof fn lemma_iter_next_closed(c: int, len: int, k: nat)
    requires
        0 <= c < len,
    ensures
        iter_next(c, len, k) == (c + k) % len,
    decreases k,
{
    if k == 0 {
        vstd::arithmetic::div_mod::lemma_small_mod(c as nat, len as nat);
    } else {
        lemma_iter_next_closed(c, len, (k - 1) as nat);
        lemma_mod_then_add(c + k - 1, 1, len);
    }
}

/// After `k` backward rotations the cursor stands at
/// `(c + k * (len - 1)) mod len`.
pub proof fn lemma_iter_prev_closed(c: int, len: int, k: nat)
    requires
        0 <= c < len,
    ensures
        iter_prev(c, len, k) == (c + k * (len - 1)) % len,
    decreases k,
{
    if k == 0 {
        vstd::arithmetic::div_mod::lemma_small_mod(c as nat, len as nat);
    } else {
        let j: nat = (k - 1) as nat;
        lemma_iter_prev_closed(c, len, j);
        let x = c + j * (len - 1);
        assert(iter_prev(c, len, k) == (x % len + (len - 1)) % len);
        lemma_mod_then_add(x, len - 1, len);
        assert(j * (len - 1) + (len - 1) == k * (len - 1)) by (nonlinear_arith)
            requires
                j == k - 1,
        ;
    }
}

/// Cursor circularity: in a queue of length `len`, rotating forward `len`
/// times returns the cursor to where it started, and so does rotating
/// backward `len` times.
pub proof fn lemma_rotate_cycle(c: int, len: int)
    requires
        0 <= c < len,
    ensures
        iter_next(c, len, len as nat) == c,
        iter_prev(c, len, len as nat) == c,
{
    lemma_iter_next_closed(c, len, len as nat);
    vstd::arithmetic::div_mod::lemma_mod_multiples_vanish(1, c, len);
    vstd::arithmetic::div_mod::lemma_small_mod(c as nat, len as nat);
    lemma_iter_prev_closed(c, len, len as nat);
    assert(c + len * (len - 1) == len * (len - 1) + c) by (nonlinear_arith);
    vstd::arithmetic::div_mod::lemma_mod_multiples_vanish(len - 1, c, len);
}

} // verus!
