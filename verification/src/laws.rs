//! Cross-function laws of the library, stated and proved once: the
//! add/remove round trip and the bounds on a currency round trip.

use vstd::prelude::*;
use crate::models::Transaction;
use crate::controller::{has_tx, tx_index};

verus! {

/// Adding a transaction whose identifier is fresh and then removing by
/// that identifier restores the collection exactly. `add_transaction`
/// appends with a fresh identifier and leaves the limits alone, and
/// `remove_transaction` removes only the matching entry and also
/// leaves the limits alone, so the whole state returns to its
/// pre-add content.
pub proof fn lemma_add_remove_round_trip(txs: Seq<Transaction>, t: Transaction)
    requires
        forall|i: int| 0 <= i < txs.len() ==> (#[trigger] txs[i]).id != t.id,
    ensures
        has_tx(txs.push(t), t.id),
        tx_index(txs.push(t), t.id) == txs.len() as int,
        txs.push(t).remove(tx_index(txs.push(t), t.id)) == txs,
{
    let p = txs.push(t);
    assert(p[txs.len() as int] == t);
    assert(has_tx(p, t.id));
    let k = tx_index(p, t.id);
    assert(0 <= k < p.len() && p[k].id == t.id);
    if k < txs.len() as int {
        assert(p[k] == txs[k]);
        assert(false);
    }
    p.remove_ensures(k);
    assert(p.remove(k) =~= txs);
}

/// A currency round trip can only lose value, and the loss is tiny:
/// converting at the rate ratio `rf/rt` and back at `rt/rf` (each step
/// rounding down) returns a value no larger than the original, short of
/// it by less than `(rf + rt) / rf` minor units. At the table's rates
/// that is a loss of at most a few hundredths.
pub proof fn lemma_rebase_round_trip(a: int, rf: int, rt: int)
    requires
        0 <= a,
        0 < rf,
        0 < rt,
    ensures
        a * rf / rt * rt / rf <= a,
        (a - a * rf / rt * rt / rf) * rf < rf + rt,
{
    let b = a * rf / rt;
    let c = b * rt / rf;
    vstd::arithmetic::mul::lemma_mul_nonnegative(a, rf);
    vstd::arithmetic::div_mod::lemma_fundamental_div_mod(a * rf, rt);
    vstd::arithmetic::div_mod::lemma_mod_bound(a * rf, rt);
    vstd::arithmetic::div_mod::lemma_div_pos_is_pos(a * rf, rt);
    vstd::arithmetic::mul::lemma_mul_nonnegative(b, rt);
    vstd::arithmetic::div_mod::lemma_fundamental_div_mod(b * rt, rf);
    vstd::arithmetic::div_mod::lemma_mod_bound(b * rt, rf);
    let r1 = (a * rf) % rt;
    let r2 = (b * rt) % rf;
    assert(c <= a && (a - c) * rf < rf + rt) by (nonlinear_arith)
        requires
            0 < rf,
            0 < rt,
            a * rf == rt * b + r1,
            0 <= r1 < rt,
            b * rt == rf * c + r2,
            0 <= r2 < rf,
    {}
}

} // verus!
