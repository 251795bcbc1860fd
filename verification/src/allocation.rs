//! The shared cheapest-first allocation algorithm.
//!
//! Promotions discount the lowest-priced qualifying units first. A purchase
//! line is reduced to a pair `(unit price in cents, quantity)`; a batch of
//! lines is modelled as a multiset of such pairs, so that every stated value
//! is independent of the order in which lines happen to be listed. The core
//! quantity is [`consume_value`]: the money value of consuming `budget` units
//! of a batch, cheapest units first.

use vstd::prelude::*;
use vstd::multiset::Multiset;
use vstd::arithmetic::mul::*;

verus! {

/// A purchase line reduced to what allocation needs: unit price in cents and
/// quantity bought.
pub type Line = (u64, u32);

/// `x` is a line of `ms` with minimal unit price.
pub open spec fn is_cheapest(ms: Multiset<Line>, x: Line) -> bool {
    ms.contains(x) && (forall|y: Line| ms.contains(y) ==> x.0 <= y.0)
}

/// A canonical minimal-price line of `ms`.
pub open spec fn pick_cheapest(ms: Multiset<Line>) -> Line {
    choose|x: Line| is_cheapest(ms, x)
}

/// Removing one contained line shrinks a multiset by exactly one.
pub proof fn lemma_remove_len(ms: Multiset<Line>, x: Line)
    requires
        ms.contains(x),
    ensures
        ms.remove(x).len() == ms.len() - 1,
        forall|y: Line| y != x ==> ms.remove(x).count(y) == ms.count(y),
        ms.remove(x).count(x) == ms.count(x) - 1,
{
    broadcast use vstd::multiset::group_multiset_axioms;

    assert(Multiset::singleton(x).subset_of(ms));
}

/// A non-empty batch has a minimal-price line.
pub proof fn lemma_pick_cheapest(ms: Multiset<Line>)
    requires
        ms.len() > 0,
    ensures
        is_cheapest(ms, pick_cheapest(ms)),
    decreases ms.len(),
{
    broadcast use vstd::multiset::group_multiset_axioms;

    let v = ms.choose();
    assert(ms.count(v) > 0);
    let rest = ms.remove(v);
    lemma_remove_len(ms, v);
    if rest.len() == 0 {
        // Every line of `ms` is `v` itself.
        assert forall|y: Line| ms.contains(y) implies v.0 <= y.0 by {
            if y != v {
                assert(rest.count(y) == ms.count(y));
            }
        }
        assert(is_cheapest(ms, v));
    } else {
        lemma_pick_cheapest(rest);
        let w = pick_cheapest(rest);
        if v.0 <= w.0 {
            assert forall|y: Line| ms.contains(y) implies v.0 <= y.0 by {
                if y != v {
                    assert(rest.count(y) == ms.count(y));
                    assert(rest.contains(y));
                }
            }
            assert(is_cheapest(ms, v));
        } else {
            assert(rest.count(w) > 0);
            assert(ms.contains(w));
            assert forall|y: Line| ms.contains(y) implies w.0 <= y.0 by {
                if y != v {
                    assert(rest.count(y) == ms.count(y));
                    assert(rest.contains(y));
                }
            }
            assert(is_cheapest(ms, w));
        }
    }
}

/// Total money value of a batch: the sum of price times quantity over all
/// lines, counted with multiplicity.
pub open spec fn lines_total(ms: Multiset<Line>) -> int
    decreases ms.len(),
    when ms.len() >= 0
    via lines_total_decreases
{
    if ms.len() == 0 {
        0
    } else {
        let v = ms.choose();
        v.0 * v.1 + lines_total(ms.remove(v))
    }
}

#[via_fn]
proof fn lines_total_decreases(ms: Multiset<Line>) {
    broadcast use vstd::multiset::group_multiset_axioms;

    if ms.len() != 0 {
        lemma_remove_len(ms, ms.choose());
    }
}

/// Total unit count of a batch: the sum of quantities over all lines.
pub open spec fn lines_count(ms: Multiset<Line>) -> int
    decreases ms.len(),
    when ms.len() >= 0
    via lines_count_decreases
{
    if ms.len() == 0 {
        0
    } else {
        let v = ms.choose();
        v.1 + lines_count(ms.remove(v))
    }
}

#[via_fn]
proof fn lines_count_decreases(ms: Multiset<Line>) {
    broadcast use vstd::multiset::group_multiset_axioms;

    if ms.len() != 0 {
        lemma_remove_len(ms, ms.choose());
    }
}

/// The total does not depend on which contained line is split off first.
pub proof fn lemma_lines_total_remove(ms: Multiset<Line>, x: Line)
    requires
        ms.contains(x),
    ensures
        lines_total(ms) == x.0 * x.1 + lines_total(ms.remove(x)),
    decreases ms.len(),
{
    broadcast use vstd::multiset::group_multiset_axioms;

    let v = ms.choose();
    assert(ms.count(v) > 0);
    lemma_remove_len(ms, v);
    if v == x {
    } else {
        lemma_remove_len(ms, x);
        assert(ms.remove(v).contains(x));
        assert(ms.remove(x).contains(v));
        lemma_lines_total_remove(ms.remove(v), x);
        lemma_lines_total_remove(ms.remove(x), v);
        assert(ms.remove(v).remove(x) =~= ms.remove(x).remove(v));
    }
}

/// The count does not depend on which contained line is split off first.
pub proof fn lemma_lines_count_remove(ms: Multiset<Line>, x: Line)
    requires
        ms.contains(x),
    ensures
        lines_count(ms) == x.1 + lines_count(ms.remove(x)),
    decreases ms.len(),
{
    broadcast use vstd::multiset::group_multiset_axioms;

    let v = ms.choose();
    assert(ms.count(v) > 0);
    lemma_remove_len(ms, v);
    if v == x {
    } else {
        lemma_remove_len(ms, x);
        assert(ms.remove(v).contains(x));
        assert(ms.remove(x).contains(v));
        lemma_lines_count_remove(ms.remove(v), x);
        lemma_lines_count_remove(ms.remove(x), v);
        assert(ms.remove(v).remove(x) =~= ms.remove(x).remove(v));
    }
}

/// Totals and counts are non-negative.
pub proof fn lemma_lines_total_nonneg(ms: Multiset<Line>)
    ensures
        lines_total(ms) >= 0,
        lines_count(ms) >= 0,
    decreases ms.len(),
{
    broadcast use vstd::multiset::group_multiset_axioms;

    if ms.len() != 0 {
        let v = ms.choose();
        lemma_remove_len(ms, v);
        lemma_lines_total_nonneg(ms.remove(v));
        lemma_mul_nonnegative(v.0 as int, v.1 as int);
    }
}

/// The money value of consuming `budget` units of the batch, cheapest units
/// first: whole cheapest lines are consumed while they fit the remaining
/// budget, then the last line is consumed partially.
pub open spec fn consume_value(ms: Multiset<Line>, budget: int) -> int
    decreases ms.len(),
    when ms.len() >= 0
    via consume_value_decreases
{
    if ms.len() == 0 || budget <= 0 {
        0
    } else {
        let v = pick_cheapest(ms);
        if budget >= v.1 {
            v.0 * v.1 + consume_value(ms.remove(v), budget - v.1)
        } else {
            v.0 * budget
        }
    }
}

#[via_fn]
proof fn consume_value_decreases(ms: Multiset<Line>, budget: int) {
    broadcast use vstd::multiset::group_multiset_axioms;

    if !(ms.len() == 0 || budget <= 0) {
        lemma_pick_cheapest(ms);
        lemma_remove_len(ms, pick_cheapest(ms));
    }
}

/// Consuming cheapest-first may start with any minimal-price line: the value
/// does not depend on which one is taken first.
pub proof fn lemma_consume_step(ms: Multiset<Line>, budget: int, a: Line)
    requires
        is_cheapest(ms, a),
    ensures
        consume_value(ms, budget) == if budget <= 0 {
            0
        } else if budget >= a.1 {
            a.0 * a.1 + consume_value(ms.remove(a), budget - a.1)
        } else {
            a.0 * budget
        },
    decreases ms.len(),
{
    broadcast use vstd::multiset::group_multiset_axioms;

    assert(ms.len() > 0);
    lemma_pick_cheapest(ms);
    let b = pick_cheapest(ms);
    let p = a.0 as int;
    let qa = a.1 as int;
    let qb = b.1 as int;
    assert(a.0 == b.0);
    lemma_remove_len(ms, a);
    lemma_remove_len(ms, b);
    if budget <= 0 || a == b {
        // The definition already takes exactly this step.
    } else {
        assert(ms.remove(b).contains(a));
        assert(ms.remove(a).contains(b));
        assert(is_cheapest(ms.remove(b), a)) by {
            assert forall|y: Line| ms.remove(b).contains(y) implies a.0 <= y.0 by {
                assert(ms.contains(y));
            }
        }
        assert(is_cheapest(ms.remove(a), b)) by {
            assert forall|y: Line| ms.remove(a).contains(y) implies b.0 <= y.0 by {
                assert(ms.contains(y));
            }
        }
        assert(ms.remove(b).remove(a) =~= ms.remove(a).remove(b));
        lemma_mul_is_distributive_sub(p, budget, qb);
        lemma_mul_is_distributive_sub(p, budget, qa);
        if budget >= qb {
            lemma_consume_step(ms.remove(b), budget - qb, a);
        }
        if budget >= qa {
            lemma_consume_step(ms.remove(a), budget - qa, b);
        }
        if budget >= qa + qb {
            // Both whole lines are consumed, in either order.
        } else if budget >= qb && budget >= qa {
            // Each order consumes one whole line and part of the other:
            // both give p * budget.
        } else if budget >= qb {
            // budget < qa: value is p * budget either way.
        } else if budget >= qa {
            // budget < qb: value is p * budget either way.
        } else {
            // Only a partial line either way.
        }
    }
}

/// Consumed value is never negative.
pub proof fn lemma_consume_nonneg(ms: Multiset<Line>, budget: int)
    ensures
        consume_value(ms, budget) >= 0,
    decreases ms.len(),
{
    broadcast use vstd::multiset::group_multiset_axioms;

    if !(ms.len() == 0 || budget <= 0) {
        let v = pick_cheapest(ms);
        lemma_pick_cheapest(ms);
        lemma_remove_len(ms, v);
        lemma_consume_nonneg(ms.remove(v), budget - v.1);
        lemma_mul_nonnegative(v.0 as int, v.1 as int);
        lemma_mul_nonnegative(v.0 as int, budget);
    }
}

/// Consuming part of a batch is worth at most the whole batch.
pub proof fn lemma_consume_le_total(ms: Multiset<Line>, budget: int)
    ensures
        consume_value(ms, budget) <= lines_total(ms),
    decreases ms.len(),
{
    broadcast use vstd::multiset::group_multiset_axioms;

    lemma_lines_total_nonneg(ms);
    if !(ms.len() == 0 || budget <= 0) {
        let v = pick_cheapest(ms);
        lemma_pick_cheapest(ms);
        lemma_remove_len(ms, v);
        lemma_lines_total_remove(ms, v);
        lemma_consume_le_total(ms.remove(v), budget - v.1);
        lemma_lines_total_nonneg(ms.remove(v));
        if budget < v.1 {
            lemma_mul_inequality(budget, v.1 as int, v.0 as int);
            lemma_mul_is_commutative(budget, v.0 as int);
            lemma_mul_is_commutative(v.1 as int, v.0 as int);
        }
    }
}

/// A batch with no units has no value.
pub proof fn lemma_zero_count_zero_total(ms: Multiset<Line>)
    requires
        lines_count(ms) == 0,
    ensures
        lines_total(ms) == 0,
    decreases ms.len(),
{
    broadcast use vstd::multiset::group_multiset_axioms;

    if ms.len() != 0 {
        let v = ms.choose();
        lemma_remove_len(ms, v);
        lemma_lines_total_nonneg(ms.remove(v));
        lemma_zero_count_zero_total(ms.remove(v));
        lemma_mul_by_zero_is_zero(v.0 as int);
    }
}

/// A budget covering the whole unit count consumes the whole batch value.
pub proof fn lemma_consume_all(ms: Multiset<Line>, budget: int)
    requires
        budget >= lines_count(ms),
    ensures
        consume_value(ms, budget) == lines_total(ms),
    decreases ms.len(),
{
    broadcast use vstd::multiset::group_multiset_axioms;

    if ms.len() == 0 {
    } else if budget <= 0 {
        lemma_lines_total_nonneg(ms);
        lemma_zero_count_zero_total(ms);
    } else {
        let v = pick_cheapest(ms);
        lemma_pick_cheapest(ms);
        lemma_remove_len(ms, v);
        lemma_lines_count_remove(ms, v);
        lemma_lines_total_remove(ms, v);
        lemma_lines_total_nonneg(ms.remove(v));
        assert(budget >= v.1);
        lemma_consume_all(ms.remove(v), budget - v.1);
    }
}

/// When a batch holds a line of price at most `p` with at least `e` units,
/// consuming `e` units cheapest-first costs at most `e * p`.
pub proof fn lemma_consume_units_bound(ms: Multiset<Line>, e: int, x: Line)
    requires
        ms.contains(x),
        0 <= e <= x.1,
    ensures
        consume_value(ms, e) <= e * x.0,
    decreases ms.len(),
{
    broadcast use vstd::multiset::group_multiset_axioms;

    lemma_mul_nonnegative(e, x.0 as int);
    if e > 0 {
        assert(ms.len() > 0);
        let v = pick_cheapest(ms);
        lemma_pick_cheapest(ms);
        lemma_remove_len(ms, v);
        assert(v.0 <= x.0);
        if e < v.1 {
            lemma_mul_inequality(v.0 as int, x.0 as int, e);
            lemma_mul_is_commutative(v.0 as int, e);
            lemma_mul_is_commutative(x.0 as int, e);
        } else if e == v.1 {
            // consume takes the whole line v and then nothing more.
            lemma_consume_nonneg(ms.remove(v), 0);
            lemma_mul_inequality(v.0 as int, x.0 as int, e);
            lemma_mul_is_commutative(v.0 as int, e);
            lemma_mul_is_commutative(x.0 as int, e);
        } else {
            // e > v.1, so v != x (else e <= x.1 == v.1), and the rest still
            // holds x with e - v.1 <= x.1 units wanted.
            assert(v != x);
            assert(ms.remove(v).contains(x));
            lemma_consume_units_bound(ms.remove(v), e - v.1, x);
            lemma_mul_inequality(v.0 as int, x.0 as int, v.1 as int);
            lemma_mul_is_commutative(v.0 as int, v.1 as int);
            lemma_mul_is_commutative(x.0 as int, v.1 as int);
            lemma_mul_is_distributive_sub_other_way(x.0 as int, e, v.1 as int);
        }
    }
}

/// Growing one line's quantity by `d` while also granting `d` more units of
/// budget never shrinks the consumed value, and adds at most `d` units at
/// that line's price.
pub proof fn lemma_consume_grow(ms: Multiset<Line>, a: Line, d: u32, k: int)
    requires
        ms.contains(a),
        a.1 + d <= u32::MAX,
    ensures
        consume_value(ms.remove(a).insert((a.0, (a.1 + d) as u32)), k + d) >= consume_value(
            ms,
            k,
        ),
        consume_value(ms.remove(a).insert((a.0, (a.1 + d) as u32)), k + d) <= consume_value(
            ms,
            k,
        ) + d * a.0,
    decreases ms.len(),
{
    broadcast use vstd::multiset::group_multiset_axioms;

    let p = a.0 as int;
    let a2 = (a.0, (a.1 + d) as u32);
    let ms2 = ms.remove(a).insert(a2);
    lemma_remove_len(ms, a);
    assert(ms2.contains(a2));
    lemma_mul_nonnegative(d as int, p);
    lemma_consume_nonneg(ms, k);
    lemma_consume_nonneg(ms2, k + d);
    if k + d <= 0 {
        // Nothing is consumed on either side.
    } else if k <= 0 {
        // At most d units are consumed, all at price at most p, because line
        // a2 alone offers d cheaper-or-equal units.
        lemma_consume_units_bound(ms2, k + d, a2);
        lemma_mul_inequality(k + d, d as int, p);
        lemma_mul_is_commutative(k + d, p);
        lemma_mul_is_commutative(d as int, p);
    } else {
        assert(ms.len() > 0);
        lemma_pick_cheapest(ms);
        let b = pick_cheapest(ms);
        let pb = b.0 as int;
        let qb = b.1 as int;
        if b == a {
            assert(is_cheapest(ms2, a2)) by {
                assert forall|y: Line| ms2.contains(y) implies a2.0 <= y.0 by {
                    if y != a2 {
                        assert(ms.contains(y));
                    }
                }
            }
            lemma_consume_step(ms2, k + d, a2);
            assert(ms2.remove(a2) =~= ms.remove(a));
            if k >= a.1 {
                lemma_mul_is_distributive_add_other_way(p, a.1 as int, d as int);
            } else {
                lemma_mul_is_distributive_add_other_way(p, k, d as int);
            }
        } else {
            assert(ms.remove(a).contains(b));
            assert(ms2.contains(b));
            assert(is_cheapest(ms2, b)) by {
                assert forall|y: Line| ms2.contains(y) implies b.0 <= y.0 by {
                    if y != a2 {
                        assert(ms.contains(y));
                    }
                }
            }
            lemma_consume_step(ms2, k + d, b);
            assert(pb <= p);
            if k >= qb {
                let rest = ms.remove(b);
                assert(rest.contains(a));
                lemma_remove_len(rest, a);
                assert(ms2.remove(b) =~= rest.remove(a).insert(a2));
                lemma_consume_grow(rest, a, d, k - qb);
            } else {
                // Budget k stops inside line b on the small side.
                if k + d < qb {
                    lemma_mul_is_distributive_add(pb, k, d as int);
                    lemma_mul_inequality(pb, p, d as int);
                    lemma_mul_is_commutative(pb, d as int);
                    lemma_mul_is_commutative(p, d as int);
                } else {
                    let e = k + d - qb;
                    assert(0 <= e < d);
                    assert(ms2.remove(b).contains(a2)) by {
                        lemma_remove_len(ms2, b);
                    }
                    lemma_consume_units_bound(ms2.remove(b), e, a2);
                    lemma_consume_nonneg(ms2.remove(b), e);
                    // pb * qb + e * p <= pb * k + d * p
                    // because pb * (qb - k) <= (d - e) * p == (qb - k) * p.
                    lemma_mul_inequality(pb, p, qb - k);
                    lemma_mul_is_commutative(pb, qb - k);
                    lemma_mul_is_commutative(p, qb - k);
                    lemma_mul_is_distributive_sub(pb, qb, k);
                    lemma_mul_is_distributive_sub_other_way(p, d as int, e);
                    lemma_mul_is_commutative(d as int, p);
                    lemma_mul_is_commutative(e, p);
                    // Lower bound: pb * qb >= pb * k and the rest is >= 0.
                    lemma_mul_inequality(k, qb, pb);
                    lemma_mul_is_commutative(k, pb);
                    lemma_mul_is_commutative(qb, pb);
                }
            }
        }
    }
}

/// Sum of price times quantity over a listing of lines.
pub open spec fn seq_lines_total(s: Seq<Line>) -> int
    decreases s.len(),
{
    if s.len() == 0 {
        0
    } else {
        seq_lines_total(s.drop_last()) + s.last().0 * s.last().1
    }
}

/// Sum of quantities over a listing of lines.
pub open spec fn seq_lines_count(s: Seq<Line>) -> int
    decreases s.len(),
{
    if s.len() == 0 {
        0
    } else {
        seq_lines_count(s.drop_last()) + s.last().1
    }
}

/// Splitting one inserted line off a batch total.
pub proof fn lemma_lines_total_insert(ms: Multiset<Line>, x: Line)
    ensures
        lines_total(ms.insert(x)) == lines_total(ms) + x.0 * x.1,
        lines_count(ms.insert(x)) == lines_count(ms) + x.1,
{
    broadcast use vstd::multiset::group_multiset_axioms;

    lemma_lines_total_remove(ms.insert(x), x);
    lemma_lines_count_remove(ms.insert(x), x);
    assert(ms.insert(x).remove(x) =~= ms);
}

/// A listing's sums equal its batch's sums: the order of lines is irrelevant
/// to totals.
pub proof fn lemma_seq_lines_sums(s: Seq<Line>)
    ensures
        seq_lines_total(s) == lines_total(s.to_multiset()),
        seq_lines_count(s) == lines_count(s.to_multiset()),
    decreases s.len(),
{
    broadcast use vstd::seq_lib::group_to_multiset_ensures;

    if s.len() == 0 {
        assert(s.to_multiset().len() == 0);
    } else {
        lemma_seq_lines_sums(s.drop_last());
        assert(s =~= s.drop_last().push(s.last()));
        assert(s.to_multiset() =~= s.drop_last().to_multiset().insert(s.last()));
        lemma_lines_total_insert(s.drop_last().to_multiset(), s.last());
    }
}

/// Two listings of the same lines have the same totals, whatever their order.
pub proof fn lemma_total_permutation(s1: Seq<Line>, s2: Seq<Line>)
    requires
        s1.to_multiset() == s2.to_multiset(),
    ensures
        seq_lines_total(s1) == seq_lines_total(s2),
        seq_lines_count(s1) == seq_lines_count(s2),
{
    lemma_seq_lines_sums(s1);
    lemma_seq_lines_sums(s2);
}

/// Sums over listings are non-negative.
pub proof fn lemma_seq_lines_nonneg(s: Seq<Line>)
    ensures
        seq_lines_total(s) >= 0,
        seq_lines_count(s) >= 0,
    decreases s.len(),
{
    if s.len() > 0 {
        lemma_seq_lines_nonneg(s.drop_last());
        lemma_mul_nonnegative(s.last().0 as int, s.last().1 as int);
    }
}

/// A prefix of a listing sums to at most the whole listing.
pub proof fn lemma_seq_prefix_le(s: Seq<Line>, i: int)
    requires
        0 <= i <= s.len(),
    ensures
        seq_lines_total(s.take(i)) <= seq_lines_total(s),
        seq_lines_count(s.take(i)) <= seq_lines_count(s),
    decreases s.len(),
{
    if i == s.len() {
        assert(s.take(i) =~= s);
    } else {
        assert(s.take(i) =~= s.drop_last().take(i));
        lemma_seq_prefix_le(s.drop_last(), i);
        lemma_mul_nonnegative(s.last().0 as int, s.last().1 as int);
    }
}

/// What replacing one line does to a listing's batch, count and total.
pub proof fn lemma_lines_update(lines: Seq<Line>, j: int, l2: Line)
    requires
        0 <= j < lines.len(),
    ensures
        lines.update(j, l2).to_multiset() == lines.to_multiset().remove(lines[j]).insert(l2),
        seq_lines_count(lines.update(j, l2)) == seq_lines_count(lines) - lines[j].1 + l2.1,
        seq_lines_total(lines.update(j, l2)) == seq_lines_total(lines) - lines[j].0 * lines[j].1
            + l2.0 * l2.1,
{
    broadcast use vstd::seq_lib::group_to_multiset_ensures;

    let ms = lines.to_multiset();
    assert(lines.update(j, l2) =~= lines.remove(j).insert(j, l2));
    vstd::seq_lib::to_multiset_insert(lines.remove(j), j, l2);
    assert(lines.update(j, l2).to_multiset() =~= ms.remove(lines[j]).insert(l2));
    lemma_seq_lines_sums(lines);
    lemma_seq_lines_sums(lines.update(j, l2));
    assert(lines.contains(lines[j]));
    assert(ms.contains(lines[j])) by {
        broadcast use vstd::multiset::group_multiset_axioms;

    }
    lemma_lines_count_remove(ms, lines[j]);
    lemma_lines_total_remove(ms, lines[j]);
    lemma_lines_total_insert(ms.remove(lines[j]), l2);
}

/// Lines listed in ascending order of unit price.
pub open spec fn sorted_by_price(s: Seq<Line>) -> bool {
    forall|i: int, j: int| 0 <= i < j < s.len() ==> s[i].0 <= s[j].0
}

/// The head of a price-sorted suffix is a cheapest line of that suffix.
proof fn lemma_sorted_head_cheapest(s: Seq<Line>, i: int)
    requires
        sorted_by_price(s),
        0 <= i < s.len(),
    ensures
        is_cheapest(s.skip(i).to_multiset(), s[i]),
        s.skip(i).to_multiset().remove(s[i]) =~= s.skip(i + 1).to_multiset(),
{
    broadcast use vstd::seq_lib::group_to_multiset_ensures;

    let suf = s.skip(i);
    assert(suf[0] == s[i]);
    assert(suf.contains(suf[0]));
    assert(suf.to_multiset().contains(s[i]));
    assert forall|y: Line| suf.to_multiset().contains(y) implies s[i].0 <= y.0 by {
        assert(suf.contains(y));
        let j = choose|j: int| 0 <= j < suf.len() && suf[j] == y;
        assert(s[i + j] == y);
    }
    assert(suf.remove(0) =~= s.skip(i + 1));
    assert(suf.remove(0).to_multiset() =~= suf.to_multiset().remove(suf[0]));
}

/// Counts the units of a listing: the exact sum of its quantities.
pub fn count_units(lines: &Vec<Line>) -> (r: u128)
    ensures
        r as int == seq_lines_count(lines@),
{
    let mut acc: u128 = 0;
    let mut i: usize = 0;
    while i < lines.len()
        invariant
            i <= lines.len(),
            acc as int == seq_lines_count(lines@.take(i as int)),
            acc as int <= (i as int) * (u32::MAX as int),
        decreases lines.len() - i,
    {
        let q = lines[i].1;
        proof {
            assert(lines@.take(i + 1).drop_last() =~= lines@.take(i as int));
            assert(lines@.take(i + 1).last() == lines@[i as int]);
            lemma_mul_upper_bound(i as int, usize::MAX as int, u32::MAX as int, u32::MAX as int);
            lemma_mul_is_distributive_add_other_way(u32::MAX as int, i as int, 1);
        }
        acc = acc + (q as u128);
        i = i + 1;
    }
    proof {
        assert(lines@.take(i as int) =~= lines@);
    }
    acc
}

/// Sums a listing's total value exactly, or reports that it exceeds what a
/// `u128` can hold.
pub fn checked_seq_total(lines: &Vec<Line>) -> (r: Option<u128>)
    ensures
        r matches Some(v) ==> v == seq_lines_total(lines@),
        r is None ==> seq_lines_total(lines@) > u128::MAX,
{
    let mut acc: u128 = 0;
    let mut i: usize = 0;
    while i < lines.len()
        invariant
            i <= lines.len(),
            acc as int == seq_lines_total(lines@.take(i as int)),
        decreases lines.len() - i,
    {
        let p = lines[i].0;
        let q = lines[i].1;
        proof {
            assert(lines@.take(i + 1).drop_last() =~= lines@.take(i as int));
            assert(lines@.take(i + 1).last() == lines@[i as int]);
            lemma_mul_nonnegative(p as int, q as int);
            lemma_mul_upper_bound(p as int, u64::MAX as int, q as int, u32::MAX as int);
        }
        let term: u128 = (p as u128) * (q as u128);
        if term > u128::MAX - acc {
            proof {
                lemma_seq_prefix_le(lines@, i + 1);
            }
            return None;
        }
        acc = acc + term;
        i = i + 1;
    }
    proof {
        assert(lines@.take(i as int) =~= lines@);
    }
    Some(acc)
}

/// For a positive factor, staying at or below `max / f` is the same as the
/// product staying at or below `max`.
pub proof fn lemma_div_mul_bound(v: int, f: int, max: int)
    requires
        f >= 1,
        v >= 0,
        max >= 0,
    ensures
        (v <= max / f) <==> (v * f <= max),
{
    if v <= max / f {
        lemma_mul_inequality(v, max / f, f);
        lemma_mul_is_commutative(max / f, f);
        vstd::arithmetic::div_mod::lemma_fundamental_div_mod(max, f);
        vstd::arithmetic::div_mod::lemma_mod_division_less_than_divisor(max, f);
    } else {
        lemma_mul_inequality(max / f + 1, v, f);
        lemma_mul_is_distributive_add_other_way(f, max / f, 1);
        vstd::arithmetic::div_mod::lemma_fundamental_div_mod(max, f);
        vstd::arithmetic::div_mod::lemma_mod_division_less_than_divisor(max, f);
        lemma_mul_is_commutative(max / f, f);
    }
}

/// Flooring a value to a whole multiple of a positive step never exceeds it.
pub proof fn lemma_floor_multiple(c: int, n: int)
    requires
        n >= 1,
        c >= 0,
    ensures
        0 <= (c / n) * n <= c,
{
    vstd::arithmetic::div_mod::lemma_fundamental_div_mod(c, n);
    vstd::arithmetic::div_mod::lemma_mod_division_less_than_divisor(c, n);
    vstd::arithmetic::div_mod::lemma_div_pos_is_pos(c, n);
    lemma_mul_nonnegative(c / n, n);
    lemma_mul_is_commutative(c / n, n);
}

/// `consume_value` capped to what a `u64` can hold: the exact value when it
/// fits, `None` when it does not.
pub open spec fn checked_consume_value(ms: Multiset<Line>, budget: int) -> Option<u64> {
    if consume_value(ms, budget) <= u64::MAX {
        Some(consume_value(ms, budget) as u64)
    } else {
        None
    }
}

/// Sorts lines by ascending unit price. The result lists exactly the same
/// lines.
pub fn sort_lines(lines: &Vec<Line>) -> (r: Vec<Line>)
    ensures
        sorted_by_price(r@),
        r@.to_multiset() == lines@.to_multiset(),
{
    broadcast use vstd::seq_lib::group_to_multiset_ensures;

    let mut r: Vec<Line> = Vec::new();
    let mut idx: usize = 0;
    proof {
        assert(lines@.take(0) =~= Seq::<Line>::empty());
        assert(r@.to_multiset() =~= lines@.take(0).to_multiset());
    }
    while idx < lines.len()
        invariant
            idx <= lines.len(),
            sorted_by_price(r@),
            r@.to_multiset() == lines@.take(idx as int).to_multiset(),
        decreases lines.len() - idx,
    {
        let x = lines[idx];
        let mut j: usize = 0;
        while j < r.len() && r[j].0 <= x.0
            invariant
                j <= r.len(),
                forall|t: int| 0 <= t < j ==> r@[t].0 <= x.0,
            decreases r.len() - j,
        {
            j = j + 1;
        }
        let ghost old_r = r@;
        r.insert(j, x);
        proof {
            old_r.insert_ensures(j as int, x);
            assert(sorted_by_price(r@)) by {
                assert forall|t1: int, t2: int|
                    0 <= t1 < t2 < r@.len() implies r@[t1].0 <= r@[t2].0 by {
                    if t2 < j {
                        assert(r@[t1] == old_r[t1]);
                        assert(r@[t2] == old_r[t2]);
                    } else if t1 < j && t2 == j {
                        assert(r@[t1] == old_r[t1]);
                        assert(r@[t2] == x);
                    } else if t1 < j && t2 > j {
                        assert(r@[t1] == old_r[t1]);
                        assert(r@[t2] == old_r[t2 - 1]);
                        assert(old_r[t1].0 <= old_r[t2 - 1].0);
                    } else if t1 == j {
                        assert(r@[t1] == x);
                        assert(r@[t2] == old_r[t2 - 1]);
                        assert((j as int) < old_r.len());
                        assert(old_r[j as int].0 > x.0);
                        assert(old_r[j as int].0 <= old_r[t2 - 1].0);
                    } else {
                        assert(r@[t1] == old_r[t1 - 1]);
                        assert(r@[t2] == old_r[t2 - 1]);
                    }
                }
            }
            vstd::seq_lib::to_multiset_insert(old_r, j as int, x);
            assert(lines@.take(idx + 1) =~= lines@.take(idx as int).push(x));
            vstd::seq_lib::to_multiset_build(lines@.take(idx as int), x);
        }
        idx = idx + 1;
    }
    proof {
        assert(lines@.take(idx as int) =~= lines@);
    }
    r
}

/// Consumes `budget` units of the sorted listing, cheapest first, and returns
/// the exact consumed value, or `None` when that value does not fit in a
/// `u64`.
pub fn consume_cheapest(lines: &Vec<Line>, budget: u128) -> (r: Option<u64>)
    requires
        sorted_by_price(lines@),
    ensures
        r == checked_consume_value(lines@.to_multiset(), budget as int),
{
    let ghost whole = consume_value(lines@.to_multiset(), budget as int);
    let mut acc: u64 = 0;
    let mut left: u128 = budget;
    let mut i: usize = 0;
    proof {
        lemma_consume_nonneg(lines@.to_multiset(), budget as int);
        assert(lines@.skip(0) =~= lines@);
    }
    while i < lines.len() && left > 0
        invariant
            i <= lines.len(),
            sorted_by_price(lines@),
            left <= budget,
            whole == consume_value(lines@.to_multiset(), budget as int),
            whole == acc + consume_value(lines@.skip(i as int).to_multiset(), left as int),
        decreases lines.len() - i,
    {
        let line = lines[i];
        let p = line.0;
        let q = line.1;
        let ghost rest = lines@.skip(i as int).to_multiset();
        proof {
            lemma_sorted_head_cheapest(lines@, i as int);
            lemma_consume_step(rest, left as int, line);
            lemma_consume_nonneg(rest.remove(line), left as int - q as int);
            lemma_mul_nonnegative(p as int, q as int);
            lemma_mul_upper_bound(p as int, u64::MAX as int, q as int, u32::MAX as int);
        }
        if (q as u128) <= left {
            let term: u128 = (p as u128) * (q as u128);
            if term > (u64::MAX - acc) as u128 {
                return None;
            }
            acc = acc + (term as u64);
            left = left - (q as u128);
            i = i + 1;
            proof {
                assert(lines@.skip(i as int).to_multiset() =~= rest.remove(line));
            }
        } else {
            // 0 < left < q: the budget ends inside this line.
            proof {
                lemma_mul_nonnegative(p as int, left as int);
                lemma_mul_upper_bound(p as int, u64::MAX as int, left as int, u32::MAX as int);
            }
            let term: u128 = (p as u128) * left;
            if term > (u64::MAX - acc) as u128 {
                return None;
            }
            return Some(acc + (term as u64));
        }
    }
    proof {
        if left == 0 {
        } else {
            assert(i == lines.len());
            assert(lines@.skip(i as int) =~= Seq::<Line>::empty());
            broadcast use vstd::seq_lib::group_to_multiset_ensures;

            assert(lines@.skip(i as int).to_multiset().len() == 0);
        }
    }
    Some(acc)
}

} // verus!
