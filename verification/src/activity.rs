//! The promotion engine: the two concrete discount strategies.
//!
//! Both strategies select the order lines matching their configured SKU
//! list, then hand the cheapest eligible units to the shared allocation
//! algorithm. "Full minus one" frees the cheapest complete-group units;
//! "fixed price" sells complete bundles at a configured price and discounts
//! the difference when that is a saving.

use vstd::prelude::*;
use crate::allocation::{
    consume_value, seq_lines_count, count_units, sort_lines, consume_cheapest,
    lemma_floor_multiple, lemma_div_mul_bound, lemma_consume_nonneg, Line,
};
use crate::order::{ApplyToOrder, Order};
use crate::allocation::{lemma_lines_update, seq_lines_total};
use crate::sku::{
    Sku, EntryView, entries_view, entry_lines, entry_lines_vec, spec_select_by_names, name_in_list,
    lemma_select_update,
};

verus! {

/// The pricing lines of the order entries matching a promotion's SKU list.
pub open spec fn eligible_lines(items: Seq<EntryView>, names: Seq<String>) -> Seq<Line> {
    entry_lines(spec_select_by_names(items, names))
}

/// The bonus of a full-minus-one promotion over the given order entries:
/// zero when fewer than `full_number` eligible units were bought, else the
/// value of the cheapest `(count / full_number) * full_number` eligible
/// units, which become free. A promotion configured with a zero group size
/// matches nothing and contributes zero.
pub open spec fn full_minus_one_bonus(
    items: Seq<EntryView>,
    names: Seq<String>,
    full_number: u32,
) -> int {
    let el = eligible_lines(items, names);
    let cnt = seq_lines_count(el);
    if full_number == 0 || cnt < full_number {
        0
    } else {
        consume_value(el.to_multiset(), (cnt / (full_number as int)) * (full_number as int))
    }
}

/// A promotion that can say which order lines are eligible for it.
pub trait ActivityFilter {
    /// The configured SKU list, as specifications see it.
    spec fn skus_spec(&self) -> Seq<String>;

    /// The configured SKU list.
    fn skus(&self) -> (r: &Vec<String>)
        ensures
            r@ == self.skus_spec(),
    ;

    /// The order entries matching the configured SKU list, in order.
    fn filter_activity_order_items(&self, order: &Order) -> (r: Vec<(Sku, u32)>)
        ensures
            entries_view(r@) == spec_select_by_names(order.items@, self.skus_spec()),
    {
        order.items.select_by_names(self.skus())
    }
}

/// A promotion: it selects eligible lines and applies a bonus to an order.
pub trait Activity: ActivityFilter + ApplyToOrder {

}

/// The "buy N, the cheapest of each complete group is free" promotion.
#[derive(Debug)]
pub struct FullMinusOne {
    /// The group size N.
    pub full_number: u32,
    /// The SKU names taking part.
    pub skus: Vec<String>,
}

impl ActivityFilter for FullMinusOne {
    open spec fn skus_spec(&self) -> Seq<String> {
        self.skus@
    }

    fn skus(&self) -> (r: &Vec<String>) {
        &self.skus
    }
}

impl ApplyToOrder for FullMinusOne {
    /// Adds the full-minus-one bonus to the order's activity bonus; when the
    /// grown accumulator would not fit, the promotion is skipped and the
    /// order unchanged.
    open spec fn apply_spec(&self, pre: Order, post: Order) -> bool {
        let bonus = full_minus_one_bonus(pre.items@, self.skus@, self.full_number);
        if pre.activity_bonus + bonus <= u64::MAX {
            post == (Order { activity_bonus: (pre.activity_bonus + bonus) as u64, ..pre })
        } else {
            post == pre
        }
    }

    fn apply_to_order(&self, order: &mut Order) {
        let ghost pre = *order;
        if self.full_number == 0 {
            return ;
        }
        let in_activity_items = self.filter_activity_order_items(order);
        let lines = entry_lines_vec(&in_activity_items);
        let ghost el = eligible_lines(pre.items@, self.skus@);
        let cnt: u128 = count_units(&lines);
        proof {
            lemma_consume_nonneg(el.to_multiset(), (cnt as int / (self.full_number as int)) * (
            self.full_number as int));
        }
        if cnt < self.full_number as u128 {
            return ;
        }
        proof {
            lemma_floor_multiple(cnt as int, self.full_number as int);
        }
        let usable: u128 = (cnt / (self.full_number as u128)) * (self.full_number as u128);
        let sorted = sort_lines(&lines);
        let consumed = consume_cheapest(&sorted, usable);
        match consumed {
            Some(bonus) => {
                if bonus <= u64::MAX - order.activity_bonus {
                    order.activity_bonus = order.activity_bonus + bonus;
                }
            },
            None => {
                // The bonus alone exceeds what the accumulator can hold:
                // the promotion is skipped.
            },
        }
    }
}

impl Activity for FullMinusOne {

}

/// The bonus of a bundle-fixed-price promotion: `times` complete bundles of
/// `fixed_number` eligible units sell for `fixed_price` each; the difference
/// to the natural price of the cheapest participating units is discounted
/// when positive, and nothing happens otherwise. A promotion configured with
/// a zero bundle size matches nothing and contributes zero.
pub open spec fn fixed_price_bonus(
    items: Seq<EntryView>,
    names: Seq<String>,
    fixed_number: u32,
    fixed_price: u64,
) -> int {
    let el = eligible_lines(items, names);
    let cnt = seq_lines_count(el);
    if fixed_number == 0 || cnt < fixed_number {
        0
    } else {
        let times = cnt / (fixed_number as int);
        let origin = consume_value(el.to_multiset(), times * (fixed_number as int));
        if fixed_price * times > origin {
            fixed_price * times - origin
        } else {
            0
        }
    }
}

/// The machine limits under which a bundle-fixed-price promotion can be
/// carried out: the natural price of the participating units and the total
/// bundle price must be representable, and the grown accumulator must fit.
pub open spec fn fixed_price_fits(
    items: Seq<EntryView>,
    names: Seq<String>,
    fixed_number: u32,
    fixed_price: u64,
    pre_bonus: u64,
) -> bool {
    let el = eligible_lines(items, names);
    let cnt = seq_lines_count(el);
    if fixed_number == 0 || cnt < fixed_number {
        true
    } else {
        let times = cnt / (fixed_number as int);
        let origin = consume_value(el.to_multiset(), times * (fixed_number as int));
        origin <= u64::MAX && fixed_price * times <= u128::MAX && pre_bonus + fixed_price_bonus(
            items,
            names,
            fixed_number,
            fixed_price,
        ) <= u64::MAX
    }
}

/// The "N eligible units for a fixed bundle price" promotion.
#[derive(Debug)]
pub struct FixedPrice {
    /// The bundle size N.
    pub fixed_number: u32,
    /// The price of one complete bundle, in cents.
    pub fixed_price: u64,
    /// The SKU names taking part.
    pub skus: Vec<String>,
}

impl ActivityFilter for FixedPrice {
    open spec fn skus_spec(&self) -> Seq<String> {
        self.skus@
    }

    fn skus(&self) -> (r: &Vec<String>) {
        &self.skus
    }
}

impl ApplyToOrder for FixedPrice {
    /// Adds the bundle-fixed-price bonus to the order's activity bonus; when
    /// an intermediate value or the grown accumulator would not fit its
    /// machine word, the promotion is skipped and the order unchanged.
    open spec fn apply_spec(&self, pre: Order, post: Order) -> bool {
        let bonus = fixed_price_bonus(pre.items@, self.skus@, self.fixed_number, self.fixed_price);
        if fixed_price_fits(
            pre.items@,
            self.skus@,
            self.fixed_number,
            self.fixed_price,
            pre.activity_bonus,
        ) {
            post == (Order { activity_bonus: (pre.activity_bonus + bonus) as u64, ..pre })
        } else {
            post == pre
        }
    }

    fn apply_to_order(&self, order: &mut Order) {
        let ghost pre = *order;
        if self.fixed_number == 0 {
            return ;
        }
        let in_activity_items = self.filter_activity_order_items(order);
        let lines = entry_lines_vec(&in_activity_items);
        let ghost el = eligible_lines(pre.items@, self.skus@);
        let cnt: u128 = count_units(&lines);
        if cnt < self.fixed_number as u128 {
            return ;
        }
        proof {
            lemma_floor_multiple(cnt as int, self.fixed_number as int);
        }
        let times: u128 = cnt / (self.fixed_number as u128);
        let usable: u128 = times * (self.fixed_number as u128);
        let sorted = sort_lines(&lines);
        let origin = match consume_cheapest(&sorted, usable) {
            Some(v) => v,
            None => {
                // The natural price of the participating units does not fit:
                // the promotion is skipped.
                return ;
            },
        };
        if self.fixed_price > 0 && times > u128::MAX / (self.fixed_price as u128) {
            // The total bundle price does not fit: the promotion is skipped.
            proof {
                lemma_div_mul_bound(times as int, self.fixed_price as int, u128::MAX as int);
            }
            return ;
        }
        proof {
            if self.fixed_price > 0 {
                lemma_div_mul_bound(times as int, self.fixed_price as int, u128::MAX as int);
            }
        }
        let total: u128 = (self.fixed_price as u128) * times;
        let bonus128: u128 = if total > origin as u128 {
            total - (origin as u128)
        } else {
            0
        };
        proof {
            lemma_consume_nonneg(el.to_multiset(), usable as int);
        }
        if bonus128 > ((u64::MAX - order.activity_bonus) as u128) {
            // The grown accumulator would overflow: the promotion is skipped.
            return ;
        }
        order.activity_bonus = order.activity_bonus + (bonus128 as u64);
    }
}

impl Activity for FixedPrice {

}

/// The given entry with its quantity grown by `d`.
pub open spec fn grow_entry(e: EntryView, d: u32) -> EntryView {
    (e.0, (e.1 + d) as u32)
}

/// With fewer eligible units than the group size, the full-minus-one
/// promotion contributes exactly zero.
pub proof fn lemma_full_minus_one_below_threshold(
    items: Seq<EntryView>,
    names: Seq<String>,
    full_number: u32,
)
    requires
        seq_lines_count(eligible_lines(items, names)) < full_number,
    ensures
        full_minus_one_bonus(items, names, full_number) == 0,
{
}

/// With an eligible unit count that is an exact multiple of the group
/// size, every eligible unit takes part: the bonus is the whole eligible
/// value.
pub proof fn lemma_full_minus_one_exact_multiple(
    items: Seq<EntryView>,
    names: Seq<String>,
    full_number: u32,
)
    requires
        full_number > 0,
        seq_lines_count(eligible_lines(items, names)) >= full_number,
        seq_lines_count(eligible_lines(items, names)) % (full_number as int) == 0,
    ensures
        full_minus_one_bonus(items, names, full_number) == seq_lines_total(
            eligible_lines(items, names),
        ),
{
    let el = eligible_lines(items, names);
    let cnt = seq_lines_count(el);
    let n = full_number as int;
    assert((cnt / n) * n == cnt) by {
        vstd::arithmetic::div_mod::lemma_fundamental_div_mod(cnt, n);
        vstd::arithmetic::mul::lemma_mul_is_commutative(cnt / n, n);
    }
    crate::allocation::lemma_seq_lines_sums(el);
    crate::allocation::lemma_consume_all(el.to_multiset(), cnt);
}

/// Growing any eligible line's quantity by a whole number of groups never
/// shrinks the full-minus-one bonus, other inputs held fixed. (An increase
/// that is not a whole number of groups can shrink it: the enlarged cheap
/// line can enter the discounted slice in place of dearer units without
/// growing the slice.)
pub proof fn lemma_full_minus_one_monotone(
    items: Seq<EntryView>,
    names: Seq<String>,
    full_number: u32,
    i: int,
    d: u32,
)
    requires
        0 <= i < items.len(),
        name_in_list(names, items[i].0.sku),
        full_number > 0,
        d % full_number == 0,
        items[i].1 + d <= u32::MAX,
    ensures
        full_minus_one_bonus(items.update(i, grow_entry(items[i], d)), names, full_number)
            >= full_minus_one_bonus(items, names, full_number),
{
    let n = full_number as int;
    let e = items[i];
    let e2 = grow_entry(e, d);
    let items2 = items.update(i, e2);
    let sel = spec_select_by_names(items, names);
    lemma_select_update(items, names, i, e2);
    let j = choose|j: int|
        0 <= j < sel.len() && sel[j] == items[i] && spec_select_by_names(items2, names)
            == sel.update(j, e2);
    let el = entry_lines(sel);
    let el2 = eligible_lines(items2, names);
    let line = (e.0.shop_price, e.1);
    let line2 = (e.0.shop_price, (e.1 + d) as u32);
    assert(el2 =~= el.update(j, line2));
    assert(el[j] == line);
    lemma_lines_update(el, j, line2);
    let cnt = seq_lines_count(el);
    let cnt2 = seq_lines_count(el2);
    assert(cnt2 == cnt + d);
    crate::allocation::lemma_seq_lines_nonneg(el);
    lemma_consume_nonneg(
        el2.to_multiset(),
        (cnt2 / n) * n,
    );
    if cnt < full_number {
        // Nothing was contributed before; the grown bonus is non-negative.
    } else {
        let usable = (cnt / n) * n;
        let usable2 = (cnt2 / n) * n;
        assert(usable2 == usable + d) by {
            lemma_div_plus_multiple(cnt, d as int, n);
            vstd::arithmetic::mul::lemma_mul_is_distributive_add_other_way(
                n,
                cnt / n,
                (d as int) / n,
            );
            vstd::arithmetic::mul::lemma_mul_is_commutative(cnt / n + (d as int) / n, n);
            vstd::arithmetic::mul::lemma_mul_is_commutative(cnt / n, n);
            vstd::arithmetic::mul::lemma_mul_is_commutative((d as int) / n, n);
            lemma_exact_div(d as int, n);
        }
        assert(el.to_multiset().contains(line)) by {
            broadcast use vstd::seq_lib::group_to_multiset_ensures;

            assert(el.contains(line));
        }
        crate::allocation::lemma_consume_grow(el.to_multiset(), line, d, usable);
    }
}

/// Division distributes over adding a multiple of the divisor.
proof fn lemma_div_plus_multiple(c: int, d: int, n: int)
    requires
        n >= 1,
        c >= 0,
        d >= 0,
        d % n == 0,
    ensures
        (c + d) / n == c / n + d / n,
{
    vstd::arithmetic::div_mod::lemma_fundamental_div_mod(d, n);
    vstd::arithmetic::div_mod::lemma_hoist_over_denominator(c, d / n, n as nat);
    vstd::arithmetic::mul::lemma_mul_is_commutative(d / n, n);
}

/// A multiple of the divisor divides back exactly.
proof fn lemma_exact_div(d: int, n: int)
    requires
        n >= 1,
        d >= 0,
        d % n == 0,
    ensures
        (d / n) * n == d,
{
    vstd::arithmetic::div_mod::lemma_fundamental_div_mod(d, n);
    vstd::arithmetic::mul::lemma_mul_is_commutative(d / n, n);
}

/// Growing an eligible line's quantity by a whole number of bundles never
/// shrinks the bundle-fixed-price bonus, provided a bundle of that line
/// sells naturally for no more than the fixed price. (A dearer line can
/// shrink it: each added bundle would replace fixed-price revenue with
/// units worth more than the fixed price.)
pub proof fn lemma_fixed_price_monotone(
    items: Seq<EntryView>,
    names: Seq<String>,
    fixed_number: u32,
    fixed_price: u64,
    i: int,
    d: u32,
)
    requires
        0 <= i < items.len(),
        name_in_list(names, items[i].0.sku),
        fixed_number > 0,
        d % fixed_number == 0,
        items[i].1 + d <= u32::MAX,
        items[i].0.shop_price * fixed_number <= fixed_price,
    ensures
        fixed_price_bonus(
            items.update(i, grow_entry(items[i], d)),
            names,
            fixed_number,
            fixed_price,
        ) >= fixed_price_bonus(items, names, fixed_number, fixed_price),
{
    let n = fixed_number as int;
    let f = fixed_price as int;
    let e = items[i];
    let p = e.0.shop_price as int;
    let e2 = grow_entry(e, d);
    let items2 = items.update(i, e2);
    let sel = spec_select_by_names(items, names);
    lemma_select_update(items, names, i, e2);
    let j = choose|j: int|
        0 <= j < sel.len() && sel[j] == items[i] && spec_select_by_names(items2, names)
            == sel.update(j, e2);
    let el = entry_lines(sel);
    let el2 = eligible_lines(items2, names);
    let line = (e.0.shop_price, e.1);
    let line2 = (e.0.shop_price, (e.1 + d) as u32);
    assert(el2 =~= el.update(j, line2));
    assert(el[j] == line);
    lemma_lines_update(el, j, line2);
    let cnt = seq_lines_count(el);
    let cnt2 = seq_lines_count(el2);
    assert(cnt2 == cnt + d);
    crate::allocation::lemma_seq_lines_nonneg(el);
    if cnt < fixed_number {
        // Nothing was contributed before; the grown bonus is non-negative.
    } else {
        let times = cnt / n;
        let times2 = cnt2 / n;
        let k = d as int / n;
        assert(times2 == times + k) by {
            lemma_div_plus_multiple(cnt, d as int, n);
        }
        assert(k * n == d) by {
            lemma_exact_div(d as int, n);
        }
        let origin = consume_value(el.to_multiset(), times * n);
        let origin2 = consume_value(el2.to_multiset(), times2 * n);
        assert(times2 * n == times * n + d) by {
            vstd::arithmetic::mul::lemma_mul_is_distributive_add_other_way(n, times, k);
        }
        assert(el.to_multiset().contains(line)) by {
            broadcast use vstd::seq_lib::group_to_multiset_ensures;

            assert(el.contains(line));
        }
        crate::allocation::lemma_consume_grow(el.to_multiset(), line, d, times * n);
        assert(origin2 <= origin + d * p);
        // f * times2 - origin2 >= f * times - origin + (f * k - d * p) and
        // f * k >= (p * n) * k == d * p.
        assert(f * times2 == f * times + f * k) by {
            vstd::arithmetic::mul::lemma_mul_is_distributive_add(f, times, k);
        }
        assert(f * k >= d * p) by {
            vstd::arithmetic::div_mod::lemma_div_pos_is_pos(d as int, n);
            vstd::arithmetic::mul::lemma_mul_inequality(p * n, f, k);
            vstd::arithmetic::mul::lemma_mul_is_commutative(p * n, k);
            vstd::arithmetic::mul::lemma_mul_is_commutative(f, k);
            vstd::arithmetic::mul::lemma_mul_is_associative(k, p, n);
            vstd::arithmetic::mul::lemma_mul_is_commutative(k, p);
            vstd::arithmetic::mul::lemma_mul_is_associative(p, k, n);
            vstd::arithmetic::mul::lemma_mul_is_commutative(k, n);
            vstd::arithmetic::mul::lemma_mul_is_associative(p, n, k);
            vstd::arithmetic::mul::lemma_mul_is_commutative(d as int, p);
        }
        lemma_consume_nonneg(el2.to_multiset(), times2 * n);
    }
}

} // verus!
