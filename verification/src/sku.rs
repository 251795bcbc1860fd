//! The catalog item model and the bought-set.
//!
//! A [`StockKeepingUnit`] is an immutable catalog entry: name, exact unit
//! price in cents, weight and attribute tags. Two units are the same catalog
//! entry exactly when their names are equal. A [`BoughtSkuSet`] maps catalog
//! entries to purchased quantities; its invariant keeps names unique and
//! quantities strictly positive, and its queries are pure.

use vstd::prelude::*;
use vstd::string::StringExecFns;
use crate::attribute::Attribute;
use crate::allocation::{Line, seq_lines_total, seq_lines_count};
use crate::allocation::{lemma_seq_prefix_le, lemma_seq_lines_nonneg};
use crate::money::{parse_price, spec_parse_price};

verus! {

/// Relies on the standard library's equality on string slices: two are equal
/// exactly when their characters are.
#[verifier::external_body]
fn str_eq(a: &str, b: &str) -> (r: bool)
    ensures
        r == (a@ == b@),
{
    a == b
}

/// A catalog entry's identifying name.
pub type SkuName = String;

/// The most basic unit of product.
#[derive(Debug)]
pub struct StockKeepingUnit {
    /// Identifying name; two units with equal names are the same entry.
    pub sku: SkuName,
    /// Exact unit price in cents.
    pub shop_price: u64,
    /// Weight in grams.
    pub weight: u32,
    /// Attribute tags, unordered labels.
    pub attributes: Vec<Attribute>,
}

/// Shorthand used throughout the order model.
pub type Sku = StockKeepingUnit;

/// What a catalog entry holds, as specifications see it.
pub struct SkuView {
    /// The identifying name's characters.
    pub sku: Seq<char>,
    /// Exact unit price in cents.
    pub shop_price: u64,
    /// Weight in grams.
    pub weight: u32,
    /// The attribute tags.
    pub attributes: Seq<Attribute>,
}

impl View for StockKeepingUnit {
    type V = SkuView;

    open spec fn view(&self) -> SkuView {
        SkuView {
            sku: self.sku@,
            shop_price: self.shop_price,
            weight: self.weight,
            attributes: self.attributes@,
        }
    }
}

/// A bought entry, as specifications see it: a catalog entry and its
/// purchased quantity.
pub type EntryView = (SkuView, u32);

/// The specification view of a listing of bought entries.
pub open spec fn entries_view(s: Seq<(Sku, u32)>) -> Seq<EntryView> {
    s.map_values(|e: (Sku, u32)| (e.0@, e.1))
}

/// Copies every attribute tag of a listing.
fn clone_attrs(attrs: &Vec<Attribute>) -> (r: Vec<Attribute>)
    ensures
        r@ == attrs@,
{
    let mut r: Vec<Attribute> = Vec::new();
    let mut i: usize = 0;
    while i < attrs.len()
        invariant
            i <= attrs.len(),
            r@ =~= attrs@.take(i as int),
        decreases attrs.len() - i,
    {
        r.push(attrs[i].clone());
        proof {
            assert(r@ =~= attrs@.take(i + 1));
        }
        i = i + 1;
    }
    proof {
        assert(attrs@.take(i as int) =~= attrs@);
    }
    r
}

impl Clone for StockKeepingUnit {
    /// A copy describing the same catalog entry.
    fn clone(&self) -> (r: Self)
        ensures
            r@ == self@,
    {
        StockKeepingUnit {
            sku: self.sku.clone(),
            shop_price: self.shop_price,
            weight: self.weight,
            attributes: clone_attrs(&self.attributes),
        }
    }
}

/// A unit is identified by its name alone: equality ignores price, weight
/// and attributes.
impl PartialEq for StockKeepingUnit {
    fn eq(&self, other: &Self) -> (r: bool) {
        self.sku == other.sku
    }
}

impl vstd::std_specs::cmp::PartialEqSpecImpl for StockKeepingUnit {
    open spec fn obeys_eq_spec() -> bool {
        true
    }

    open spec fn eq_spec(&self, other: &Self) -> bool {
        self.sku@ == other.sku@
    }
}

impl Eq for StockKeepingUnit {

}

impl StockKeepingUnit {
    /// Builds a catalog entry from its name and price text.
    ///
    /// The shop price text must denote a non-negative whole number of cents;
    /// otherwise no entry is built. The market price text is carried by the
    /// catalog source but takes no part in pricing, and is not kept.
    #[allow(unused_variables)]
    pub fn new(sku: &str, shop_price: &str, market_price: &str, weight: u32, attr: Vec<
        Attribute,
    >) -> (r: Option<Self>)
        ensures
            r is Some <==> spec_parse_price(shop_price@) is Some,
            r matches Some(s) ==> s@.sku == sku@ && Some(s@.shop_price) == spec_parse_price(
                shop_price@,
            ) && s@.weight == weight && s@.attributes == attr@,
    {
        match parse_price(shop_price) {
            Some(price) => Some(
                StockKeepingUnit {
                    sku: String::from_str(sku),
                    shop_price: price,
                    weight,
                    attributes: attr,
                },
            ),
            None => None,
        }
    }

    /// The entry's identifying name.
    pub fn name(&self) -> (r: &str)
        ensures
            r@ == self@.sku,
    {
        self.sku.as_str()
    }

    /// The entry's unit price in cents.
    pub fn price(&self) -> (r: u64)
        ensures
            r == self@.shop_price,
    {
        self.shop_price
    }

    /// The entry's weight in grams.
    pub fn weight(&self) -> (r: u32)
        ensures
            r == self@.weight,
    {
        self.weight
    }

    /// The entry's attribute tags.
    pub fn attrs(&self) -> (r: &Vec<Attribute>)
        ensures
            r@ == self@.attributes,
    {
        &self.attributes
    }
}

/// Entries carry pairwise distinct names.
pub open spec fn distinct_names(s: Seq<EntryView>) -> bool {
    forall|i: int, j: int| 0 <= i < j < s.len() ==> s[i].0.sku != s[j].0.sku
}

/// Every entry carries a strictly positive quantity.
pub open spec fn pos_entries(s: Seq<EntryView>) -> bool {
    forall|i: int| 0 <= i < s.len() ==> s[i].1 > 0
}

/// The pricing view of entries: each reduced to (unit price, quantity).
pub open spec fn entry_lines(s: Seq<EntryView>) -> Seq<Line> {
    s.map_values(|e: EntryView| (e.0.shop_price, e.1))
}

/// The name is one of the listed names.
pub open spec fn name_in_list(names: Seq<String>, n: Seq<char>) -> bool {
    exists|j: int| 0 <= j < names.len() && names[j]@ == n
}

/// The name is one of the listed keys.
pub open spec fn name_in_keys(keys: Seq<&str>, n: Seq<char>) -> bool {
    exists|j: int| 0 <= j < keys.len() && keys[j]@ == n
}

/// The entries whose names are among the listed names, in their original
/// order.
pub open spec fn spec_select_by_names(s: Seq<EntryView>, names: Seq<String>) -> Seq<EntryView>
    decreases s.len(),
{
    if s.len() == 0 {
        Seq::empty()
    } else {
        let rest = spec_select_by_names(s.drop_last(), names);
        if name_in_list(names, s.last().0.sku) {
            rest.push(s.last())
        } else {
            rest
        }
    }
}

/// Selecting entries keeps every selected entry an entry of the source.
pub proof fn lemma_select_by_names_sub(s: Seq<EntryView>, names: Seq<String>, k: int)
    requires
        0 <= k < spec_select_by_names(s, names).len(),
    ensures
        exists|i: int|
            0 <= i < s.len() && s[i] == spec_select_by_names(s, names)[k] && name_in_list(
                names,
                s[i].0.sku,
            ),
    decreases s.len(),
{
    let sel = spec_select_by_names(s, names);
    if s.len() > 0 {
        let rest = spec_select_by_names(s.drop_last(), names);
        if k < rest.len() {
            lemma_select_by_names_sub(s.drop_last(), names, k);
            let i = choose|i: int|
                0 <= i < s.drop_last().len() && s.drop_last()[i] == rest[k] && name_in_list(
                    names,
                    s.drop_last()[i].0.sku,
                );
            assert(s[i] == sel[k]);
        } else {
            assert(name_in_list(names, s.last().0.sku));
            assert(s[s.len() - 1] == sel[k]);
        }
    }
}

/// Selecting entries from a well-formed listing keeps names distinct and
/// quantities positive.
pub proof fn lemma_select_by_names_wf(s: Seq<EntryView>, names: Seq<String>)
    requires
        distinct_names(s),
        pos_entries(s),
    ensures
        distinct_names(spec_select_by_names(s, names)),
        pos_entries(spec_select_by_names(s, names)),
    decreases s.len(),
{
    let sel = spec_select_by_names(s, names);
    if s.len() > 0 {
        lemma_select_by_names_wf(s.drop_last(), names);
        let rest = spec_select_by_names(s.drop_last(), names);
        assert forall|i: int, j: int| 0 <= i < j < sel.len() implies sel[i].0.sku
            != sel[j].0.sku by {
            if j < rest.len() {
            } else {
                // sel[j] is the last source entry; sel[i] came from earlier
                // source entries, whose names all differ from it.
                lemma_select_by_names_sub(s.drop_last(), names, i);
            }
        }
        assert forall|i: int| 0 <= i < sel.len() implies sel[i].1 > 0 by {
            if i < rest.len() {
                lemma_select_by_names_sub(s.drop_last(), names, i);
            }
        }
    }
}

/// Selecting never sums to more than the whole listing.
pub proof fn lemma_select_total_le(s: Seq<EntryView>, names: Seq<String>)
    ensures
        seq_lines_total(entry_lines(spec_select_by_names(s, names))) <= seq_lines_total(
            entry_lines(s),
        ),
        seq_lines_count(entry_lines(spec_select_by_names(s, names))) <= seq_lines_count(
            entry_lines(s),
        ),
    decreases s.len(),
{
    if s.len() == 0 {
        assert(entry_lines(spec_select_by_names(s, names)) =~= entry_lines(s));
    } else {
        lemma_select_total_le(s.drop_last(), names);
        let rest = spec_select_by_names(s.drop_last(), names);
        let e = s.last();
        let line = (e.0.shop_price, e.1);
        assert(entry_lines(s).drop_last() =~= entry_lines(s.drop_last()));
        assert(entry_lines(s).last() == line);
        vstd::arithmetic::mul::lemma_mul_nonnegative(line.0 as int, line.1 as int);
        if name_in_list(names, e.0.sku) {
            assert(entry_lines(rest.push(e)).drop_last() =~= entry_lines(rest));
            assert(entry_lines(rest.push(e)).last() == line);
        }
    }
}

/// Replacing one selected entry by one of the same name replaces exactly
/// its selection, in place.
pub proof fn lemma_select_update(s: Seq<EntryView>, names: Seq<String>, i: int, e2: EntryView)
    requires
        0 <= i < s.len(),
        name_in_list(names, s[i].0.sku),
        e2.0.sku == s[i].0.sku,
    ensures
        exists|j: int|
            0 <= j < spec_select_by_names(s, names).len() && spec_select_by_names(s, names)[j]
                == s[i] && spec_select_by_names(s.update(i, e2), names) == spec_select_by_names(
                s,
                names,
            ).update(j, e2),
    decreases s.len(),
{
    let sel = spec_select_by_names(s, names);
    let s2 = s.update(i, e2);
    if i == s.len() - 1 {
        assert(s2.drop_last() =~= s.drop_last());
        assert(s2.last() == e2);
        let j = sel.len() - 1;
        assert(sel[j] == s[i]);
        assert(spec_select_by_names(s2, names) =~= sel.update(j, e2));
    } else {
        assert(s2.drop_last() =~= s.drop_last().update(i, e2));
        assert(s2.last() == s.last());
        assert(s.drop_last()[i] == s[i]);
        lemma_select_update(s.drop_last(), names, i, e2);
        let rest = spec_select_by_names(s.drop_last(), names);
        let j = choose|j: int|
            0 <= j < rest.len() && rest[j] == s.drop_last()[i] && spec_select_by_names(
                s.drop_last().update(i, e2),
                names,
            ) == rest.update(j, e2);
        if name_in_list(names, s.last().0.sku) {
            assert(sel == rest.push(s.last()));
            assert(sel[j] == s[i]);
            assert(spec_select_by_names(s2, names) =~= sel.update(j, e2));
        } else {
            assert(sel == rest);
            assert(spec_select_by_names(s2, names) =~= sel.update(j, e2));
        }
    }
}

/// Two bought-sets listing the same batch of priced lines, in any order,
/// have the same total amount and unit count.
pub proof fn lemma_totals_reorder(a: BoughtSkuSet, b: BoughtSkuSet)
    requires
        entry_lines(a@).to_multiset() == entry_lines(b@).to_multiset(),
    ensures
        a.spec_total() == b.spec_total(),
        a.spec_count() == b.spec_count(),
{
    crate::allocation::lemma_total_permutation(entry_lines(a@), entry_lines(b@));
}

/// Which entries a run of an arbitrary conditioner kept.
pub open spec fn mask_filter(s: Seq<EntryView>, keep: Seq<bool>) -> Seq<EntryView>
    decreases s.len(),
{
    if s.len() == 0 {
        Seq::empty()
    } else {
        let rest = mask_filter(s.drop_last(), keep.drop_last());
        if keep.len() == s.len() && keep.last() {
            rest.push(s.last())
        } else {
            rest
        }
    }
}

/// A batch of bought catalog entries, each with a purchased quantity.
#[derive(Debug)]
pub struct BoughtSkuSet {
    /// The entries; names unique, quantities positive.
    pub skus: Vec<(Sku, u32)>,
}

impl View for BoughtSkuSet {
    type V = Seq<EntryView>;

    open spec fn view(&self) -> Seq<EntryView> {
        entries_view(self.skus@)
    }
}

impl Clone for BoughtSkuSet {
    /// A copy listing the same bought entries.
    fn clone(&self) -> (r: Self)
        ensures
            r@ == self@,
    {
        let mut entries: Vec<(Sku, u32)> = Vec::new();
        let mut i: usize = 0;
        proof {
            assert(entries_view(entries@) =~= entries_view(self.skus@.take(0)));
        }
        while i < self.skus.len()
            invariant
                i <= self.skus@.len(),
                entries_view(entries@) == entries_view(self.skus@.take(i as int)),
            decreases self.skus@.len() - i,
        {
            let ghost pre_entries = entries_view(entries@);
            entries.push((self.skus[i].0.clone(), self.skus[i].1));
            proof {
                assert(entries_view(entries@) =~= pre_entries.push(self@[i as int]));
                assert(entries_view(self.skus@.take(i + 1)) =~= entries_view(
                    self.skus@.take(i as int),
                ).push(self@[i as int]));
            }
            i = i + 1;
        }
        proof {
            assert(self.skus@.take(i as int) =~= self.skus@);
            assert(entries_view(entries@) =~= entries_view(self.skus@));
        }
        BoughtSkuSet { skus: entries }
    }
}

impl BoughtSkuSet {
    /// The set's invariant: entry names are unique and quantities strictly
    /// positive.
    pub open spec fn wf(self) -> bool {
        distinct_names(self@) && pos_entries(self@)
    }

    /// Total monetary amount of the entries: the sum of price times quantity.
    pub open spec fn spec_total(self) -> int {
        seq_lines_total(entry_lines(self@))
    }

    /// Total purchased unit count of the entries.
    pub open spec fn spec_count(self) -> int {
        seq_lines_count(entry_lines(self@))
    }

    /// Some entry carries the given name.
    pub open spec fn spec_has_name(self, n: Seq<char>) -> bool {
        exists|i: int| 0 <= i < self@.len() && self@[i].0.sku == n
    }

    /// An empty bought-set.
    pub fn new() -> (r: Self)
        ensures
            r@.len() == 0,
            r.wf(),
    {
        BoughtSkuSet { skus: Vec::new() }
    }

    /// Whether some entry carries the given name.
    pub fn has_name(&self, n: &str) -> (r: bool)
        ensures
            r == self.spec_has_name(n@),
    {
        let mut i: usize = 0;
        while i < self.skus.len()
            invariant
                i <= self.skus@.len(),
                forall|t: int| 0 <= t < i ==> entries_view(self.skus@)[t].0.sku != n@,
            decreases self.skus@.len() - i,
        {
            if str_eq(self.skus[i].0.sku.as_str(), n) {
                proof {
                    assert(self@[i as int].0.sku == n@);
                }
                return true;
            }
            i = i + 1;
        }
        false
    }

    /// Adds one entry. Succeeds exactly when the quantity is positive and no
    /// entry of that name is present yet; otherwise the set is unchanged.
    pub fn add(&mut self, sku: Sku, number: u32) -> (r: bool)
        requires
            old(self).wf(),
        ensures
            final(self).wf(),
            r == (number > 0 && !old(self).spec_has_name(sku@.sku)),
            r ==> final(self)@ == old(self)@.push((sku@, number)),
            !r ==> final(self)@ == old(self)@,
    {
        if number == 0 {
            return false;
        }
        if self.has_name(sku.sku.as_str()) {
            return false;
        }
        let ghost pre = self@;
        self.skus.push((sku, number));
        proof {
            assert(self@ =~= pre.push((sku@, number)));
            assert forall|i: int, j: int| 0 <= i < j < self@.len() implies self@[i].0.sku
                != self@[j].0.sku by {}
        }
        true
    }

    /// With a conditioner on catalog entries, returns the matching entries
    /// and their quantities. The conditioner decides each entry; the result
    /// lists, in order, copies of exactly the entries it accepted.
    pub fn filter<F: Fn(&Sku) -> bool>(&self, conditioner: F) -> (r: Vec<(Sku, u32)>)
        requires
            forall|i: int|
                0 <= i < self.skus@.len() ==> call_requires(conditioner, (&self.skus@[i].0,)),
        ensures
            exists|keep: Seq<bool>|
                keep.len() == self@.len() && (forall|i: int|
                    0 <= i < keep.len() ==> call_ensures(conditioner, (&self.skus@[i].0,), keep[i]))
                    && entries_view(r@) == mask_filter(self@, keep),
    {
        let mut r: Vec<(Sku, u32)> = Vec::new();
        let ghost mut keep: Seq<bool> = Seq::empty();
        let mut i: usize = 0;
        proof {
            assert(entries_view(r@) =~= mask_filter(self@.take(0), keep));
        }
        while i < self.skus.len()
            invariant
                i <= self.skus@.len(),
                keep.len() == i,
                forall|t: int|
                    0 <= t < self.skus@.len() ==> call_requires(conditioner, (&self.skus@[t].0,)),
                forall|t: int|
                    0 <= t < i ==> call_ensures(conditioner, (&self.skus@[t].0,), keep[t]),
                entries_view(r@) == mask_filter(self@.take(i as int), keep),
            decreases self.skus@.len() - i,
        {
            let ghost pre_r = entries_view(r@);
            let b = conditioner(&self.skus[i].0);
            if b {
                let copy = (self.skus[i].0.clone(), self.skus[i].1);
                r.push(copy);
                proof {
                    assert(entries_view(r@) =~= pre_r.push(self@[i as int]));
                }
            }
            proof {
                let new_keep = keep.push(b);
                assert(self@.take(i + 1).drop_last() =~= self@.take(i as int));
                assert(new_keep.drop_last() =~= keep);
                assert(self@.take(i + 1).last() == self@[i as int]);
                assert(entries_view(r@) =~= mask_filter(self@.take(i + 1), new_keep));
                keep = new_keep;
            }
            i = i + 1;
        }
        proof {
            assert(self@.take(i as int) =~= self@);
        }
        r
    }

    /// The entries of this set whose names also occur in the other set, with
    /// this set's quantities, in this set's order.
    pub fn intersect(&self, other: &Self) -> (r: Vec<(Sku, u32)>)
        ensures
            entries_view(r@) == spec_keep_named(self@, *other),
    {
        let mut r: Vec<(Sku, u32)> = Vec::new();
        let mut i: usize = 0;
        proof {
            assert(entries_view(r@) =~= spec_keep_named(self@.take(0), *other));
        }
        while i < self.skus.len()
            invariant
                i <= self.skus@.len(),
                entries_view(r@) == spec_keep_named(self@.take(i as int), *other),
            decreases self.skus@.len() - i,
        {
            let ghost pre_r = entries_view(r@);
            if other.has_name(self.skus[i].0.sku.as_str()) {
                let copy = (self.skus[i].0.clone(), self.skus[i].1);
                r.push(copy);
                proof {
                    assert(entries_view(r@) =~= pre_r.push(self@[i as int]));
                }
            }
            proof {
                assert(self@.take(i + 1).drop_last() =~= self@.take(i as int));
            }
            i = i + 1;
        }
        proof {
            assert(self@.take(i as int) =~= self@);
        }
        r
    }

    /// The entries whose names occur among the given keys, with their
    /// quantities, in this set's order.
    pub fn intersect_by_sku_name(&self, other_keys: Vec<&str>) -> (r: Vec<(Sku, u32)>)
        ensures
            entries_view(r@) == spec_select_by_keys(self@, other_keys@),
    {
        let mut r: Vec<(Sku, u32)> = Vec::new();
        let mut i: usize = 0;
        proof {
            assert(entries_view(r@) =~= spec_select_by_keys(self@.take(0), other_keys@));
        }
        while i < self.skus.len()
            invariant
                i <= self.skus@.len(),
                entries_view(r@) == spec_select_by_keys(self@.take(i as int), other_keys@),
            decreases self.skus@.len() - i,
        {
            let ghost pre_r = entries_view(r@);
            if contains_key(&other_keys, self.skus[i].0.sku.as_str()) {
                let copy = (self.skus[i].0.clone(), self.skus[i].1);
                r.push(copy);
                proof {
                    assert(entries_view(r@) =~= pre_r.push(self@[i as int]));
                }
            }
            proof {
                assert(self@.take(i + 1).drop_last() =~= self@.take(i as int));
            }
            i = i + 1;
        }
        proof {
            assert(self@.take(i as int) =~= self@);
        }
        r
    }

    /// The entries whose names occur in the given name list, with their
    /// quantities, in this set's order.
    pub fn select_by_names(&self, names: &Vec<String>) -> (r: Vec<(Sku, u32)>)
        ensures
            entries_view(r@) == spec_select_by_names(self@, names@),
    {
        let mut r: Vec<(Sku, u32)> = Vec::new();
        let mut i: usize = 0;
        proof {
            assert(entries_view(r@) =~= spec_select_by_names(self@.take(0), names@));
        }
        while i < self.skus.len()
            invariant
                i <= self.skus@.len(),
                entries_view(r@) == spec_select_by_names(self@.take(i as int), names@),
            decreases self.skus@.len() - i,
        {
            let ghost pre_r = entries_view(r@);
            if contains_name(names, self.skus[i].0.sku.as_str()) {
                let copy = (self.skus[i].0.clone(), self.skus[i].1);
                r.push(copy);
                proof {
                    assert(entries_view(r@) =~= pre_r.push(self@[i as int]));
                }
            }
            proof {
                assert(self@.take(i + 1).drop_last() =~= self@.take(i as int));
            }
            i = i + 1;
        }
        proof {
            assert(self@.take(i as int) =~= self@);
        }
        r
    }

    /// The entries reduced to their pricing view: (unit price, quantity).
    pub fn lines(&self) -> (r: Vec<Line>)
        ensures
            r@ == entry_lines(self@),
    {
        let mut r: Vec<Line> = Vec::new();
        let mut i: usize = 0;
        while i < self.skus.len()
            invariant
                i <= self.skus@.len(),
                r@ =~= entry_lines(self@.take(i as int)),
            decreases self.skus@.len() - i,
        {
            r.push((self.skus[i].0.shop_price, self.skus[i].1));
            proof {
                assert(r@ =~= entry_lines(self@.take(i + 1)));
            }
            i = i + 1;
        }
        proof {
            assert(self@.take(i as int) =~= self@);
            assert(r@ =~= entry_lines(self@));
        }
        r
    }

    /// Total monetary amount of the bought entries, in cents.
    ///
    /// The sum must fit in a `u64`; [`BoughtSkuSet::checked_total_amount`]
    /// reports overflow instead of requiring its absence.
    pub fn total_amount(&self) -> (r: u64)
        requires
            self.spec_total() <= u64::MAX,
        ensures
            r == self.spec_total(),
    {
        let mut acc: u128 = 0;
        let mut i: usize = 0;
        while i < self.skus.len()
            invariant
                i <= self.skus@.len(),
                self.spec_total() <= u64::MAX,
                acc == seq_lines_total(entry_lines(self@).take(i as int)),
                acc <= u64::MAX,
            decreases self.skus@.len() - i,
        {
            let p = self.skus[i].0.shop_price;
            let q = self.skus[i].1;
            proof {
                lemma_line_term_bounds(entry_lines(self@), i as int);
                lemma_seq_prefix_le(entry_lines(self@), i + 1);
            }
            acc = acc + (p as u128) * (q as u128);
            i = i + 1;
        }
        proof {
            assert(entry_lines(self@).take(i as int) =~= entry_lines(self@));
        }
        acc as u64
    }

    /// Total monetary amount of the bought entries, or `None` when the sum
    /// exceeds `u64::MAX` cents.
    pub fn checked_total_amount(&self) -> (r: Option<u64>)
        ensures
            r matches Some(v) ==> v == self.spec_total() && self.spec_total() <= u64::MAX,
            r is None ==> self.spec_total() > u64::MAX,
    {
        let mut acc: u128 = 0;
        let mut i: usize = 0;
        while i < self.skus.len()
            invariant
                i <= self.skus@.len(),
                acc == seq_lines_total(entry_lines(self@).take(i as int)),
                acc <= u64::MAX,
            decreases self.skus@.len() - i,
        {
            let p = self.skus[i].0.shop_price;
            let q = self.skus[i].1;
            proof {
                lemma_line_term_bounds(entry_lines(self@), i as int);
            }
            let term: u128 = (p as u128) * (q as u128);
            if term > (u64::MAX as u128) - acc {
                proof {
                    lemma_seq_prefix_le(entry_lines(self@), i + 1);
                }
                return None;
            }
            acc = acc + term;
            i = i + 1;
        }
        proof {
            assert(entry_lines(self@).take(i as int) =~= entry_lines(self@));
        }
        Some(acc as u64)
    }

    /// Whether the total monetary amount strictly exceeds the threshold.
    pub fn total_exceeds(&self, threshold: u64) -> (r: bool)
        ensures
            r == (self.spec_total() > threshold),
    {
        let mut acc: u128 = 0;
        let mut i: usize = 0;
        while i < self.skus.len()
            invariant
                i <= self.skus@.len(),
                acc == seq_lines_total(entry_lines(self@).take(i as int)),
                acc <= threshold,
            decreases self.skus@.len() - i,
        {
            let p = self.skus[i].0.shop_price;
            let q = self.skus[i].1;
            proof {
                lemma_line_term_bounds(entry_lines(self@), i as int);
            }
            let term: u128 = (p as u128) * (q as u128);
            if term > (threshold as u128) - acc {
                proof {
                    lemma_seq_prefix_le(entry_lines(self@), i + 1);
                }
                return true;
            }
            acc = acc + term;
            i = i + 1;
        }
        proof {
            assert(entry_lines(self@).take(i as int) =~= entry_lines(self@));
        }
        false
    }

    /// Whether the total unit count strictly exceeds the threshold.
    pub fn count_exceeds(&self, threshold: u32) -> (r: bool)
        ensures
            r == (self.spec_count() > threshold),
    {
        let mut acc: u64 = 0;
        let mut i: usize = 0;
        while i < self.skus.len()
            invariant
                i <= self.skus@.len(),
                acc == seq_lines_count(entry_lines(self@).take(i as int)),
                acc <= threshold,
            decreases self.skus@.len() - i,
        {
            let q = self.skus[i].1;
            proof {
                lemma_line_term_bounds(entry_lines(self@), i as int);
            }
            if (q as u64) > (threshold as u64) - acc {
                proof {
                    lemma_seq_prefix_le(entry_lines(self@), i + 1);
                }
                return true;
            }
            acc = acc + (q as u64);
            i = i + 1;
        }
        proof {
            assert(entry_lines(self@).take(i as int) =~= entry_lines(self@));
        }
        false
    }

    /// Total purchased unit count of the bought entries.
    ///
    /// The sum must fit in a `u32`, as the caller's unit counter does.
    pub fn total_number(&self) -> (r: u32)
        requires
            self.spec_count() <= u32::MAX,
        ensures
            r == self.spec_count(),
    {
        let mut acc: u64 = 0;
        let mut i: usize = 0;
        while i < self.skus.len()
            invariant
                i <= self.skus@.len(),
                self.spec_count() <= u32::MAX,
                acc == seq_lines_count(entry_lines(self@).take(i as int)),
                acc <= u32::MAX,
            decreases self.skus@.len() - i,
        {
            let q = self.skus[i].1;
            proof {
                lemma_line_term_bounds(entry_lines(self@), i as int);
                lemma_seq_prefix_le(entry_lines(self@), i + 1);
            }
            acc = acc + (q as u64);
            i = i + 1;
        }
        proof {
            assert(entry_lines(self@).take(i as int) =~= entry_lines(self@));
        }
        acc as u32
    }
}

/// One more entry extends a prefix sum by that entry's term.
proof fn lemma_line_term_bounds(lines: Seq<Line>, i: int)
    requires
        0 <= i < lines.len(),
    ensures
        seq_lines_total(lines.take(i + 1)) == seq_lines_total(lines.take(i)) + lines[i].0
            * lines[i].1,
        seq_lines_count(lines.take(i + 1)) == seq_lines_count(lines.take(i)) + lines[i].1,
        lines[i].0 * lines[i].1 >= 0,
        lines[i].0 * lines[i].1 <= u64::MAX * (u32::MAX as int),
        seq_lines_total(lines.take(i)) >= 0,
        seq_lines_count(lines.take(i)) >= 0,
{
    assert(lines.take(i + 1).drop_last() =~= lines.take(i));
    assert(lines.take(i + 1).last() == lines[i]);
    vstd::arithmetic::mul::lemma_mul_nonnegative(lines[i].0 as int, lines[i].1 as int);
    vstd::arithmetic::mul::lemma_mul_upper_bound(
        lines[i].0 as int,
        u64::MAX as int,
        lines[i].1 as int,
        u32::MAX as int,
    );
    lemma_seq_lines_nonneg(lines.take(i));
}

/// The entries of a listing whose names occur in a bought-set, in order.
pub open spec fn spec_keep_named(s: Seq<EntryView>, other: BoughtSkuSet) -> Seq<EntryView>
    decreases s.len(),
{
    if s.len() == 0 {
        Seq::empty()
    } else {
        let rest = spec_keep_named(s.drop_last(), other);
        if other.spec_has_name(s.last().0.sku) {
            rest.push(s.last())
        } else {
            rest
        }
    }
}

/// The entries of a listing whose names occur among the keys, in order.
pub open spec fn spec_select_by_keys(s: Seq<EntryView>, keys: Seq<&str>) -> Seq<EntryView>
    decreases s.len(),
{
    if s.len() == 0 {
        Seq::empty()
    } else {
        let rest = spec_select_by_keys(s.drop_last(), keys);
        if name_in_keys(keys, s.last().0.sku) {
            rest.push(s.last())
        } else {
            rest
        }
    }
}

/// Reduces listed entries to their pricing view: (unit price, quantity).
pub fn entry_lines_vec(v: &Vec<(Sku, u32)>) -> (r: Vec<Line>)
    ensures
        r@ == entry_lines(entries_view(v@)),
{
    let mut r: Vec<Line> = Vec::new();
    let mut i: usize = 0;
    while i < v.len()
        invariant
            i <= v@.len(),
            r@ =~= entry_lines(entries_view(v@.take(i as int))),
        decreases v@.len() - i,
    {
        r.push((v[i].0.shop_price, v[i].1));
        proof {
            assert(r@ =~= entry_lines(entries_view(v@.take(i + 1))));
        }
        i = i + 1;
    }
    proof {
        assert(v@.take(i as int) =~= v@);
        assert(r@ =~= entry_lines(entries_view(v@)));
    }
    r
}

/// Whether the key slice holds this name.
fn contains_key(keys: &Vec<&str>, n: &str) -> (r: bool)
    ensures
        r == name_in_keys(keys@, n@),
{
    let mut j: usize = 0;
    while j < keys.len()
        invariant
            j <= keys@.len(),
            forall|t: int| 0 <= t < j ==> keys@[t]@ != n@,
        decreases keys@.len() - j,
    {
        if str_eq(keys[j], n) {
            return true;
        }
        j = j + 1;
    }
    false
}

/// Whether the name list holds this name.
fn contains_name(names: &Vec<String>, n: &str) -> (r: bool)
    ensures
        r == name_in_list(names@, n@),
{
    let mut j: usize = 0;
    while j < names.len()
        invariant
            j <= names@.len(),
            forall|t: int| 0 <= t < j ==> names@[t]@ != n@,
        decreases names@.len() - j,
    {
        if str_eq(names[j].as_str(), n) {
            return true;
        }
        j = j + 1;
    }
    false
}

} // verus!
