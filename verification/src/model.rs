//! The schema model: suppliers, the material catalog and the storage-unit
//! ledger, held as in-memory tables, together with the spec-level sums and
//! counts that the query contracts are stated over.
//!
//! Monetary amounts are fixed-point integers: `quantity` and `unit_price`
//! are expressed in minor units chosen by the data owner, and the value of
//! a ledger line is `quantity * unit_price`.

use vstd::prelude::*;

verus! {

/// A calendar date with plain fields, ordered lexicographically by
/// (year, month, day).
#[derive(Clone, Copy, Debug, PartialEq, Eq, Structural)]
pub struct Date {
    pub year: i32,
    pub month: u8,
    pub day: u8,
}

impl Date {
    /// A minimally sane calendar date: month in 1..=12, day in 1..=31.
    pub open spec fn valid(self) -> bool {
        &&& 1 <= self.month <= 12
        &&& 1 <= self.day <= 31
    }

    /// Lexicographic order on (year, month, day).
    pub open spec fn spec_le(self, other: Date) -> bool {
        if self.year != other.year {
            self.year < other.year
        } else if self.month != other.month {
            self.month < other.month
        } else {
            self.day <= other.day
        }
    }

    /// Decides the lexicographic order on (year, month, day).
    pub fn le(self, other: Date) -> (r: bool)
        ensures
            r == self.spec_le(other),
    {
        if self.year != other.year {
            self.year < other.year
        } else if self.month != other.month {
            self.month < other.month
        } else {
            self.day <= other.day
        }
    }
}

/// An inclusive date range for period-bounded aggregates.
#[derive(Clone, Copy, Debug, PartialEq, Eq, Structural)]
pub struct PeriodParams {
    pub start: Date,
    pub end: Date,
}

/// A supplier row.  The tax identifier is the optional unique business
/// key; the bank city groups suppliers by their servicing bank's location.
#[derive(Debug, Clone)]
pub struct Supplier {
    pub supplier_id: i64,
    pub name: String,
    pub tax_id: Option<String>,
    pub bank_address_city: Option<String>,
}

/// A material catalog row.  The group code partitions materials into
/// assortment groups for grouped analytics.
#[derive(Debug, Clone)]
pub struct MaterialCatalogEntry {
    pub material_id: i64,
    pub material_name: String,
    pub class_code: Option<String>,
    pub group_code: String,
}

/// One received batch in the ledger: a material, a supplier, an order
/// number, a transaction date, a quantity and a unit price, both in
/// fixed-point minor units.
#[derive(Debug, Clone)]
pub struct StorageUnit {
    pub material_id: i64,
    pub supplier_id: i64,
    pub order_number: i64,
    pub date: Date,
    pub quantity: u64,
    pub unit_price: u64,
}

/// A snapshot of the three base tables.  This core never mutates it.
#[derive(Debug, Clone)]
pub struct Database {
    pub suppliers: Vec<Supplier>,
    pub materials: Vec<MaterialCatalogEntry>,
    pub storage_units: Vec<StorageUnit>,
}

/// Sum of `f` over a sequence of ledger lines.
pub open spec fn sum_by(s: Seq<StorageUnit>, f: spec_fn(StorageUnit) -> int) -> int
    decreases s.len(),
{
    if s.len() == 0 {
        0
    } else {
        sum_by(s.drop_last(), f) + f(s.last())
    }
}

/// Number of elements of `s` satisfying `p`.
pub open spec fn count_if<T>(s: Seq<T>, p: spec_fn(T) -> bool) -> int
    decreases s.len(),
{
    if s.len() == 0 {
        0
    } else {
        count_if(s.drop_last(), p) + if p(s.last()) {
            1int
        } else {
            0int
        }
    }
}

/// The monetary value of a ledger line.
pub open spec fn value_fn() -> spec_fn(StorageUnit) -> int {
    |u: StorageUnit| u.quantity * u.unit_price
}

/// The quantity of a ledger line.
pub open spec fn qty_fn() -> spec_fn(StorageUnit) -> int {
    |u: StorageUnit| u.quantity as int
}

/// `f` gated by `p`: contributes `f(u)` where `p` holds and 0 elsewhere.
pub open spec fn gated(
    p: spec_fn(StorageUnit) -> bool,
    f: spec_fn(StorageUnit) -> int,
) -> spec_fn(StorageUnit) -> int {
    |u: StorageUnit| if p(u) {
        f(u)
    } else {
        0
    }
}

/// Sum of `f` over the lines of `s` satisfying `p`.
pub open spec fn sum_filtered(
    s: Seq<StorageUnit>,
    p: spec_fn(StorageUnit) -> bool,
    f: spec_fn(StorageUnit) -> int,
) -> int {
    sum_by(s, gated(p, f))
}

/// Lines whose transaction date lies in the inclusive range.
pub open spec fn period_pred(start: Date, end: Date) -> spec_fn(StorageUnit) -> bool {
    |u: StorageUnit| start.spec_le(u.date) && u.date.spec_le(end)
}

/// Lines of one material.
pub open spec fn material_pred(material_id: i64) -> spec_fn(StorageUnit) -> bool {
    |u: StorageUnit| u.material_id == material_id
}

/// Lines dated in one month of one year.
pub open spec fn month_pred(year: i32, month: u8) -> spec_fn(StorageUnit) -> bool {
    |u: StorageUnit| u.date.year == year && u.date.month == month
}

/// First catalog entry with the given material id, in table order.
pub open spec fn find_material(s: Seq<MaterialCatalogEntry>, material_id: i64) -> Option<
    MaterialCatalogEntry,
>
    decreases s.len(),
{
    if s.len() == 0 {
        None
    } else if s[0].material_id == material_id {
        Some(s[0])
    } else {
        find_material(s.skip(1), material_id)
    }
}

/// First supplier with the given id, in table order.
pub open spec fn find_supplier(s: Seq<Supplier>, supplier_id: i64) -> Option<Supplier>
    decreases s.len(),
{
    if s.len() == 0 {
        None
    } else if s[0].supplier_id == supplier_id {
        Some(s[0])
    } else {
        find_supplier(s.skip(1), supplier_id)
    }
}

/// First ledger line with the given order number, in ledger order.
pub open spec fn first_unit_with_order(s: Seq<StorageUnit>, order_number: i64) -> Option<
    StorageUnit,
>
    decreases s.len(),
{
    if s.len() == 0 {
        None
    } else if s[0].order_number == order_number {
        Some(s[0])
    } else {
        first_unit_with_order(s.skip(1), order_number)
    }
}

/// Lines whose material belongs to the given assortment group.
pub open spec fn group_pred(materials: Seq<MaterialCatalogEntry>, group: Seq<char>) -> spec_fn(
    StorageUnit,
) -> bool {
    |u: StorageUnit| match find_material(materials, u.material_id) {
        Some(m) => m.group_code@ == group,
        None => false,
    }
}

/// Lines of one supplier whose material belongs to the given group.
pub open spec fn group_supplier_pred(
    materials: Seq<MaterialCatalogEntry>,
    group: Seq<char>,
    supplier_id: i64,
) -> spec_fn(StorageUnit) -> bool {
    |u: StorageUnit| group_pred(materials, group)(u) && u.supplier_id == supplier_id
}

/// Suppliers whose bank city is present and equal to `city`.
pub open spec fn city_pred(city: Seq<char>) -> spec_fn(Supplier) -> bool {
    |s: Supplier| match s.bank_address_city {
        Some(c) => c@ == city,
        None => false,
    }
}

/// Two supplier rows carrying the same present tax identifier.
pub open spec fn same_tax(a: Supplier, b: Supplier) -> bool {
    match (a.tax_id, b.tax_id) {
        (Some(x), Some(y)) => x@ == y@,
        _ => false,
    }
}

impl Database {
    /// Well-formedness of a snapshot: unique supplier and material ids, a
    /// present tax identifier names at most one supplier, ledger lines
    /// reference existing suppliers, dates are sane, and the ledger's total
    /// value and total quantity each fit in 64 bits.
    pub open spec fn wf(self) -> bool {
        &&& (forall|i: int, j: int|
            0 <= i < j < self.suppliers@.len() ==> (#[trigger] self.suppliers@[i]).supplier_id != (
            #[trigger] self.suppliers@[j]).supplier_id)
        &&& (forall|i: int, j: int|
            0 <= i < j < self.materials@.len() ==> (#[trigger] self.materials@[i]).material_id != (
            #[trigger] self.materials@[j]).material_id)
        &&& (forall|i: int, j: int|
            0 <= i < j < self.suppliers@.len() ==> !same_tax(
                #[trigger] self.suppliers@[i],
                #[trigger] self.suppliers@[j],
            ))
        &&& (forall|i: int|
            0 <= i < self.storage_units@.len() ==> exists|j: int|
                0 <= j < self.suppliers@.len() && (#[trigger] self.suppliers@[j]).supplier_id == (
                #[trigger] self.storage_units@[i]).supplier_id)
        &&& (forall|i: int|
            0 <= i < self.storage_units@.len() ==> (#[trigger] self.storage_units@[i]).date.valid())
        &&& sum_by(self.storage_units@, value_fn()) <= u64::MAX as int
        &&& sum_by(self.storage_units@, qty_fn()) <= u64::MAX as int
    }
}

/// Every line's value is nonnegative.
pub proof fn lemma_value_fn_nonneg()
    ensures
        forall|u: StorageUnit| 0 <= #[trigger] value_fn()(u),
{
    assert forall|u: StorageUnit| 0 <= #[trigger] value_fn()(u) by {
        assert(0 <= u.quantity * u.unit_price) by (nonlinear_arith);
    }
}

/// Every line's quantity is nonnegative.
pub proof fn lemma_qty_fn_nonneg()
    ensures
        forall|u: StorageUnit| 0 <= #[trigger] qty_fn()(u),
{
}

/// The product of two 64-bit quantities fits in 128 bits.
pub proof fn lemma_u64_mul_fits_u128(a: u64, b: u64)
    ensures
        0 <= (a as int) * (b as int) <= u128::MAX as int,
{
    assert(0 <= (a as int) * (b as int) <= u128::MAX as int) by (nonlinear_arith);
}

/// A sum of nonnegative contributions is nonnegative.
pub proof fn lemma_sum_by_nonneg(s: Seq<StorageUnit>, f: spec_fn(StorageUnit) -> int)
    requires
        forall|u: StorageUnit| 0 <= #[trigger] f(u),
    ensures
        0 <= sum_by(s, f),
    decreases s.len(),
{
    if s.len() > 0 {
        lemma_sum_by_nonneg(s.drop_last(), f);
    }
}

/// Pointwise dominated contributions give a dominated sum.
pub proof fn lemma_sum_by_mono(
    s: Seq<StorageUnit>,
    f: spec_fn(StorageUnit) -> int,
    g: spec_fn(StorageUnit) -> int,
)
    requires
        forall|u: StorageUnit| #[trigger] f(u) <= #[trigger] g(u),
    ensures
        sum_by(s, f) <= sum_by(s, g),
    decreases s.len(),
{
    if s.len() > 0 {
        lemma_sum_by_mono(s.drop_last(), f, g);
    }
}

/// Extending a prefix by one element adds that element's contribution.
pub proof fn lemma_sum_by_take_succ(s: Seq<StorageUnit>, f: spec_fn(StorageUnit) -> int, i: int)
    requires
        0 <= i < s.len(),
    ensures
        sum_by(s.take(i + 1), f) == sum_by(s.take(i), f) + f(s[i]),
{
    assert(s.take(i + 1).drop_last() =~= s.take(i));
    assert(s.take(i + 1).last() == s[i]);
}

/// With nonnegative contributions, a prefix sum is at most the full sum.
pub proof fn lemma_sum_by_take_le(s: Seq<StorageUnit>, f: spec_fn(StorageUnit) -> int, i: int)
    requires
        forall|u: StorageUnit| 0 <= #[trigger] f(u),
        0 <= i <= s.len(),
    ensures
        sum_by(s.take(i), f) <= sum_by(s, f),
    decreases s.len() - i,
{
    if i == s.len() {
        assert(s.take(i) =~= s);
    } else {
        lemma_sum_by_take_succ(s, f, i);
        lemma_sum_by_take_le(s, f, i + 1);
    }
}

/// A gated sum never exceeds the ungated sum of the same contributions.
pub proof fn lemma_sum_filtered_le_total(
    s: Seq<StorageUnit>,
    p: spec_fn(StorageUnit) -> bool,
    f: spec_fn(StorageUnit) -> int,
)
    requires
        forall|u: StorageUnit| 0 <= #[trigger] f(u),
    ensures
        sum_filtered(s, p, f) <= sum_by(s, f),
{
    assert forall|u: StorageUnit| #[trigger] gated(p, f)(u) <= #[trigger] f(u) by {}
    lemma_sum_by_mono(s, gated(p, f), f);
}

/// Narrowing the filter can only lower the sum.
pub proof fn lemma_sum_filtered_subset(
    s: Seq<StorageUnit>,
    p: spec_fn(StorageUnit) -> bool,
    q: spec_fn(StorageUnit) -> bool,
    f: spec_fn(StorageUnit) -> int,
)
    requires
        forall|u: StorageUnit| #[trigger] p(u) ==> #[trigger] q(u),
        forall|u: StorageUnit| 0 <= #[trigger] f(u),
    ensures
        sum_filtered(s, p, f) <= sum_filtered(s, q, f),
{
    assert forall|u: StorageUnit| #[trigger] gated(p, f)(u) <= #[trigger] gated(q, f)(u) by {}
    lemma_sum_by_mono(s, gated(p, f), gated(q, f));
}

/// A filter matching no line sums to zero.
pub proof fn lemma_sum_filtered_zero(
    s: Seq<StorageUnit>,
    p: spec_fn(StorageUnit) -> bool,
    f: spec_fn(StorageUnit) -> int,
)
    requires
        count_if(s, p) == 0,
    ensures
        sum_filtered(s, p, f) == 0,
    decreases s.len(),
{
    if s.len() > 0 {
        lemma_count_if_nonneg(s.drop_last(), p);
        lemma_sum_filtered_zero(s.drop_last(), p, f);
    }
}

/// Each element contributes at most the whole nonnegative sum.
pub proof fn lemma_element_le_sum(s: Seq<StorageUnit>, f: spec_fn(StorageUnit) -> int, i: int)
    requires
        forall|u: StorageUnit| 0 <= #[trigger] f(u),
        0 <= i < s.len(),
    ensures
        f(s[i]) <= sum_by(s, f),
    decreases s.len(),
{
    lemma_sum_by_nonneg(s.drop_last(), f);
    if i < s.len() - 1 {
        assert(s.drop_last()[i] == s[i]);
        lemma_element_le_sum(s.drop_last(), f, i);
    }
}

/// A count is nonnegative.
pub proof fn lemma_count_if_nonneg<T>(s: Seq<T>, p: spec_fn(T) -> bool)
    ensures
        0 <= count_if(s, p),
    decreases s.len(),
{
    if s.len() > 0 {
        lemma_count_if_nonneg(s.drop_last(), p);
    }
}

/// Extending a prefix by one element raises the count by its match.
pub proof fn lemma_count_if_take_succ<T>(s: Seq<T>, p: spec_fn(T) -> bool, i: int)
    requires
        0 <= i < s.len(),
    ensures
        count_if(s.take(i + 1), p) == count_if(s.take(i), p) + if p(s[i]) {
            1int
        } else {
            0int
        },
{
    assert(s.take(i + 1).drop_last() =~= s.take(i));
    assert(s.take(i + 1).last() == s[i]);
}

/// A matching element makes the count positive.
pub proof fn lemma_count_if_pos<T>(s: Seq<T>, p: spec_fn(T) -> bool, i: int)
    requires
        0 <= i < s.len(),
        p(s[i]),
    ensures
        count_if(s, p) > 0,
    decreases s.len(),
{
    lemma_count_if_nonneg(s.drop_last(), p);
    if i < s.len() - 1 {
        assert(s.drop_last()[i] == s[i]);
        lemma_count_if_pos(s.drop_last(), p, i);
    }
}

/// An id that occurs among the suppliers is found by `find_supplier`,
/// and what is found carries that id.
pub proof fn lemma_find_supplier_some(s: Seq<Supplier>, supplier_id: i64)
    requires
        exists|j: int| 0 <= j < s.len() && (#[trigger] s[j]).supplier_id == supplier_id,
    ensures
        find_supplier(s, supplier_id) matches Some(sup) && sup.supplier_id == supplier_id,
    decreases s.len(),
{
    if s.len() > 0 && s[0].supplier_id != supplier_id {
        let j = choose|j: int| 0 <= j < s.len() && (#[trigger] s[j]).supplier_id == supplier_id;
        assert(s.skip(1)[j - 1] == s[j]);
        lemma_find_supplier_some(s.skip(1), supplier_id);
    }
}

} // verus!
