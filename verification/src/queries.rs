//! The query catalog: each operation is a pure function of a snapshot of
//! the base tables and its parameters, with defined absence semantics.

use vstd::prelude::*;
use crate::model::{
    Database, Date, MaterialCatalogEntry, PeriodParams, StorageUnit, Supplier, city_pred, count_if,
    find_material, find_supplier, first_unit_with_order, gated, group_pred, group_supplier_pred,
    lemma_count_if_pos, lemma_count_if_take_succ, lemma_element_le_sum, lemma_find_supplier_some,
    lemma_qty_fn_nonneg, lemma_sum_by_take_le, lemma_sum_by_take_succ,
    lemma_sum_filtered_le_total, lemma_sum_filtered_subset, lemma_sum_filtered_zero,
    lemma_u64_mul_fits_u128, lemma_value_fn_nonneg, material_pred, month_pred, period_pred, qty_fn,
    sum_by, sum_filtered, value_fn,
};
use crate::outcome::{AppError, ErrorKind};

verus! {

/// The name of one supplier.
#[derive(Debug, Clone, PartialEq)]
pub struct SupplierName {
    pub name: String,
}

/// A supplier serviced by one bank: name and optional tax identifier.
#[derive(Debug, Clone, PartialEq)]
pub struct SupplierBankInfo {
    pub name: String,
    pub tax_id: Option<String>,
}

/// How many suppliers one bank city services.
#[derive(Debug, Clone, PartialEq)]
pub struct BankSupplierCount {
    pub bank_address_city: String,
    pub supplier_count: u64,
}

/// One material of an assortment group: name and optional class code.
#[derive(Debug, Clone, PartialEq)]
pub struct MaterialAssortment {
    pub material_name: String,
    pub class_code: Option<String>,
}

/// The total monetary value over a period; absent when no ledger line
/// falls in the period.
#[derive(Debug, Clone, PartialEq)]
pub struct TotalAmount {
    pub total_amount: Option<u64>,
}

/// Stock of one material: total quantity and total value, in minor units.
#[derive(Debug, Clone, PartialEq)]
pub struct InventoryValue {
    pub material_name: String,
    pub total_quantity: u64,
    pub total_value: u64,
}

/// An exact ratio of minor-unit totals, with a positive denominator.
#[derive(Debug, Clone, Copy, PartialEq, Eq, Structural)]
pub struct Ratio {
    pub numerator: u64,
    pub denominator: u64,
}

/// A supplier's share within a group; absent when the group total is zero
/// or the group has no ledger lines (an undefined ratio, not an error).
#[derive(Debug, Clone, Copy, PartialEq, Eq, Structural)]
pub struct SupplierShare {
    pub supplier_share: Option<Ratio>,
}

/// The value received in one month of a year.
#[derive(Debug, Clone, Copy, PartialEq, Eq, Structural)]
pub struct MonthlyLoad {
    pub month: u8,
    pub monthly_value: u64,
}

/// The bank city (possibly absent) and monetary amount of one order line.
#[derive(Debug, Clone, PartialEq)]
pub struct OrderBankInfo {
    pub bank_address_city: Option<String>,
    pub total_amount: u64,
}

/// Name of the first supplier carrying the given tax identifier, in table
/// order.
pub open spec fn spec_supplier_name(s: Seq<Supplier>, key: Seq<char>) -> Option<SupplierName>
    decreases s.len(),
{
    if s.len() == 0 {
        None
    } else if s[0].tax_id matches Some(t) && t@ == key {
        Some(SupplierName { name: s[0].name })
    } else {
        spec_supplier_name(s.skip(1), key)
    }
}

/// Suppliers whose bank city equals `city`, in table order.
pub open spec fn spec_suppliers_in_city(s: Seq<Supplier>, city: Seq<char>) -> Seq<SupplierBankInfo>
    decreases s.len(),
{
    if s.len() == 0 {
        Seq::empty()
    } else {
        spec_suppliers_in_city(s.drop_last(), city) + (if s.last().bank_address_city matches Some(c)
            && c@ == city {
            seq![(SupplierBankInfo { name: s.last().name, tax_id: s.last().tax_id })]
        } else {
            Seq::empty()
        })
    }
}

/// Materials of one assortment group, in catalog order.
pub open spec fn spec_materials_in_group(s: Seq<MaterialCatalogEntry>, group: Seq<char>) -> Seq<
    MaterialAssortment,
>
    decreases s.len(),
{
    if s.len() == 0 {
        Seq::empty()
    } else {
        spec_materials_in_group(s.drop_last(), group) + (if s.last().group_code@ == group {
            seq![(MaterialAssortment {
                material_name: s.last().material_name,
                class_code: s.last().class_code,
            })]
        } else {
            Seq::empty()
        })
    }
}

/// Clones an optional string, preserving the value exactly.
fn clone_opt_string(o: &Option<String>) -> (r: Option<String>)
    ensures
        r == *o,
{
    match o {
        Some(s) => Some(s.clone()),
        None => None,
    }
}

/// Looks up a supplier's legal name by tax identifier; absent identifiers
/// match nothing, and a missing supplier is a not-found outcome.
pub fn get_supplier_name_by_tax(db: &Database, tax_id: &str) -> (r: Result<SupplierName, AppError>)
    ensures
        spec_supplier_name(db.suppliers@, tax_id@) matches Some(n) ==> (r matches Ok(got) && got
            == n),
        spec_supplier_name(db.suppliers@, tax_id@) is None ==> (r matches Err(e) && e.kind
            == ErrorKind::NotFound),
{
    let key: String = tax_id.to_owned();
    let mut i: usize = 0;
    proof {
        assert(db.suppliers@.skip(0) =~= db.suppliers@);
    }
    while i < db.suppliers.len()
        invariant
            i <= db.suppliers@.len(),
            key@ == tax_id@,
            spec_supplier_name(db.suppliers@, tax_id@) == spec_supplier_name(
                db.suppliers@.skip(i as int),
                tax_id@,
            ),
        decreases db.suppliers@.len() - i,
    {
        let sup = &db.suppliers[i];
        proof {
            assert(db.suppliers@.skip(i as int)[0] == db.suppliers@[i as int]);
        }
        let matched = match &sup.tax_id {
            Some(t) => t.eq(&key),
            None => false,
        };
        if matched {
            return Ok(SupplierName { name: sup.name.clone() });
        }
        proof {
            assert(db.suppliers@.skip(i as int).skip(1) =~= db.suppliers@.skip(i as int + 1));
        }
        i += 1;
    }
    proof {
        assert(db.suppliers@.skip(i as int).len() == 0);
    }
    Err(AppError::not_found("Resource not found"))
}

/// Lists the suppliers serviced by banks of one city, in table order.  An
/// empty list is a valid success, not a not-found outcome.
pub fn get_suppliers_by_bank_city(db: &Database, city: &str) -> (r: Vec<SupplierBankInfo>)
    ensures
        r@ == spec_suppliers_in_city(db.suppliers@, city@),
{
    let key: String = city.to_owned();
    let mut out: Vec<SupplierBankInfo> = Vec::new();
    let mut i: usize = 0;
    proof {
        assert(db.suppliers@.take(0) =~= Seq::<Supplier>::empty());
    }
    while i < db.suppliers.len()
        invariant
            i <= db.suppliers@.len(),
            key@ == city@,
            out@ == spec_suppliers_in_city(db.suppliers@.take(i as int), city@),
        decreases db.suppliers@.len() - i,
    {
        let sup = &db.suppliers[i];
        proof {
            assert(db.suppliers@.take(i as int + 1).drop_last() =~= db.suppliers@.take(i as int));
            assert(db.suppliers@.take(i as int + 1).last() == db.suppliers@[i as int]);
        }
        let matched = match &sup.bank_address_city {
            Some(c) => c.eq(&key),
            None => false,
        };
        if matched {
            let row = SupplierBankInfo { name: sup.name.clone(), tax_id: clone_opt_string(
                &sup.tax_id,
            ) };
            out.push(row);
            proof {
                assert(out@ =~= spec_suppliers_in_city(db.suppliers@.take(i as int + 1), city@));
            }
        } else {
            proof {
                assert(out@ =~= spec_suppliers_in_city(db.suppliers@.take(i as int + 1), city@));
            }
        }
        i += 1;
    }
    proof {
        assert(db.suppliers@.take(i as int) =~= db.suppliers@);
    }
    out
}

/// Lists the assortment of one material group, in catalog order.
pub fn get_materials_by_group(db: &Database, group_code: &str) -> (r: Vec<MaterialAssortment>)
    ensures
        r@ == spec_materials_in_group(db.materials@, group_code@),
{
    let key: String = group_code.to_owned();
    let mut out: Vec<MaterialAssortment> = Vec::new();
    let mut i: usize = 0;
    proof {
        assert(db.materials@.take(0) =~= Seq::<MaterialCatalogEntry>::empty());
    }
    while i < db.materials.len()
        invariant
            i <= db.materials@.len(),
            key@ == group_code@,
            out@ == spec_materials_in_group(db.materials@.take(i as int), group_code@),
        decreases db.materials@.len() - i,
    {
        let m = &db.materials[i];
        proof {
            assert(db.materials@.take(i as int + 1).drop_last() =~= db.materials@.take(i as int));
            assert(db.materials@.take(i as int + 1).last() == db.materials@[i as int]);
        }
        if m.group_code.eq(&key) {
            let row = MaterialAssortment { material_name: m.material_name.clone(), class_code:
                clone_opt_string(&m.class_code) };
            out.push(row);
            proof {
                assert(out@ =~= spec_materials_in_group(db.materials@.take(i as int + 1), group_code@));
            }
        } else {
            proof {
                assert(out@ =~= spec_materials_in_group(db.materials@.take(i as int + 1), group_code@));
            }
        }
        i += 1;
    }
    proof {
        assert(db.materials@.take(i as int) =~= db.materials@);
    }
    out
}

/// Count of period lines and their summed value, over the whole ledger.
fn period_totals(units: &Vec<StorageUnit>, start: Date, end: Date) -> (r: (u64, u64))
    requires
        sum_by(units@, value_fn()) <= u64::MAX as int,
    ensures
        r.0 as int == count_if(units@, period_pred(start, end)),
        r.1 as int == sum_filtered(units@, period_pred(start, end), value_fn()),
{
    let ghost p = period_pred(start, end);
    let mut count: u64 = 0;
    let mut total: u128 = 0;
    let mut i: usize = 0;
    proof {
        assert(units@.take(0) =~= Seq::<StorageUnit>::empty());
        lemma_value_fn_nonneg();
    }
    while i < units.len()
        invariant
            i <= units@.len(),
            p == period_pred(start, end),
            sum_by(units@, value_fn()) <= u64::MAX as int,
            count as int == count_if(units@.take(i as int), p),
            count as int <= i as int,
            total as int == sum_filtered(units@.take(i as int), p, value_fn()),
            total as int <= u64::MAX as int,
        decreases units@.len() - i,
    {
        let u = &units[i];
        proof {
            lemma_value_fn_nonneg();
            lemma_count_if_take_succ(units@, p, i as int);
            lemma_sum_by_take_succ(units@, gated(p, value_fn()), i as int);
            assert(forall|x: StorageUnit| 0 <= #[trigger] gated(p, value_fn())(x));
            lemma_sum_by_take_le(units@, gated(p, value_fn()), i as int + 1);
            lemma_sum_filtered_le_total(units@, p, value_fn());
            lemma_u64_mul_fits_u128(u.quantity, u.unit_price);
        }
        let matched = start.le(u.date) && u.date.le(end);
        proof {
            assert(matched == p(units@[i as int]));
        }
        if matched {
            count = count + 1;
            let v: u128 = (u.quantity as u128) * (u.unit_price as u128);
            proof {
                assert(v as int == value_fn()(units@[i as int]));
            }
            total = total + v;
        }
        i += 1;
    }
    proof {
        assert(units@.take(i as int) =~= units@);
    }
    (count, total as u64)
}

/// Sums quantity × unit price over the ledger lines whose date lies in
/// the inclusive period.  Zero matching lines yield an absent total, not
/// zero.
pub fn get_total_spent_by_period(db: &Database, params: &PeriodParams) -> (r: TotalAmount)
    requires
        db.wf(),
    ensures
        count_if(db.storage_units@, period_pred(params.start, params.end)) == 0 ==> r.total_amount
            is None,
        count_if(db.storage_units@, period_pred(params.start, params.end)) > 0 ==> (r.total_amount
            matches Some(t) && t as int == sum_filtered(
            db.storage_units@,
            period_pred(params.start, params.end),
            value_fn(),
        )),
{
    let (count, total) = period_totals(&db.storage_units, params.start, params.end);
    if count == 0 {
        TotalAmount { total_amount: None }
    } else {
        TotalAmount { total_amount: Some(total) }
    }
}

/// The withdrawn-materials report is a known, addressable capability that
/// is not implemented: the outcome is a distinct not-implemented failure,
/// never a generic one.
pub fn get_withdrawn_materials(_db: &Database, _params: &PeriodParams) -> (r: Result<
    Vec<String>,
    AppError,
>)
    ensures
        r matches Err(e) && e.kind == ErrorKind::NotImplemented,
{
    Err(AppError::not_implemented("Withdrawn-materials report is not implemented"))
}

/// Decides whether a material id belongs to the catalog and carries the
/// given group code.
fn material_group_matches(
    materials: &Vec<MaterialCatalogEntry>,
    material_id: i64,
    group: &String,
) -> (r: bool)
    ensures
        r == (find_material(materials@, material_id) matches Some(m) && m.group_code@ == group@),
{
    let mut i: usize = 0;
    proof {
        assert(materials@.skip(0) =~= materials@);
    }
    while i < materials.len()
        invariant
            i <= materials@.len(),
            find_material(materials@, material_id) == find_material(
                materials@.skip(i as int),
                material_id,
            ),
        decreases materials@.len() - i,
    {
        let m = &materials[i];
        proof {
            assert(materials@.skip(i as int)[0] == materials@[i as int]);
        }
        if m.material_id == material_id {
            return m.group_code.eq(group);
        }
        proof {
            assert(materials@.skip(i as int).skip(1) =~= materials@.skip(i as int + 1));
        }
        i += 1;
    }
    proof {
        assert(materials@.skip(i as int).len() == 0);
    }
    false
}

/// The group's total value and one supplier's value within it.
fn group_totals(
    units: &Vec<StorageUnit>,
    materials: &Vec<MaterialCatalogEntry>,
    group: &String,
    supplier_id: i64,
) -> (r: (u64, u64))
    requires
        sum_by(units@, value_fn()) <= u64::MAX as int,
    ensures
        r.0 as int == sum_filtered(units@, group_pred(materials@, group@), value_fn()),
        r.1 as int == sum_filtered(
            units@,
            group_supplier_pred(materials@, group@, supplier_id),
            value_fn(),
        ),
{
    let ghost gp = group_pred(materials@, group@);
    let ghost sp = group_supplier_pred(materials@, group@, supplier_id);
    let mut group_total: u128 = 0;
    let mut supplier_total: u128 = 0;
    let mut i: usize = 0;
    proof {
        assert(units@.take(0) =~= Seq::<StorageUnit>::empty());
        lemma_value_fn_nonneg();
    }
    while i < units.len()
        invariant
            i <= units@.len(),
            gp == group_pred(materials@, group@),
            sp == group_supplier_pred(materials@, group@, supplier_id),
            sum_by(units@, value_fn()) <= u64::MAX as int,
            group_total as int == sum_filtered(units@.take(i as int), gp, value_fn()),
            supplier_total as int == sum_filtered(units@.take(i as int), sp, value_fn()),
            group_total as int <= u64::MAX as int,
            supplier_total as int <= u64::MAX as int,
        decreases units@.len() - i,
    {
        let u = &units[i];
        proof {
            lemma_value_fn_nonneg();
            lemma_sum_by_take_succ(units@, gated(gp, value_fn()), i as int);
            lemma_sum_by_take_succ(units@, gated(sp, value_fn()), i as int);
            assert(forall|x: StorageUnit| 0 <= #[trigger] gated(gp, value_fn())(x));
            assert(forall|x: StorageUnit| 0 <= #[trigger] gated(sp, value_fn())(x));
            lemma_sum_by_take_le(units@, gated(gp, value_fn()), i as int + 1);
            lemma_sum_by_take_le(units@, gated(sp, value_fn()), i as int + 1);
            lemma_sum_filtered_le_total(units@, gp, value_fn());
            lemma_sum_filtered_le_total(units@, sp, value_fn());
            lemma_u64_mul_fits_u128(u.quantity, u.unit_price);
        }
        let in_group = material_group_matches(materials, u.material_id, group);
        proof {
            assert(in_group == gp(units@[i as int]));
            assert((in_group && u.supplier_id == supplier_id) == sp(units@[i as int]));
        }
        if in_group {
            let v: u128 = (u.quantity as u128) * (u.unit_price as u128);
            proof {
                assert(v as int == value_fn()(units@[i as int]));
            }
            group_total = group_total + v;
            if u.supplier_id == supplier_id {
                supplier_total = supplier_total + v;
            }
        }
        i += 1;
    }
    proof {
        assert(units@.take(i as int) =~= units@);
    }
    (group_total as u64, supplier_total as u64)
}

/// The supplier's share of one assortment group's received value: the
/// supplier's value within the group over the group's total value.  When
/// the group total is zero or the group has no lines, the ratio is an
/// explicit absent value, never a division error; a supplier with no lines
/// in a positive group gets a numerator of exactly zero.
pub fn get_supplier_share(db: &Database, supplier_id: i64, group_code: &str) -> (r: SupplierShare)
    requires
        db.wf(),
    ensures
        sum_filtered(db.storage_units@, group_pred(db.materials@, group_code@), value_fn()) == 0
            ==> r.supplier_share is None,
        sum_filtered(db.storage_units@, group_pred(db.materials@, group_code@), value_fn()) > 0
            ==> (r.supplier_share matches Some(rat) && rat.denominator as int == sum_filtered(
            db.storage_units@,
            group_pred(db.materials@, group_code@),
            value_fn(),
        ) && rat.numerator as int == sum_filtered(
            db.storage_units@,
            group_supplier_pred(db.materials@, group_code@, supplier_id),
            value_fn(),
        )),
{
    let key: String = group_code.to_owned();
    let (group_total, supplier_total) = group_totals(
        &db.storage_units,
        &db.materials,
        &key,
        supplier_id,
    );
    if group_total == 0 {
        SupplierShare { supplier_share: None }
    } else {
        SupplierShare {
            supplier_share: Some(Ratio { numerator: supplier_total, denominator: group_total }),
        }
    }
}

/// A supplier with no ledger lines in a group contributes exactly zero to
/// that group: the share numerator of such a supplier is zero.
pub proof fn lemma_share_of_absent_supplier(db: Database, supplier_id: i64, group: Seq<char>)
    requires
        count_if(db.storage_units@, group_supplier_pred(db.materials@, group, supplier_id)) == 0,
    ensures
        sum_filtered(
            db.storage_units@,
            group_supplier_pred(db.materials@, group, supplier_id),
            value_fn(),
        ) == 0,
{
    lemma_sum_filtered_zero(
        db.storage_units@,
        group_supplier_pred(db.materials@, group, supplier_id),
        value_fn(),
    );
}

/// A supplier's value within a group never exceeds the group's total: a
/// defined share is at most one.
pub proof fn lemma_share_at_most_one(db: Database, supplier_id: i64, group: Seq<char>)
    ensures
        sum_filtered(
            db.storage_units@,
            group_supplier_pred(db.materials@, group, supplier_id),
            value_fn(),
        ) <= sum_filtered(db.storage_units@, group_pred(db.materials@, group), value_fn()),
{
    lemma_value_fn_nonneg();
    assert(forall|u: StorageUnit|
        #[trigger] group_supplier_pred(db.materials@, group, supplier_id)(u)
            ==> #[trigger] group_pred(db.materials@, group)(u));
    lemma_sum_filtered_subset(
        db.storage_units@,
        group_supplier_pred(db.materials@, group, supplier_id),
        group_pred(db.materials@, group),
        value_fn(),
    );
}

/// Count and summed value of the lines dated in one month of one year.
fn month_totals(units: &Vec<StorageUnit>, year: i32, month: u8) -> (r: (u64, u64))
    requires
        sum_by(units@, value_fn()) <= u64::MAX as int,
    ensures
        r.0 as int == count_if(units@, month_pred(year, month)),
        r.1 as int == sum_filtered(units@, month_pred(year, month), value_fn()),
{
    let ghost p = month_pred(year, month);
    let mut count: u64 = 0;
    let mut total: u128 = 0;
    let mut i: usize = 0;
    proof {
        assert(units@.take(0) =~= Seq::<StorageUnit>::empty());
        lemma_value_fn_nonneg();
    }
    while i < units.len()
        invariant
            i <= units@.len(),
            p == month_pred(year, month),
            sum_by(units@, value_fn()) <= u64::MAX as int,
            count as int == count_if(units@.take(i as int), p),
            count as int <= i as int,
            total as int == sum_filtered(units@.take(i as int), p, value_fn()),
            total as int <= u64::MAX as int,
        decreases units@.len() - i,
    {
        let u = &units[i];
        proof {
            lemma_value_fn_nonneg();
            lemma_count_if_take_succ(units@, p, i as int);
            lemma_sum_by_take_succ(units@, gated(p, value_fn()), i as int);
            assert(forall|x: StorageUnit| 0 <= #[trigger] gated(p, value_fn())(x));
            lemma_sum_by_take_le(units@, gated(p, value_fn()), i as int + 1);
            lemma_sum_filtered_le_total(units@, p, value_fn());
            lemma_u64_mul_fits_u128(u.quantity, u.unit_price);
        }
        let matched = u.date.year == year && u.date.month == month;
        proof {
            assert(matched == p(units@[i as int]));
        }
        if matched {
            count = count + 1;
            let v: u128 = (u.quantity as u128) * (u.unit_price as u128);
            proof {
                assert(v as int == value_fn()(units@[i as int]));
            }
            total = total + v;
        }
        i += 1;
    }
    proof {
        assert(units@.take(i as int) =~= units@);
    }
    (count, total as u64)
}

/// The warehouse load of one year, month by month in ascending order.
/// Only months with at least one ledger line appear; a listed month's
/// value is the summed value of its lines.
pub fn get_monthly_load(db: &Database, year: i32) -> (r: Vec<MonthlyLoad>)
    requires
        db.wf(),
    ensures
        forall|i: int|
            0 <= i < r@.len() ==> {
                &&& 1 <= (#[trigger] r@[i]).month <= 12
                &&& count_if(db.storage_units@, month_pred(year, r@[i].month)) > 0
                &&& r@[i].monthly_value as int == sum_filtered(
                    db.storage_units@,
                    month_pred(year, r@[i].month),
                    value_fn(),
                )
            },
        forall|i: int, j: int| 0 <= i < j < r@.len() ==> r@[i].month < r@[j].month,
        forall|m: u8|
            1 <= m <= 12 && count_if(db.storage_units@, month_pred(year, m)) > 0 ==> exists|i: int|
                0 <= i < r@.len() && (#[trigger] r@[i]).month == m,
{
    let mut out: Vec<MonthlyLoad> = Vec::new();
    let mut m: u8 = 1;
    while m <= 12
        invariant
            1 <= m <= 13,
            db.wf(),
            forall|i: int|
                0 <= i < out@.len() ==> {
                    &&& 1 <= (#[trigger] out@[i]).month < m
                    &&& count_if(db.storage_units@, month_pred(year, out@[i].month)) > 0
                    &&& out@[i].monthly_value as int == sum_filtered(
                        db.storage_units@,
                        month_pred(year, out@[i].month),
                        value_fn(),
                    )
                },
            forall|i: int, j: int| 0 <= i < j < out@.len() ==> out@[i].month < out@[j].month,
            forall|k: u8|
                1 <= k < m && count_if(db.storage_units@, month_pred(year, k)) > 0 ==> exists|
                    i: int,
                |
                    0 <= i < out@.len() && (#[trigger] out@[i]).month == k,
        decreases 13 - m,
    {
        let (count, total) = month_totals(&db.storage_units, year, m);
        let ghost prev = out@;
        if count > 0 {
            out.push(MonthlyLoad { month: m, monthly_value: total });
        }
        proof {
            assert forall|k: u8|
                1 <= k < m + 1 && count_if(db.storage_units@, month_pred(year, k)) > 0 implies exists|
                i: int,
            | 0 <= i < out@.len() && (#[trigger] out@[i]).month == k by {
                if k < m {
                    let i = choose|i: int|
                        0 <= i < prev.len() && (#[trigger] prev[i]).month == k;
                    assert(out@[i].month == k);
                } else {
                    assert(out@[out@.len() - 1].month == m);
                }
            }
        }
        m += 1;
    }
    out
}

/// The bank city of a supplier row, as a view, where present.
pub open spec fn city_of(s: Supplier) -> Option<Seq<char>> {
    match s.bank_address_city {
        Some(c) => Some(c@),
        None => None,
    }
}

/// Whether some row lists the given city.
pub open spec fn city_listed(rows: Seq<BankSupplierCount>, city: Seq<char>) -> bool {
    exists|i: int| 0 <= i < rows.len() && (#[trigger] rows[i]).bank_address_city@ == city
}

/// A correct count row: its count is the exact number of suppliers with
/// that bank city, and it is positive.
pub open spec fn bank_row_ok(suppliers: Seq<Supplier>, row: BankSupplierCount) -> bool {
    &&& row.supplier_count as int == count_if(suppliers, city_pred(row.bank_address_city@))
    &&& row.supplier_count > 0
}

/// No two rows list the same city.
pub open spec fn cities_distinct(rows: Seq<BankSupplierCount>) -> bool {
    forall|i: int, j: int|
        0 <= i < j < rows.len() ==> (#[trigger] rows[i]).bank_address_city@ != (
        #[trigger] rows[j]).bank_address_city@
}

/// No city is listed by both row lists.
pub open spec fn cities_disjoint(a: Seq<BankSupplierCount>, b: Seq<BankSupplierCount>) -> bool {
    forall|i: int, j: int|
        0 <= i < a.len() && 0 <= j < b.len() ==> (#[trigger] a[i]).bank_address_city@ != (
        #[trigger] b[j]).bank_address_city@
}

/// Decides whether a city is already listed among the rows.
fn city_already_listed(rows: &Vec<BankSupplierCount>, city: &String) -> (r: bool)
    ensures
        r == city_listed(rows@, city@),
{
    let mut i: usize = 0;
    while i < rows.len()
        invariant
            i <= rows@.len(),
            forall|j: int| 0 <= j < i ==> (#[trigger] rows@[j]).bank_address_city@ != city@,
        decreases rows@.len() - i,
    {
        if rows[i].bank_address_city.eq(city) {
            proof {
                assert(rows@[i as int].bank_address_city@ == city@);
            }
            return true;
        }
        i += 1;
    }
    false
}

/// Counts the suppliers serviced from one bank city.
fn count_city(suppliers: &Vec<Supplier>, city: &String) -> (r: u64)
    ensures
        r as int == count_if(suppliers@, city_pred(city@)),
{
    let ghost p = city_pred(city@);
    let mut count: u64 = 0;
    let mut i: usize = 0;
    proof {
        assert(suppliers@.take(0) =~= Seq::<Supplier>::empty());
    }
    while i < suppliers.len()
        invariant
            i <= suppliers@.len(),
            p == city_pred(city@),
            count as int == count_if(suppliers@.take(i as int), p),
            count as int <= i as int,
        decreases suppliers@.len() - i,
    {
        let sup = &suppliers[i];
        proof {
            lemma_count_if_take_succ(suppliers@, p, i as int);
        }
        let matched = match &sup.bank_address_city {
            Some(c) => c.eq(city),
            None => false,
        };
        proof {
            assert(matched == p(suppliers@[i as int]));
        }
        if matched {
            count = count + 1;
        }
        i += 1;
    }
    proof {
        assert(suppliers@.take(i as int) =~= suppliers@);
    }
    count
}

/// Index of a row with maximal supplier count.
fn max_count_index(rows: &Vec<BankSupplierCount>) -> (r: usize)
    requires
        rows@.len() > 0,
    ensures
        r < rows@.len(),
        forall|j: int|
            0 <= j < rows@.len() ==> (#[trigger] rows@[j]).supplier_count <= rows@[r as int].supplier_count,
{
    let mut best: usize = 0;
    let mut i: usize = 1;
    while i < rows.len()
        invariant
            best < rows@.len(),
            i <= rows@.len(),
            forall|j: int|
                0 <= j < i ==> (#[trigger] rows@[j]).supplier_count <= rows@[best as int].supplier_count,
        decreases rows@.len() - i,
    {
        if rows[i].supplier_count > rows[best].supplier_count {
            best = i;
        }
        i += 1;
    }
    best
}

/// Counts, for each bank city that services at least one supplier, the
/// suppliers it services, ordered by count descending.  Suppliers with an
/// absent bank city are not counted; each city appears exactly once.
pub fn get_suppliers_per_bank(db: &Database) -> (r: Vec<BankSupplierCount>)
    ensures
        forall|i: int| 0 <= i < r@.len() ==> bank_row_ok(db.suppliers@, #[trigger] r@[i]),
        forall|i: int, j: int|
            0 <= i < j < r@.len() ==> (#[trigger] r@[i]).supplier_count >= (
            #[trigger] r@[j]).supplier_count,
        cities_distinct(r@),
        forall|t: int|
            0 <= t < db.suppliers@.len() ==> (city_of(#[trigger] db.suppliers@[t]) matches Some(cv)
                ==> city_listed(r@, cv)),
{
    let mut rows: Vec<BankSupplierCount> = Vec::new();
    let mut k: usize = 0;
    while k < db.suppliers.len()
        invariant
            k <= db.suppliers@.len(),
            forall|i: int| 0 <= i < rows@.len() ==> bank_row_ok(db.suppliers@, #[trigger] rows@[i]),
            cities_distinct(rows@),
            forall|t: int|
                0 <= t < k ==> (city_of(#[trigger] db.suppliers@[t]) matches Some(cv)
                    ==> city_listed(rows@, cv)),
        decreases db.suppliers@.len() - k,
    {
        let ghost prev = rows@;
        let sup = &db.suppliers[k];
        match &sup.bank_address_city {
            Some(c) => {
                let listed = city_already_listed(&rows, c);
                if !listed {
                    let n = count_city(&db.suppliers, c);
                    proof {
                        assert(city_pred(c@)(db.suppliers@[k as int]));
                        lemma_count_if_pos(db.suppliers@, city_pred(c@), k as int);
                    }
                    rows.push(
                        BankSupplierCount { bank_address_city: c.clone(), supplier_count: n },
                    );
                    proof {
                        assert(rows@[rows@.len() - 1].bank_address_city@ == c@);
                        assert(city_listed(rows@, c@));
                    }
                } else {
                    proof {
                        assert(city_listed(rows@, c@));
                    }
                }
            },
            None => {},
        }
        proof {
            assert forall|t: int| 0 <= t < k + 1 implies (city_of(#[trigger] db.suppliers@[t])
                matches Some(cv) ==> city_listed(rows@, cv)) by {
                match city_of(db.suppliers@[t]) {
                    Some(cv) => {
                        if t < k {
                            assert(city_listed(prev, cv));
                            let i = choose|i: int|
                                0 <= i < prev.len() && (#[trigger] prev[i]).bank_address_city@
                                    == cv;
                            assert(rows@[i].bank_address_city@ == cv);
                        }
                    },
                    None => {},
                }
            }
        }
        k += 1;
    }
    let mut out: Vec<BankSupplierCount> = Vec::new();
    while rows.len() > 0
        invariant
            forall|i: int| 0 <= i < out@.len() ==> bank_row_ok(db.suppliers@, #[trigger] out@[i]),
            forall|i: int| 0 <= i < rows@.len() ==> bank_row_ok(db.suppliers@, #[trigger] rows@[i]),
            forall|i: int, j: int|
                0 <= i < j < out@.len() ==> (#[trigger] out@[i]).supplier_count >= (
                #[trigger] out@[j]).supplier_count,
            forall|i: int, j: int|
                0 <= i < out@.len() && 0 <= j < rows@.len() ==> (
                #[trigger] out@[i]).supplier_count >= (#[trigger] rows@[j]).supplier_count,
            cities_distinct(out@),
            cities_distinct(rows@),
            cities_disjoint(out@, rows@),
            forall|t: int|
                0 <= t < db.suppliers@.len() ==> (city_of(#[trigger] db.suppliers@[t])
                    matches Some(cv) ==> city_listed(out@, cv) || city_listed(rows@, cv)),
        decreases rows@.len(),
    {
        let idx = max_count_index(&rows);
        let ghost prev_rows = rows@;
        let ghost prev_out = out@;
        let row = rows.remove(idx);
        out.push(row);
        proof {
            prev_rows.remove_ensures(idx as int);
            assert forall|t: int| 0 <= t < db.suppliers@.len() implies (city_of(
                #[trigger] db.suppliers@[t],
            ) matches Some(cv) ==> city_listed(out@, cv) || city_listed(rows@, cv)) by {
                match city_of(db.suppliers@[t]) {
                    Some(cv) => {
                        if city_listed(prev_out, cv) {
                            let i = choose|i: int|
                                0 <= i < prev_out.len() && (
                                #[trigger] prev_out[i]).bank_address_city@ == cv;
                            assert(out@[i].bank_address_city@ == cv);
                        } else if city_listed(prev_rows, cv) {
                            let i = choose|i: int|
                                0 <= i < prev_rows.len() && (
                                #[trigger] prev_rows[i]).bank_address_city@ == cv;
                            if i == idx {
                                assert(out@[out@.len() - 1].bank_address_city@ == cv);
                            } else if i < idx {
                                assert(rows@[i].bank_address_city@ == cv);
                            } else {
                                assert(rows@[i - 1].bank_address_city@ == cv);
                            }
                        }
                    },
                    None => {},
                }
            }
        }
    }
    proof {
        assert forall|t: int| 0 <= t < db.suppliers@.len() implies (city_of(
            #[trigger] db.suppliers@[t],
        ) matches Some(cv) ==> city_listed(out@, cv)) by {
            match city_of(db.suppliers@[t]) {
                Some(cv) => {
                    assert(!city_listed(rows@, cv));
                },
                None => {},
            }
        }
    }
    out
}

/// Count, total quantity and total value of the lines of one material.
fn material_totals(units: &Vec<StorageUnit>, material_id: i64) -> (r: (u64, u64, u64))
    requires
        sum_by(units@, value_fn()) <= u64::MAX as int,
        sum_by(units@, qty_fn()) <= u64::MAX as int,
    ensures
        r.0 as int == count_if(units@, material_pred(material_id)),
        r.1 as int == sum_filtered(units@, material_pred(material_id), qty_fn()),
        r.2 as int == sum_filtered(units@, material_pred(material_id), value_fn()),
{
    let ghost p = material_pred(material_id);
    let mut count: u64 = 0;
    let mut qty: u128 = 0;
    let mut total: u128 = 0;
    let mut i: usize = 0;
    proof {
        assert(units@.take(0) =~= Seq::<StorageUnit>::empty());
        lemma_value_fn_nonneg();
        lemma_qty_fn_nonneg();
    }
    while i < units.len()
        invariant
            i <= units@.len(),
            p == material_pred(material_id),
            sum_by(units@, value_fn()) <= u64::MAX as int,
            sum_by(units@, qty_fn()) <= u64::MAX as int,
            count as int == count_if(units@.take(i as int), p),
            count as int <= i as int,
            qty as int == sum_filtered(units@.take(i as int), p, qty_fn()),
            qty as int <= u64::MAX as int,
            total as int == sum_filtered(units@.take(i as int), p, value_fn()),
            total as int <= u64::MAX as int,
        decreases units@.len() - i,
    {
        let u = &units[i];
        proof {
            lemma_value_fn_nonneg();
            lemma_qty_fn_nonneg();
            lemma_count_if_take_succ(units@, p, i as int);
            lemma_sum_by_take_succ(units@, gated(p, value_fn()), i as int);
            lemma_sum_by_take_succ(units@, gated(p, qty_fn()), i as int);
            assert(forall|x: StorageUnit| 0 <= #[trigger] gated(p, value_fn())(x));
            assert(forall|x: StorageUnit| 0 <= #[trigger] gated(p, qty_fn())(x));
            lemma_sum_by_take_le(units@, gated(p, value_fn()), i as int + 1);
            lemma_sum_by_take_le(units@, gated(p, qty_fn()), i as int + 1);
            lemma_sum_filtered_le_total(units@, p, value_fn());
            lemma_sum_filtered_le_total(units@, p, qty_fn());
            lemma_u64_mul_fits_u128(u.quantity, u.unit_price);
        }
        if u.material_id == material_id {
            count = count + 1;
            qty = qty + (u.quantity as u128);
            let v: u128 = (u.quantity as u128) * (u.unit_price as u128);
            proof {
                assert(v as int == value_fn()(units@[i as int]));
            }
            total = total + v;
        }
        i += 1;
    }
    proof {
        assert(units@.take(i as int) =~= units@);
    }
    (count, qty as u64, total as u64)
}

/// Materials with at least one ledger line.
pub open spec fn stocked_pred(units: Seq<StorageUnit>) -> spec_fn(MaterialCatalogEntry) -> bool {
    |m: MaterialCatalogEntry| count_if(units, material_pred(m.material_id)) > 0
}

/// A row that correctly reports one catalog entry's stock: its name, its
/// exact total quantity and total value, with at least one ledger line.
pub open spec fn inv_row_for(
    units: Seq<StorageUnit>,
    m: MaterialCatalogEntry,
    row: InventoryValue,
) -> bool {
    &&& row.material_name == m.material_name
    &&& row.total_quantity as int == sum_filtered(units, material_pred(m.material_id), qty_fn())
    &&& row.total_value as int == sum_filtered(units, material_pred(m.material_id), value_fn())
    &&& count_if(units, material_pred(m.material_id)) > 0
}

/// A row that reports some stocked catalog entry.
pub open spec fn inv_row_ok(db: Database, row: InventoryValue) -> bool {
    exists|k: int|
        0 <= k < db.materials@.len() && inv_row_for(db.storage_units@, #[trigger] db.materials@[k], row)
}

/// Index of a row with maximal total value.
fn max_value_index(rows: &Vec<InventoryValue>) -> (r: usize)
    requires
        rows@.len() > 0,
    ensures
        r < rows@.len(),
        forall|j: int|
            0 <= j < rows@.len() ==> (#[trigger] rows@[j]).total_value <= rows@[r as int].total_value,
{
    let mut best: usize = 0;
    let mut i: usize = 1;
    while i < rows.len()
        invariant
            best < rows@.len(),
            i <= rows@.len(),
            forall|j: int|
                0 <= j < i ==> (#[trigger] rows@[j]).total_value <= rows@[best as int].total_value,
        decreases rows@.len() - i,
    {
        if rows[i].total_value > rows[best].total_value {
            best = i;
        }
        i += 1;
    }
    best
}

/// Values the current inventory material by material: for every catalog
/// entry with at least one ledger line, its total stocked quantity and
/// total value, ordered by total value descending.  Materials with no
/// ledger lines are excluded, never zero-valued.
pub fn get_current_inventory_value(db: &Database) -> (r: Vec<InventoryValue>)
    requires
        db.wf(),
    ensures
        forall|i: int| 0 <= i < r@.len() ==> inv_row_ok(*db, #[trigger] r@[i]),
        forall|i: int, j: int|
            0 <= i < j < r@.len() ==> (#[trigger] r@[i]).total_value >= (
            #[trigger] r@[j]).total_value,
        r@.len() == count_if(db.materials@, stocked_pred(db.storage_units@)),
        forall|k: int|
            0 <= k < db.materials@.len() && stocked_pred(db.storage_units@)(
                #[trigger] db.materials@[k],
            ) ==> exists|i: int|
                0 <= i < r@.len() && inv_row_for(
                    db.storage_units@,
                    db.materials@[k],
                    #[trigger] r@[i],
                ),
{
    let ghost sp = stocked_pred(db.storage_units@);
    let mut rows: Vec<InventoryValue> = Vec::new();
    let mut k: usize = 0;
    proof {
        assert(db.materials@.take(0) =~= Seq::<MaterialCatalogEntry>::empty());
    }
    while k < db.materials.len()
        invariant
            k <= db.materials@.len(),
            db.wf(),
            sp == stocked_pred(db.storage_units@),
            forall|i: int| 0 <= i < rows@.len() ==> inv_row_ok(*db, #[trigger] rows@[i]),
            rows@.len() == count_if(db.materials@.take(k as int), sp),
            forall|t: int|
                0 <= t < k && sp(#[trigger] db.materials@[t]) ==> exists|i: int|
                    0 <= i < rows@.len() && inv_row_for(
                        db.storage_units@,
                        db.materials@[t],
                        #[trigger] rows@[i],
                    ),
        decreases db.materials@.len() - k,
    {
        let ghost prev = rows@;
        let m = &db.materials[k];
        proof {
            lemma_count_if_take_succ(db.materials@, sp, k as int);
        }
        let (count, qty, total) = material_totals(&db.storage_units, m.material_id);
        if count > 0 {
            rows.push(
                InventoryValue {
                    material_name: m.material_name.clone(),
                    total_quantity: qty,
                    total_value: total,
                },
            );
            proof {
                assert(inv_row_for(db.storage_units@, db.materials@[k as int], rows@[rows@.len() - 1]));
                assert(inv_row_ok(*db, rows@[rows@.len() - 1]));
            }
        }
        proof {
            assert forall|t: int| 0 <= t < k + 1 && sp(#[trigger] db.materials@[t]) implies exists|
                i: int,
            |
                0 <= i < rows@.len() && inv_row_for(
                    db.storage_units@,
                    db.materials@[t],
                    #[trigger] rows@[i],
                ) by {
                if t < k {
                    let i = choose|i: int|
                        0 <= i < prev.len() && inv_row_for(
                            db.storage_units@,
                            db.materials@[t],
                            #[trigger] prev[i],
                        );
                    assert(inv_row_for(db.storage_units@, db.materials@[t], rows@[i]));
                } else {
                    assert(inv_row_for(db.storage_units@, db.materials@[t], rows@[rows@.len() - 1]));
                }
            }
        }
        k += 1;
    }
    proof {
        assert(db.materials@.take(k as int) =~= db.materials@);
    }
    let ghost total_rows: int = rows@.len() as int;
    let mut out: Vec<InventoryValue> = Vec::new();
    while rows.len() > 0
        invariant
            db.wf(),
            sp == stocked_pred(db.storage_units@),
            out@.len() + rows@.len() == total_rows,
            total_rows == count_if(db.materials@, sp),
            forall|i: int| 0 <= i < out@.len() ==> inv_row_ok(*db, #[trigger] out@[i]),
            forall|i: int| 0 <= i < rows@.len() ==> inv_row_ok(*db, #[trigger] rows@[i]),
            forall|i: int, j: int|
                0 <= i < j < out@.len() ==> (#[trigger] out@[i]).total_value >= (
                #[trigger] out@[j]).total_value,
            forall|i: int, j: int|
                0 <= i < out@.len() && 0 <= j < rows@.len() ==> (#[trigger] out@[i]).total_value
                    >= (#[trigger] rows@[j]).total_value,
            forall|t: int|
                0 <= t < db.materials@.len() && sp(#[trigger] db.materials@[t]) ==> (exists|i: int|
                    0 <= i < out@.len() && inv_row_for(
                        db.storage_units@,
                        db.materials@[t],
                        #[trigger] out@[i],
                    )) || (exists|i: int|
                    0 <= i < rows@.len() && inv_row_for(
                        db.storage_units@,
                        db.materials@[t],
                        #[trigger] rows@[i],
                    )),
        decreases rows@.len(),
    {
        let idx = max_value_index(&rows);
        let ghost prev_rows = rows@;
        let ghost prev_out = out@;
        let row = rows.remove(idx);
        out.push(row);
        proof {
            prev_rows.remove_ensures(idx as int);
            assert forall|t: int|
                0 <= t < db.materials@.len() && sp(#[trigger] db.materials@[t]) implies (exists|
                i: int,
            |
                0 <= i < out@.len() && inv_row_for(
                    db.storage_units@,
                    db.materials@[t],
                    #[trigger] out@[i],
                )) || (exists|i: int|
                0 <= i < rows@.len() && inv_row_for(
                    db.storage_units@,
                    db.materials@[t],
                    #[trigger] rows@[i],
                )) by {
                if exists|i: int|
                    0 <= i < prev_out.len() && inv_row_for(
                        db.storage_units@,
                        db.materials@[t],
                        #[trigger] prev_out[i],
                    ) {
                    let i = choose|i: int|
                        0 <= i < prev_out.len() && inv_row_for(
                            db.storage_units@,
                            db.materials@[t],
                            #[trigger] prev_out[i],
                        );
                    assert(inv_row_for(db.storage_units@, db.materials@[t], out@[i]));
                } else {
                    let i = choose|i: int|
                        0 <= i < prev_rows.len() && inv_row_for(
                            db.storage_units@,
                            db.materials@[t],
                            #[trigger] prev_rows[i],
                        );
                    if i == idx {
                        assert(inv_row_for(db.storage_units@, db.materials@[t], out@[out@.len() - 1]));
                    } else if i < idx {
                        assert(inv_row_for(db.storage_units@, db.materials@[t], rows@[i]));
                    } else {
                        assert(inv_row_for(db.storage_units@, db.materials@[t], rows@[i - 1]));
                    }
                }
            }
        }
    }
    out
}

/// First ledger line carrying the given order number, if any; returns its
/// index.
fn find_order_line(units: &Vec<StorageUnit>, order_number: i64) -> (r: Option<usize>)
    ensures
        r matches Some(i) ==> i < units@.len() && (first_unit_with_order(units@, order_number)
            matches Some(u) && units@[i as int] == u),
        r is None ==> first_unit_with_order(units@, order_number) is None,
{
    let mut i: usize = 0;
    proof {
        assert(units@.skip(0) =~= units@);
    }
    while i < units.len()
        invariant
            i <= units@.len(),
            first_unit_with_order(units@, order_number) == first_unit_with_order(
                units@.skip(i as int),
                order_number,
            ),
        decreases units@.len() - i,
    {
        proof {
            assert(units@.skip(i as int)[0] == units@[i as int]);
        }
        if units[i].order_number == order_number {
            return Some(i);
        }
        proof {
            assert(units@.skip(i as int).skip(1) =~= units@.skip(i as int + 1));
        }
        i += 1;
    }
    proof {
        assert(units@.skip(i as int).len() == 0);
    }
    None
}

/// First supplier with the given id, if any; returns its index.
fn find_supplier_row(suppliers: &Vec<Supplier>, supplier_id: i64) -> (r: Option<usize>)
    ensures
        r matches Some(i) ==> i < suppliers@.len() && (find_supplier(suppliers@, supplier_id)
            matches Some(s) && suppliers@[i as int] == s),
        r is None ==> find_supplier(suppliers@, supplier_id) is None,
{
    let mut i: usize = 0;
    proof {
        assert(suppliers@.skip(0) =~= suppliers@);
    }
    while i < suppliers.len()
        invariant
            i <= suppliers@.len(),
            find_supplier(suppliers@, supplier_id) == find_supplier(
                suppliers@.skip(i as int),
                supplier_id,
            ),
        decreases suppliers@.len() - i,
    {
        proof {
            assert(suppliers@.skip(i as int)[0] == suppliers@[i as int]);
        }
        if suppliers[i].supplier_id == supplier_id {
            return Some(i);
        }
        proof {
            assert(suppliers@.skip(i as int).skip(1) =~= suppliers@.skip(i as int + 1));
        }
        i += 1;
    }
    proof {
        assert(suppliers@.skip(i as int).len() == 0);
    }
    None
}

/// The bank city of the supplier behind one order, and that order line's
/// monetary amount.  A missing order number is a not-found outcome.  When
/// several ledger lines share the order number, the operation resolves to
/// the first line in ledger order.
pub fn get_bank_info_by_order(db: &Database, order_number: i64) -> (r: Result<
    OrderBankInfo,
    AppError,
>)
    requires
        db.wf(),
    ensures
        first_unit_with_order(db.storage_units@, order_number) is None ==> (r matches Err(e)
            && e.kind == ErrorKind::NotFound),
        first_unit_with_order(db.storage_units@, order_number) matches Some(u) ==> (r matches Ok(
            info,
        ) && info.total_amount as int == u.quantity * u.unit_price && (find_supplier(
            db.suppliers@,
            u.supplier_id,
        ) matches Some(s) && info.bank_address_city == s.bank_address_city)),
{
    match find_order_line(&db.storage_units, order_number) {
        None => Err(AppError::not_found("Resource not found")),
        Some(i) => {
            let u = &db.storage_units[i];
            proof {
                lemma_value_fn_nonneg();
                lemma_element_le_sum(db.storage_units@, value_fn(), i as int);
                lemma_u64_mul_fits_u128(u.quantity, u.unit_price);
            }
            let amount: u128 = (u.quantity as u128) * (u.unit_price as u128);
            match find_supplier_row(&db.suppliers, u.supplier_id) {
                Some(j) => {
                    let sup = &db.suppliers[j];
                    Ok(
                        OrderBankInfo {
                            bank_address_city: clone_opt_string(&sup.bank_address_city),
                            total_amount: amount as u64,
                        },
                    )
                },
                None => {
                    proof {
                        assert(exists|k: int|
                            0 <= k < db.suppliers@.len() && (#[trigger] db.suppliers@[k]).supplier_id
                                == db.storage_units@[i as int].supplier_id);
                        lemma_find_supplier_some(db.suppliers@, u.supplier_id);
                        assert(false);
                    }
                    Err(AppError::not_found("Resource not found"))
                },
            }
        },
    }
}

} // verus!
