use procurement_analytics::cache::{fill_from_store, get_supplier_name_cached, SupplierNameCache};
use procurement_analytics::model::{
    Database, Date, MaterialCatalogEntry, PeriodParams, StorageUnit, Supplier,
};
use procurement_analytics::outcome::{AppError, ErrorKind};
use procurement_analytics::queries::{
    get_bank_info_by_order, get_current_inventory_value, get_materials_by_group,
    get_monthly_load, get_supplier_name_by_tax, get_supplier_share, get_suppliers_by_bank_city,
    get_suppliers_per_bank, get_total_spent_by_period, get_withdrawn_materials, Ratio,
};

fn date(year: i32, month: u8, day: u8) -> Date {
    Date { year, month, day }
}

fn supplier(id: i64, name: &str, tax_id: Option<&str>, city: Option<&str>) -> Supplier {
    Supplier {
        supplier_id: id,
        name: name.to_string(),
        tax_id: tax_id.map(|t| t.to_string()),
        bank_address_city: city.map(|c| c.to_string()),
    }
}

fn material(id: i64, name: &str, class_code: Option<&str>, group: &str) -> MaterialCatalogEntry {
    MaterialCatalogEntry {
        material_id: id,
        material_name: name.to_string(),
        class_code: class_code.map(|c| c.to_string()),
        group_code: group.to_string(),
    }
}

fn unit(material_id: i64, supplier_id: i64, order: i64, d: Date, qty: u64, price: u64) -> StorageUnit {
    StorageUnit {
        material_id,
        supplier_id,
        order_number: order,
        date: d,
        quantity: qty,
        unit_price: price,
    }
}

/// The concrete scenario dataset: one supplier, one material, one ledger
/// line of 100 units at a price of 2.50 expressed as 250 minor units.
fn scenario_db() -> Database {
    Database {
        suppliers: vec![supplier(1, "Acme", Some("111"), Some("Riga"))],
        materials: vec![material(10, "Bolts", None, "G1")],
        storage_units: vec![unit(10, 1, 500, date(2024, 3, 1), 100, 250)],
    }
}

#[test]
fn scenario_total_spend_first_quarter() {
    let db = scenario_db();
    let period = PeriodParams { start: date(2024, 1, 1), end: date(2024, 3, 31) };
    let total = get_total_spent_by_period(&db, &period);
    assert_eq!(total.total_amount, Some(25_000));
}

#[test]
fn scenario_inventory_value_bolts() {
    let db = scenario_db();
    let rows = get_current_inventory_value(&db);
    assert_eq!(rows.len(), 1);
    assert_eq!(rows[0].material_name, "Bolts");
    assert_eq!(rows[0].total_quantity, 100);
    assert_eq!(rows[0].total_value, 25_000);
}

#[test]
fn scenario_bank_info_order_500() {
    let db = scenario_db();
    let info = get_bank_info_by_order(&db, 500).unwrap();
    assert_eq!(info.bank_address_city, Some("Riga".to_string()));
    assert_eq!(info.total_amount, 25_000);
}

#[test]
fn scenario_supplier_share_is_one() {
    let db = scenario_db();
    let share = get_supplier_share(&db, 1, "G1");
    let ratio = share.supplier_share.expect("the group has value");
    assert_eq!(ratio, Ratio { numerator: 25_000, denominator: 25_000 });
    assert_eq!(ratio.numerator, ratio.denominator);
}

#[test]
fn supplier_name_found() {
    let db = scenario_db();
    let name = get_supplier_name_by_tax(&db, "111").unwrap();
    assert_eq!(name.name, "Acme");
}

#[test]
fn supplier_name_missing_is_not_found() {
    let db = scenario_db();
    let err = get_supplier_name_by_tax(&db, "999").unwrap_err();
    assert_eq!(err.kind, ErrorKind::NotFound);
    let (status, _) = err.into_response();
    assert_eq!(status, 404);
}

#[test]
fn supplier_without_tax_id_matches_nothing() {
    let db = Database {
        suppliers: vec![supplier(7, "NoTax", None, None)],
        materials: vec![],
        storage_units: vec![],
    };
    let err = get_supplier_name_by_tax(&db, "").unwrap_err();
    assert_eq!(err.kind, ErrorKind::NotFound);
}

#[test]
fn suppliers_by_bank_city_lists_matches_in_order() {
    let db = Database {
        suppliers: vec![
            supplier(1, "Acme", Some("111"), Some("Riga")),
            supplier(2, "Beta", None, Some("Riga")),
            supplier(3, "Gamma", Some("333"), Some("Tallinn")),
        ],
        materials: vec![],
        storage_units: vec![],
    };
    let rows = get_suppliers_by_bank_city(&db, "Riga");
    assert_eq!(rows.len(), 2);
    assert_eq!(rows[0].name, "Acme");
    assert_eq!(rows[0].tax_id, Some("111".to_string()));
    assert_eq!(rows[1].name, "Beta");
    assert_eq!(rows[1].tax_id, None);
}

#[test]
fn suppliers_by_unknown_city_is_empty_success() {
    let db = scenario_db();
    let rows = get_suppliers_by_bank_city(&db, "Vilnius");
    assert!(rows.is_empty());
}

#[test]
fn suppliers_per_bank_counts_and_orders_descending() {
    let db = Database {
        suppliers: vec![
            supplier(1, "Acme", Some("111"), Some("Riga")),
            supplier(2, "Beta", None, Some("Tallinn")),
            supplier(3, "Gamma", None, Some("Riga")),
            supplier(4, "Delta", None, None),
        ],
        materials: vec![],
        storage_units: vec![],
    };
    let rows = get_suppliers_per_bank(&db);
    assert_eq!(rows.len(), 2);
    assert_eq!(rows[0].bank_address_city, "Riga");
    assert_eq!(rows[0].supplier_count, 2);
    assert_eq!(rows[1].bank_address_city, "Tallinn");
    assert_eq!(rows[1].supplier_count, 1);
}

#[test]
fn materials_by_group_filters_catalog() {
    let db = Database {
        suppliers: vec![],
        materials: vec![
            material(10, "Bolts", Some("C1"), "G1"),
            material(11, "Nuts", None, "G1"),
            material(12, "Paint", Some("C9"), "G2"),
        ],
        storage_units: vec![],
    };
    let rows = get_materials_by_group(&db, "G1");
    assert_eq!(rows.len(), 2);
    assert_eq!(rows[0].material_name, "Bolts");
    assert_eq!(rows[0].class_code, Some("C1".to_string()));
    assert_eq!(rows[1].material_name, "Nuts");
    assert_eq!(rows[1].class_code, None);
}

#[test]
fn total_spend_with_no_matching_rows_is_absent() {
    let db = scenario_db();
    let period = PeriodParams { start: date(2023, 1, 1), end: date(2023, 12, 31) };
    let total = get_total_spent_by_period(&db, &period);
    assert_eq!(total.total_amount, None);
}

#[test]
fn total_spend_bounds_are_inclusive() {
    let db = scenario_db();
    let period = PeriodParams { start: date(2024, 3, 1), end: date(2024, 3, 1) };
    let total = get_total_spent_by_period(&db, &period);
    assert_eq!(total.total_amount, Some(25_000));
}

#[test]
fn withdrawn_materials_is_not_implemented() {
    let db = scenario_db();
    let period = PeriodParams { start: date(2024, 1, 1), end: date(2024, 12, 31) };
    let err = get_withdrawn_materials(&db, &period).unwrap_err();
    assert_eq!(err.kind, ErrorKind::NotImplemented);
    let (status, _) = err.into_response();
    assert_eq!(status, 501);
}

#[test]
fn upstream_failure_maps_to_500_with_message() {
    let err = AppError::upstream("Database error");
    assert_eq!(err.kind, ErrorKind::UpstreamFailure);
    let (status, message) = err.into_response();
    assert_eq!(status, 500);
    assert_eq!(message, "Database error");
}

#[test]
fn inventory_excludes_materials_without_stock() {
    let db = Database {
        suppliers: vec![supplier(1, "Acme", None, None)],
        materials: vec![material(10, "Bolts", None, "G1"), material(11, "Nuts", None, "G1")],
        storage_units: vec![unit(10, 1, 500, date(2024, 3, 1), 100, 250)],
    };
    let rows = get_current_inventory_value(&db);
    assert_eq!(rows.len(), 1);
    assert_eq!(rows[0].material_name, "Bolts");
}

#[test]
fn inventory_orders_by_total_value_descending() {
    let db = Database {
        suppliers: vec![supplier(1, "Acme", None, None)],
        materials: vec![material(10, "Bolts", None, "G1"), material(11, "Nuts", None, "G1")],
        storage_units: vec![
            unit(10, 1, 500, date(2024, 3, 1), 10, 5),
            unit(11, 1, 501, date(2024, 3, 2), 4, 100),
            unit(10, 1, 502, date(2024, 3, 3), 1, 7),
        ],
    };
    let rows = get_current_inventory_value(&db);
    assert_eq!(rows.len(), 2);
    assert_eq!(rows[0].material_name, "Nuts");
    assert_eq!(rows[0].total_quantity, 4);
    assert_eq!(rows[0].total_value, 400);
    assert_eq!(rows[1].material_name, "Bolts");
    assert_eq!(rows[1].total_quantity, 11);
    assert_eq!(rows[1].total_value, 57);
}

#[test]
fn supplier_share_of_empty_group_is_absent() {
    let db = scenario_db();
    let share = get_supplier_share(&db, 1, "G9");
    assert_eq!(share.supplier_share, None);
}

#[test]
fn supplier_share_without_rows_in_positive_group_is_zero() {
    let db = Database {
        suppliers: vec![
            supplier(1, "Acme", None, None),
            supplier(2, "Beta", None, None),
        ],
        materials: vec![material(10, "Bolts", None, "G1")],
        storage_units: vec![unit(10, 1, 500, date(2024, 3, 1), 100, 250)],
    };
    let share = get_supplier_share(&db, 2, "G1");
    let ratio = share.supplier_share.expect("the group has value");
    assert_eq!(ratio.numerator, 0);
    assert_eq!(ratio.denominator, 25_000);
}

#[test]
fn supplier_share_splits_group_value() {
    let db = Database {
        suppliers: vec![
            supplier(1, "Acme", None, None),
            supplier(2, "Beta", None, None),
        ],
        materials: vec![material(10, "Bolts", None, "G1"), material(12, "Paint", None, "G2")],
        storage_units: vec![
            unit(10, 1, 500, date(2024, 3, 1), 3, 100),
            unit(10, 2, 501, date(2024, 3, 2), 1, 100),
            unit(12, 2, 502, date(2024, 3, 3), 9, 999),
        ],
    };
    let share = get_supplier_share(&db, 1, "G1");
    let ratio = share.supplier_share.expect("the group has value");
    assert_eq!(ratio.numerator, 300);
    assert_eq!(ratio.denominator, 400);
}

#[test]
fn bank_info_unknown_order_is_not_found() {
    let db = scenario_db();
    let err = get_bank_info_by_order(&db, 999).unwrap_err();
    assert_eq!(err.kind, ErrorKind::NotFound);
}

#[test]
fn bank_info_with_absent_bank_city() {
    let db = Database {
        suppliers: vec![supplier(1, "Acme", None, None)],
        materials: vec![material(10, "Bolts", None, "G1")],
        storage_units: vec![unit(10, 1, 500, date(2024, 3, 1), 2, 30)],
    };
    let info = get_bank_info_by_order(&db, 500).unwrap();
    assert_eq!(info.bank_address_city, None);
    assert_eq!(info.total_amount, 60);
}

#[test]
fn monthly_load_lists_only_months_with_lines_in_order() {
    let db = Database {
        suppliers: vec![supplier(1, "Acme", None, None)],
        materials: vec![material(10, "Bolts", None, "G1")],
        storage_units: vec![
            unit(10, 1, 500, date(2024, 3, 5), 2, 10),
            unit(10, 1, 501, date(2024, 1, 9), 5, 4),
            unit(10, 1, 502, date(2024, 3, 20), 1, 100),
            unit(10, 1, 503, date(2023, 7, 1), 9, 9),
        ],
    };
    let rows = get_monthly_load(&db, 2024);
    assert_eq!(rows.len(), 2);
    assert_eq!(rows[0].month, 1);
    assert_eq!(rows[0].monthly_value, 20);
    assert_eq!(rows[1].month, 3);
    assert_eq!(rows[1].monthly_value, 120);
}

#[test]
fn monthly_load_of_empty_year_is_empty() {
    let db = scenario_db();
    let rows = get_monthly_load(&db, 1999);
    assert!(rows.is_empty());
}

#[test]
fn cache_hit_skips_second_round_trip() {
    let db = scenario_db();
    let mut cache = SupplierNameCache::new();
    let (first, consulted_first) = get_supplier_name_cached(&mut cache, &db, "111");
    assert!(consulted_first);
    let first = first.unwrap();
    assert_eq!(first.name, "Acme");
    let (second, consulted_second) = get_supplier_name_cached(&mut cache, &db, "111");
    assert!(!consulted_second);
    assert_eq!(second.unwrap().name, first.name);
}

#[test]
fn cache_never_populated_for_missing_supplier() {
    let db = scenario_db();
    let mut cache = SupplierNameCache::new();
    for _ in 0..3 {
        let (outcome, consulted) = get_supplier_name_cached(&mut cache, &db, "999");
        assert!(consulted);
        assert_eq!(outcome.unwrap_err().kind, ErrorKind::NotFound);
        assert!(cache.lookup("999").is_none());
    }
}

#[test]
fn cache_aside_with_stub_store_counts_one_call() {
    let db = scenario_db();
    let mut cache = SupplierNameCache::new();
    let mut store_calls: u32 = 0;
    let key = "111";

    let name = match cache.lookup(key) {
        Some(name) => name,
        None => {
            store_calls += 1;
            let answer = get_supplier_name_by_tax(&db, key);
            fill_from_store(&mut cache, key, answer).unwrap().name
        }
    };
    assert_eq!(name, "Acme");
    assert_eq!(store_calls, 1);

    let again = match cache.lookup(key) {
        Some(name) => name,
        None => {
            store_calls += 1;
            let answer = get_supplier_name_by_tax(&db, key);
            fill_from_store(&mut cache, key, answer).unwrap().name
        }
    };
    assert_eq!(again, "Acme");
    assert_eq!(store_calls, 1);
}

#[test]
fn fill_from_store_passes_failures_through_uncached() {
    let mut cache = SupplierNameCache::new();
    let err = fill_from_store(&mut cache, "222", Err(AppError::upstream("Database error")))
        .unwrap_err();
    assert_eq!(err.kind, ErrorKind::UpstreamFailure);
    assert!(cache.lookup("222").is_none());
}

#[test]
fn store_is_idempotent_for_a_present_key() {
    let db = scenario_db();
    let mut cache = SupplierNameCache::new();
    let (_, _) = get_supplier_name_cached(&mut cache, &db, "111");
    let (_, _) = get_supplier_name_cached(&mut cache, &db, "111");
    assert_eq!(cache.lookup("111"), Some("Acme".to_string()));
}
