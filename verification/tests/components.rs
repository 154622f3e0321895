use orders_plan::{
    BalanceLedger, DeliveryTime, InitialData, MaterialInfo, PlanError, PurchaseOrder,
    PurchasePlanItem, Specification, SpecificationItem, append_qty, build_projection_matrix,
    calculate_need_for_materials, calculate_stocks_plan, check_date, collect_dates_and_materials,
    correct_stocks, find_now_index, parse_source_identifier, read_delivery_time_items,
    read_sp_material_names, str_eq, str_lt, validate_week_alignment,
};

fn mi(date: u32, material: &str, qty: i64) -> MaterialInfo {
    MaterialInfo { date, material: material.to_string(), qty }
}

fn data_with(
    stocks: Vec<MaterialInfo>,
    orders: Vec<Vec<MaterialInfo>>,
    plan: Vec<PurchasePlanItem>,
    specs: Vec<Specification>,
) -> InitialData {
    InitialData {
        purchase_orders: orders
            .into_iter()
            .map(|items| PurchaseOrder { name: "po".to_string(), items })
            .collect(),
        delivery_times: vec![],
        specifications: specs,
        stocks,
        purchase_plan_items: plan,
    }
}

#[test]
fn append_qty_sums_duplicates() {
    let mut ledger = BalanceLedger::new();
    append_qty(&mut ledger, &vec![mi(0, "a", 5), mi(0, "a", -2), mi(7, "a", 1)]);
    append_qty(&mut ledger, &vec![mi(0, "a", 10)]);
    assert_eq!(ledger.get(0, &"a".to_string()), Some(13));
    assert_eq!(ledger.get(7, &"a".to_string()), Some(1));
    assert_eq!(ledger.get(14, &"a".to_string()), None);
}

#[test]
fn merge_order_does_not_matter() {
    let s1 = vec![mi(0, "a", 5), mi(7, "b", -1)];
    let s2 = vec![mi(0, "a", 2), mi(0, "c", 4)];
    let s3 = vec![mi(7, "b", 9)];
    let mut l1 = BalanceLedger::new();
    append_qty(&mut l1, &s1);
    append_qty(&mut l1, &s2);
    append_qty(&mut l1, &s3);
    let mut l2 = BalanceLedger::new();
    append_qty(&mut l2, &s3);
    append_qty(&mut l2, &s1);
    append_qty(&mut l2, &s2);
    for (d, m) in [(0u32, "a"), (7, "b"), (0, "c"), (7, "a")] {
        assert_eq!(l1.get(d, &m.to_string()), l2.get(d, &m.to_string()));
    }
}

#[test]
fn demand_is_negated_and_summed() {
    let specs = vec![
        Specification {
            product_name: "P".to_string(),
            date_from: 0,
            items: vec![
                SpecificationItem { material_name: "m1".to_string(), qty: 2 },
                SpecificationItem { material_name: "m2".to_string(), qty: 3 },
            ],
        },
        Specification {
            product_name: "Q".to_string(),
            date_from: 0,
            items: vec![SpecificationItem { material_name: "m1".to_string(), qty: 1 }],
        },
    ];
    let plan = vec![
        PurchasePlanItem { product_name: "P".to_string(), date: 7, qty: 4 },
        PurchasePlanItem { product_name: "Q".to_string(), date: 7, qty: 5 },
    ];
    let data = data_with(vec![], vec![], plan, specs);
    let need = calculate_need_for_materials(&data).unwrap();
    let mut ledger = BalanceLedger::new();
    append_qty(&mut ledger, &need);
    // m1: -(4*2) - (5*1) = -13, m2: -(4*3) = -12
    assert_eq!(ledger.get(7, &"m1".to_string()), Some(-13));
    assert_eq!(ledger.get(7, &"m2".to_string()), Some(-12));
}

#[test]
fn demand_fails_on_first_unknown_product() {
    let plan = vec![
        PurchasePlanItem { product_name: "nope".to_string(), date: 0, qty: 1 },
        PurchasePlanItem { product_name: "also-missing".to_string(), date: 0, qty: 1 },
    ];
    let data = data_with(vec![], vec![], plan, vec![]);
    assert_eq!(
        calculate_need_for_materials(&data),
        Err(PlanError::SpecificationNotFound("nope".to_string()))
    );
}

#[test]
fn stocks_plan_merges_three_streams() {
    let data = data_with(
        vec![mi(0, "a", 10)],
        vec![vec![mi(0, "a", 4)], vec![mi(7, "a", 2)]],
        vec![],
        vec![],
    );
    let ledger = calculate_stocks_plan(&vec![mi(0, "a", -3)], &data);
    assert_eq!(ledger.get(0, &"a".to_string()), Some(11));
    assert_eq!(ledger.get(7, &"a".to_string()), Some(2));
}

#[test]
fn collect_sorts_and_dedups() {
    let mut ledger = BalanceLedger::new();
    append_qty(
        &mut ledger,
        &vec![mi(21, "b", 1), mi(0, "a", 1), mi(21, "a", 1), mi(7, "b", 1)],
    );
    let (dates, materials) = collect_dates_and_materials(&ledger);
    assert_eq!(dates, vec![0, 7, 21]);
    assert_eq!(materials, vec!["a".to_string(), "b".to_string()]);
}

#[test]
fn projection_carries_balance_forward() {
    let mut ledger = BalanceLedger::new();
    append_qty(&mut ledger, &vec![mi(0, "a", 5), mi(21, "a", -8), mi(7, "b", 2)]);
    let pm = build_projection_matrix(&ledger);
    assert_eq!(pm.dates, vec![0, 7, 21]);
    assert_eq!(pm.materials, vec!["a".to_string(), "b".to_string()]);
    // prefix sums: a has no entry at day 7, the balance carries over
    assert_eq!(pm.values, vec![vec![5, 5, -3], vec![0, 2, 2]]);
}

#[test]
fn now_index_picks_containing_bucket() {
    let dates = vec![0u32, 7, 14];
    assert_eq!(find_now_index(&dates, 0), 0);
    assert_eq!(find_now_index(&dates, 6), 0);
    assert_eq!(find_now_index(&dates, 7), 1);
    assert_eq!(find_now_index(&dates, 13), 1);
    assert_eq!(find_now_index(&dates, 20), 2);
    // outside every bucket: default to the first column
    assert_eq!(find_now_index(&dates, 100), 0);
}

#[test]
fn check_date_accepts_only_week_aligned_days() {
    assert!(check_date(0, &"f".to_string()).is_ok());
    assert!(check_date(14, &"f".to_string()).is_ok());
    assert_eq!(
        check_date(3, &"f".to_string()),
        Err(PlanError::InvalidWeekAlignment(3, "f".to_string()))
    );
}

#[test]
fn validate_checks_all_streams() {
    let ok = data_with(vec![mi(0, "a", 1)], vec![vec![mi(7, "a", 1)]], vec![], vec![]);
    assert!(validate_week_alignment(&ok).is_ok());
    let bad = data_with(
        vec![],
        vec![],
        vec![PurchasePlanItem { product_name: "P".to_string(), date: 8, qty: 1 }],
        vec![],
    );
    assert_eq!(
        validate_week_alignment(&bad),
        Err(PlanError::InvalidWeekAlignment(8, "production plan".to_string()))
    );
}

#[test]
fn get_delivery_weeks_finds_first_entry() {
    let data = InitialData {
        purchase_orders: vec![],
        delivery_times: vec![
            DeliveryTime { material_name: "a".to_string(), weeks: 3 },
            DeliveryTime { material_name: "a".to_string(), weeks: 9 },
        ],
        specifications: vec![],
        stocks: vec![],
        purchase_plan_items: vec![],
    };
    assert_eq!(data.get_delivery_weeks("a"), Ok(3));
    assert_eq!(
        data.get_delivery_weeks("b"),
        Err(PlanError::DeliveryLeadTimeNotFound("b".to_string()))
    );
}

#[test]
fn material_names_deduplicated_in_first_seen_order() {
    let specs = vec![
        Specification {
            product_name: "P".to_string(),
            date_from: 0,
            items: vec![
                SpecificationItem { material_name: "x".to_string(), qty: 1 },
                SpecificationItem { material_name: "y".to_string(), qty: 1 },
            ],
        },
        Specification {
            product_name: "Q".to_string(),
            date_from: 0,
            items: vec![
                SpecificationItem { material_name: "y".to_string(), qty: 1 },
                SpecificationItem { material_name: "z".to_string(), qty: 1 },
            ],
        },
    ];
    assert_eq!(
        read_sp_material_names(&specs),
        vec!["x".to_string(), "y".to_string(), "z".to_string()]
    );
}

#[test]
fn corrected_stocks_sum_trim_matching_rows() {
    let stocks = vec![mi(0, " M ", 5), mi(0, "M", 3), mi(0, "other", 9)];
    let names = vec!["M".to_string()];
    // both rows match the catalog name once whitespace is trimmed; if
    // trimming changed nothing, " M " would not match and the sum would be 3
    assert_eq!(correct_stocks(&stocks, &names), vec![("M".to_string(), 8)]);
}

#[test]
fn corrected_stocks_skip_unmatched_names() {
    let stocks = vec![mi(0, "a", 1)];
    let names = vec!["a".to_string(), "b".to_string()];
    assert_eq!(correct_stocks(&stocks, &names), vec![("a".to_string(), 1)]);
}

#[test]
fn delivery_rows_become_entities_in_order() {
    let rows = vec![("a".to_string(), 4u32), ("b".to_string(), 0u32)];
    let items = read_delivery_time_items(rows);
    assert_eq!(items.len(), 2);
    assert_eq!(items[0], DeliveryTime { material_name: "a".to_string(), weeks: 4 });
    assert_eq!(items[1], DeliveryTime { material_name: "b".to_string(), weeks: 0 });
}

#[test]
fn source_identifier_splits_stem() {
    assert_eq!(
        parse_source_identifier("product_20240101.xlsx"),
        Ok(("product".to_string(), "20240101".to_string()))
    );
    assert_eq!(
        parse_source_identifier("noseparator.xlsx"),
        Err(PlanError::MalformedSourceIdentifier("noseparator.xlsx".to_string()))
    );
    assert_eq!(
        parse_source_identifier("a_b_c.xlsx"),
        Err(PlanError::MalformedSourceIdentifier("a_b_c.xlsx".to_string()))
    );
}

#[test]
fn string_order_is_lexicographic() {
    assert!(str_lt("abc", "abd"));
    assert!(str_lt("ab", "abc"));
    assert!(!str_lt("abc", "abc"));
    assert!(!str_lt("b", "a"));
    assert!(str_eq("привет", "привет"));
    assert!(!str_eq("a", "A"));
}
