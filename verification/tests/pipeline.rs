use orders_plan::{
    AnnotatedMatrix, CellCategory, DeliveryTime, InitialData, MaterialInfo, PlanError,
    PurchaseOrder, PurchasePlanItem, Specification, SpecificationItem, run_pipeline,
};

fn mi(date: u32, material: &str, qty: i64) -> MaterialInfo {
    MaterialInfo { date, material: material.to_string(), qty }
}

fn scenario_data() -> InitialData {
    // material M, lead time 2 weeks, stock +10 at week 0, demand -4 at
    // week 1 (plan of 4 units of product P, one M per unit), purchase
    // order +6 at week 3. A zero order line gives week 2 its column, where
    // the balance of week 1 carries forward.
    InitialData {
        purchase_orders: vec![PurchaseOrder {
            name: "supplier".to_string(),
            items: vec![mi(14, "M", 0), mi(21, "M", 6)],
        }],
        delivery_times: vec![DeliveryTime { material_name: "M".to_string(), weeks: 2 }],
        specifications: vec![Specification {
            product_name: "P".to_string(),
            date_from: 0,
            items: vec![SpecificationItem { material_name: "M".to_string(), qty: 1 }],
        }],
        stocks: vec![mi(0, "M", 10)],
        purchase_plan_items: vec![PurchasePlanItem {
            product_name: "P".to_string(),
            date: 7,
            qty: 4,
        }],
    }
}

#[test]
fn scenario_expected_balances() {
    let data = scenario_data();
    let am: AnnotatedMatrix = run_pipeline(&data, 7).unwrap();
    assert_eq!(am.matrix.dates, vec![0, 7, 14, 21]);
    assert_eq!(am.matrix.materials, vec!["M".to_string()]);
    assert_eq!(am.matrix.values, vec![vec![10, 6, 6, 12]]);
    assert_eq!(am.now_index, 1);
    // week 1 (now_index + 0) healthy, week 3 (now_index + 2, the lead-time
    // boundary) classified by sign: 12 >= 0, healthy.
    assert_eq!(
        am.categories,
        vec![vec![
            CellCategory::Healthy,
            CellCategory::Healthy,
            CellCategory::Healthy,
            CellCategory::Healthy,
        ]]
    );
}

#[test]
fn scenario_week_four_out_of_horizon() {
    let mut data = scenario_data();
    // a fifth column one week past the boundary
    data.purchase_orders[0].items.push(mi(28, "M", 0));
    let am = run_pipeline(&data, 7).unwrap();
    assert_eq!(am.matrix.dates, vec![0, 7, 14, 21, 28]);
    assert_eq!(am.matrix.values, vec![vec![10, 6, 6, 12, 12]]);
    assert_eq!(am.categories[0][3], CellCategory::Healthy);
    assert_eq!(am.categories[0][4], CellCategory::OutOfHorizon);
}

#[test]
fn scenario_negative_balance_at_risk() {
    let mut data = scenario_data();
    data.purchase_plan_items[0].qty = 20;
    let am = run_pipeline(&data, 7).unwrap();
    assert_eq!(am.matrix.values, vec![vec![10, -10, -10, -4]]);
    assert_eq!(
        am.categories,
        vec![vec![
            CellCategory::Healthy,
            CellCategory::AtRisk,
            CellCategory::AtRisk,
            CellCategory::AtRisk,
        ]]
    );
}

#[test]
fn scenario_unknown_product_fails() {
    let mut data = scenario_data();
    data.purchase_plan_items.push(PurchasePlanItem {
        product_name: "ghost".to_string(),
        date: 7,
        qty: 1,
    });
    let r = run_pipeline(&data, 7);
    assert_eq!(r, Err(PlanError::SpecificationNotFound("ghost".to_string())));
}

#[test]
fn scenario_misaligned_date_fails() {
    let mut data = scenario_data();
    data.stocks.push(mi(3, "M", 1));
    let r = run_pipeline(&data, 7);
    assert_eq!(r, Err(PlanError::InvalidWeekAlignment(3, "stocks".to_string())));
}

#[test]
fn misaligned_purchase_order_names_its_file() {
    let mut data = scenario_data();
    data.purchase_orders[0].items.push(mi(22, "M", 1));
    let r = run_pipeline(&data, 7);
    assert_eq!(r, Err(PlanError::InvalidWeekAlignment(22, "supplier".to_string())));
}

#[test]
fn missing_lead_time_fails() {
    let mut data = scenario_data();
    data.delivery_times.clear();
    let r = run_pipeline(&data, 7);
    assert_eq!(r, Err(PlanError::DeliveryLeadTimeNotFound("M".to_string())));
}

#[test]
fn pipeline_is_deterministic() {
    let data = scenario_data();
    let a = run_pipeline(&data, 7).unwrap();
    let b = run_pipeline(&data, 7).unwrap();
    assert_eq!(a.matrix.dates, b.matrix.dates);
    assert_eq!(a.matrix.materials, b.matrix.materials);
    assert_eq!(a.matrix.values, b.matrix.values);
    assert_eq!(a.now_index, b.now_index);
    assert_eq!(a.categories, b.categories);
}

#[test]
fn out_of_horizon_ignores_sign() {
    // lead time 0: only the current column is actionable; the later cell
    // is out of horizon even though its balance is negative
    let data = InitialData {
        purchase_orders: vec![PurchaseOrder {
            name: "supplier".to_string(),
            items: vec![mi(7, "M", -1)],
        }],
        delivery_times: vec![DeliveryTime { material_name: "M".to_string(), weeks: 0 }],
        specifications: vec![],
        stocks: vec![mi(0, "M", -5)],
        purchase_plan_items: vec![],
    };
    let am = run_pipeline(&data, 0).unwrap();
    assert_eq!(am.matrix.values, vec![vec![-5, -6]]);
    assert_eq!(am.categories, vec![vec![CellCategory::AtRisk, CellCategory::OutOfHorizon]]);
}

#[test]
fn purchase_orders_validated_before_stocks() {
    let mut data = scenario_data();
    data.purchase_orders[0].items.push(mi(1, "M", 1));
    data.stocks.push(mi(2, "M", 1));
    let r = run_pipeline(&data, 7);
    assert_eq!(r, Err(PlanError::InvalidWeekAlignment(1, "supplier".to_string())));
}

#[test]
fn now_outside_all_buckets_defaults_to_first_column() {
    let data = scenario_data();
    // far in the future: no bucket holds it, the current column falls back
    // to column 0
    let am = run_pipeline(&data, 700).unwrap();
    assert_eq!(am.now_index, 0);
}

#[test]
fn rows_and_columns_cover_every_source() {
    // dates and materials from all three streams appear, sorted
    let data = InitialData {
        purchase_orders: vec![PurchaseOrder {
            name: "s".to_string(),
            items: vec![mi(14, "zinc", 5)],
        }],
        delivery_times: vec![
            DeliveryTime { material_name: "zinc".to_string(), weeks: 0 },
            DeliveryTime { material_name: "copper".to_string(), weeks: 0 },
            DeliveryTime { material_name: "iron".to_string(), weeks: 0 },
        ],
        specifications: vec![Specification {
            product_name: "P".to_string(),
            date_from: 0,
            items: vec![SpecificationItem { material_name: "iron".to_string(), qty: 2 }],
        }],
        stocks: vec![mi(7, "copper", 3)],
        purchase_plan_items: vec![PurchasePlanItem {
            product_name: "P".to_string(),
            date: 0,
            qty: 1,
        }],
    };
    let am = run_pipeline(&data, 0).unwrap();
    assert_eq!(am.matrix.dates, vec![0, 7, 14]);
    assert_eq!(
        am.matrix.materials,
        vec!["copper".to_string(), "iron".to_string(), "zinc".to_string()]
    );
    // iron: demand -2 at week 0 carried forward; copper: stock 3 from week
    // 1 on; zinc: order 5 at week 2 only
    assert_eq!(am.matrix.values, vec![vec![0, 3, 3], vec![-2, -2, -2], vec![0, 0, 5]]);
}

#[test]
fn duplicate_keys_sum_not_overwrite() {
    let mut data = scenario_data();
    // second stock row on the same (date, material) key must add
    data.stocks.push(mi(0, "M", 7));
    let am = run_pipeline(&data, 0).unwrap();
    assert_eq!(am.matrix.values[0][0], 17);
}
