use vstd::prelude::*;

use crate::classify::{
    CellCategory, classify_cells, find_now_index, first_without_lead, spec_category,
    spec_now_index,
};
use crate::errors::PlanError;
use crate::init_data::{InitialData, PurchaseOrder, PurchasePlanItem, spec_delivery_weeks};
use crate::orders_plan::{
    BalanceLedger, MaterialInfo, abs_sum, calculate_need_for_materials, calculate_stocks_plan,
    demand_abs, demand_keys, demand_qty, first_missing, keys_of, lemma_abs_sum_nonneg,
    lemma_demand_abs_nonneg, lemma_keys_of_contains, mat_key, po_abs_sum, po_keys, po_qsum, qsum,
};
use crate::projection::{
    ProjectionMatrix, build_projection_matrix, cum_qty, dates_sorted, has_date, has_material,
    lemma_cum_empty, lemma_cum_step, lemma_sorted_below, views_of,
};
use vstd::string::StringExecFns;

verus! {

/// Day numbers count from an epoch that falls on the designated week-start
/// weekday, so a date is week-aligned exactly when it lies a whole number
/// of weeks from the epoch.
pub open spec fn is_week_aligned(d: int) -> bool {
    d % 7 == 0
}

/// Rejects a date that does not fall on the designated weekday, naming the
/// source it came from.
pub fn check_date(date: u32, file_name: &String) -> (r: Result<(), PlanError>)
    ensures
        r is Ok <==> is_week_aligned(date as int),
        r matches Err(e) ==> (e matches PlanError::InvalidWeekAlignment(d, s) && d == date && s@
            == file_name@),
{
    if date % 7 == 0 {
        Ok(())
    } else {
        Err(PlanError::InvalidWeekAlignment(date, file_name.clone()))
    }
}

/// Every contribution in `s` is week-aligned.
pub open spec fn all_aligned(s: Seq<MaterialInfo>) -> bool {
    forall|i: int| 0 <= i < s.len() ==> is_week_aligned(#[trigger] s[i].date as int)
}

/// Every line of every purchase-order file is week-aligned.
pub open spec fn all_po_aligned(pos: Seq<PurchaseOrder>) -> bool {
    forall|i: int| 0 <= i < pos.len() ==> all_aligned(#[trigger] pos[i].items@)
}

/// Every production-plan row is week-aligned.
pub open spec fn plan_aligned(plan: Seq<PurchasePlanItem>) -> bool {
    forall|i: int| 0 <= i < plan.len() ==> is_week_aligned(#[trigger] plan[i].date as int)
}

/// Every dated row of every matrix-shaped source is week-aligned.
pub open spec fn data_aligned(data: InitialData) -> bool {
    &&& all_po_aligned(data.purchase_orders@)
    &&& all_aligned(data.stocks@)
    &&& plan_aligned(data.purchase_plan_items@)
}

/// `e` reports a misaligned date that really occurs in `data`, under the
/// name of the source stream holding it.
pub open spec fn names_misaligned(data: InitialData, e: PlanError) -> bool {
    e matches PlanError::InvalidWeekAlignment(d, src) && !is_week_aligned(d as int) && ((exists|
        i: int,
        j: int,
    |
        0 <= i < data.purchase_orders@.len() && 0 <= j < data.purchase_orders@[i].items@.len()
            && #[trigger] data.purchase_orders@[i].items@[j].date == d && src@
            == data.purchase_orders@[i].name@) || (src@ == "stocks"@ && (exists|j: int|
        0 <= j < data.stocks@.len() && #[trigger] data.stocks@[j].date == d)) || (src@
        == "production plan"@ && (exists|j: int|
        0 <= j < data.purchase_plan_items@.len() && #[trigger] data.purchase_plan_items@[j].date
            == d)))
}

/// Checks every matrix-shaped source before any aggregation: purchase
/// orders, then the stock snapshot, then the production plan.
pub fn validate_week_alignment(data: &InitialData) -> (r: Result<(), PlanError>)
    ensures
        r is Ok <==> data_aligned(*data),
        r matches Err(e) ==> names_misaligned(*data, e),
{
    let npo = data.purchase_orders.len();
    let mut i: usize = 0;
    while i < npo
        invariant
            i <= npo,
            npo == data.purchase_orders@.len(),
            forall|x: int| 0 <= x < i ==> all_aligned(#[trigger] data.purchase_orders@[x].items@),
        decreases npo - i,
    {
        let po = &data.purchase_orders[i];
        let m = po.items.len();
        let mut j: usize = 0;
        while j < m
            invariant
                j <= m,
                m == po.items@.len(),
                po == data.purchase_orders@[i as int],
                0 <= (i as int) < data.purchase_orders@.len(),
                forall|y: int|
                    0 <= y < j ==> is_week_aligned(#[trigger] po.items@[y].date as int),
            decreases m - j,
        {
            match check_date(po.items[j].date, &po.name) {
                Ok(()) => {},
                Err(e) => {
                    return Err(e);
                },
            }
            j = j + 1;
        }
        i = i + 1;
    }
    let stocks_label = String::from_str("stocks");
    let ns = data.stocks.len();
    let mut j: usize = 0;
    while j < ns
        invariant
            j <= ns,
            ns == data.stocks@.len(),
            stocks_label@ == "stocks"@,
            forall|y: int| 0 <= y < j ==> is_week_aligned(#[trigger] data.stocks@[y].date as int),
        decreases ns - j,
    {
        match check_date(data.stocks[j].date, &stocks_label) {
            Ok(()) => {},
            Err(e) => {
                return Err(e);
            },
        }
        j = j + 1;
    }
    let plan_label = String::from_str("production plan");
    let np = data.purchase_plan_items.len();
    let mut j: usize = 0;
    while j < np
        invariant
            j <= np,
            np == data.purchase_plan_items@.len(),
            plan_label@ == "production plan"@,
            forall|y: int|
                0 <= y < j ==> is_week_aligned(
                    #[trigger] data.purchase_plan_items@[y].date as int,
                ),
        decreases np - j,
    {
        match check_date(data.purchase_plan_items[j].date, &plan_label) {
            Ok(()) => {},
            Err(e) => {
                return Err(e);
            },
        }
        j = j + 1;
    }
    Ok(())
}

/// Net contribution of all three source streams to ledger key `k`.
pub open spec fn total_qty(data: InitialData, k: (int, Seq<char>)) -> int {
    qsum(data.stocks@, k) + demand_qty(data.purchase_plan_items@, data.specifications@, k)
        + po_qsum(data.purchase_orders@, k)
}

/// Every ledger key that any source stream produces.
pub open spec fn total_keys(data: InitialData) -> Set<(int, Seq<char>)> {
    keys_of(data.stocks@).union(
        demand_keys(data.purchase_plan_items@, data.specifications@),
    ).union(po_keys(data.purchase_orders@))
}

/// `d` is a date of some source key.
pub open spec fn total_has_date(data: InitialData, d: int) -> bool {
    exists|k: (int, Seq<char>)| #[trigger] total_keys(data).contains(k) && k.0 == d
}

/// `m` is a material of some source key.
pub open spec fn total_has_material(data: InitialData, m: Seq<char>) -> bool {
    exists|k: (int, Seq<char>)| #[trigger] total_keys(data).contains(k) && k.1 == m
}

/// The combined magnitude of all inputs; when it fits in the machine
/// integer, so does every balance the pipeline ever forms.
pub open spec fn input_magnitude(data: InitialData) -> int {
    abs_sum(data.stocks@) + demand_abs(data.purchase_plan_items@, data.specifications@)
        + po_abs_sum(data.purchase_orders@)
}

/// The balance projected for material `m` at column `c`: the sum of the
/// net contributions at the columns up to and including `c`.
pub open spec fn prefix_total(data: InitialData, dates: Seq<u32>, m: Seq<char>, c: int) -> int
    decreases c + 1,
{
    if c < 0 {
        0
    } else {
        prefix_total(data, dates, m, c - 1) + total_qty(data, (dates[c] as int, m))
    }
}

/// Every material in the projection has a delivery lead time.
pub open spec fn leads_resolved(data: InitialData) -> bool {
    forall|m: Seq<char>|
        total_has_material(data, m) ==> spec_delivery_weeks(data.delivery_times@, m) >= 0
}

/// The annotated report: the dense balance matrix, the highlighted
/// "current" column, and one category per cell.
#[derive(Debug, Clone, PartialEq, Eq)]
pub struct AnnotatedMatrix {
    pub matrix: ProjectionMatrix,
    pub now_index: usize,
    pub categories: Vec<Vec<CellCategory>>,
}

/// Full characterization of a successful run on `data` with current date
/// `now`: row and column density, prefix-sum cells, the current column,
/// and every cell's category. Exactly one output satisfies it.
pub open spec fn pipeline_output(data: InitialData, now: u32, am: AnnotatedMatrix) -> bool {
    &&& am.matrix.wf()
    &&& (forall|d: u32| am.matrix.dates@.contains(d) <==> total_has_date(data, d as int))
    &&& (forall|m: Seq<char>|
        views_of(am.matrix.materials@).contains(m) <==> total_has_material(data, m))
    &&& (forall|r: int, c: int|
        0 <= r < am.matrix.materials@.len() && 0 <= c < am.matrix.dates@.len()
            ==> #[trigger] am.matrix.values@[r]@[c] as int == prefix_total(
            data,
            am.matrix.dates@,
            am.matrix.materials@[r]@,
            c,
        ))
    &&& am.now_index as int == spec_now_index(am.matrix.dates@, now)
    &&& am.categories@.len() == am.matrix.materials@.len()
    &&& (forall|r: int|
        0 <= r < am.categories@.len() ==> #[trigger] am.categories@[r]@.len()
            == am.matrix.dates@.len())
    &&& (forall|r: int, c: int|
        0 <= r < am.categories@.len() && 0 <= c < am.matrix.dates@.len()
            ==> #[trigger] am.categories@[r]@[c] == spec_category(
            am.matrix.values@[r]@[c] as int,
            c,
            spec_now_index(am.matrix.dates@, now),
            spec_delivery_weeks(data.delivery_times@, am.matrix.materials@[r]@),
        ))
}

/// A sorted date column whose dates cover the ledger turns cumulative
/// ledger sums into prefix sums over the columns.
proof fn lemma_cum_prefix(
    entries: Seq<MaterialInfo>,
    data: InitialData,
    dates: Seq<u32>,
    m: Seq<char>,
    c: int,
)
    requires
        dates_sorted(dates),
        forall|d: u32| dates.contains(d) <==> has_date(entries, d as int),
        forall|k: (int, Seq<char>)| #[trigger] qsum(entries, k) == total_qty(data, k),
        0 <= c < dates.len(),
    ensures
        cum_qty(entries, m, dates[c] as int) == prefix_total(data, dates, m, c),
    decreases c,
{
    let prev: int = if c == 0 {
        -1
    } else {
        dates[c - 1] as int
    };
    if c > 0 {
        lemma_cum_prefix(entries, data, dates, m, c - 1);
    } else {
        lemma_cum_empty(entries, m, -1);
    }
    assert forall|x: int|
        0 <= x < entries.len() && entries[x].material@ == m
            && #[trigger] entries[x].date as int <= dates[c] as int implies (
    entries[x].date as int <= prev || entries[x].date as int == dates[c] as int) by {
        if (entries[x].date as int) < dates[c] as int {
            assert(has_date(entries, entries[x].date as int));
            assert(dates.contains(entries[x].date));
            lemma_sorted_below(dates, c, entries[x].date);
        }
    }
    lemma_cum_step(entries, m, prev, dates[c] as int);
    assert(qsum(entries, (dates[c] as int, m)) == total_qty(data, (dates[c] as int, m)));
    assert(cum_qty(entries, m, prev) == prefix_total(data, dates, m, c - 1));
    assert(prefix_total(data, dates, m, c) == prefix_total(data, dates, m, c - 1) + total_qty(
        data,
        (dates[c] as int, m),
    ));
}

/// The whole batch computation: validates week alignment, derives demand,
/// merges the three streams into the ledger, projects the dense balance
/// matrix, and classifies every cell. Fails fatally, producing no output,
/// on a misaligned date, an unknown product, or a material without a lead
/// time.
pub fn run_pipeline(data: &InitialData, now: u32) -> (r: Result<AnnotatedMatrix, PlanError>)
    requires
        forall|i: int|
            0 <= i < data.purchase_plan_items@.len()
                ==> #[trigger] data.purchase_plan_items@[i].qty >= 0,
        forall|i: int, j: int|
            0 <= i < data.specifications@.len() && 0 <= j < data.specifications@[i].items@.len()
                ==> #[trigger] data.specifications@[i].items@[j].qty >= 0,
        input_magnitude(*data) <= i64::MAX,
    ensures
        r is Ok <==> (data_aligned(*data) && first_missing(
            data.purchase_plan_items@,
            data.specifications@,
        ) == -1 && leads_resolved(*data)),
        r matches Ok(am) ==> pipeline_output(*data, now, am),
        r matches Err(e) ==> {
            ||| !data_aligned(*data) && names_misaligned(*data, e)
            ||| (data_aligned(*data) && first_missing(
                data.purchase_plan_items@,
                data.specifications@,
            ) >= 0 && (e matches PlanError::SpecificationNotFound(n) && n@
                == data.purchase_plan_items@[first_missing(
                data.purchase_plan_items@,
                data.specifications@,
            )].product_name@))
            ||| (data_aligned(*data) && first_missing(
                data.purchase_plan_items@,
                data.specifications@,
            ) == -1 && (e matches PlanError::DeliveryLeadTimeNotFound(n) && total_has_material(
                *data,
                n@,
            ) && spec_delivery_weeks(data.delivery_times@, n@) < 0))
        },
{
    match validate_week_alignment(data) {
        Ok(()) => {},
        Err(e) => {
            return Err(e);
        },
    }
    proof {
        lemma_abs_sum_nonneg(data.stocks@);
        crate::orders_plan::lemma_po_abs_sum_take_le(data.purchase_orders@, 0);
        assert(data.purchase_orders@.take(0) =~= Seq::<PurchaseOrder>::empty());
        lemma_demand_abs_nonneg(data.purchase_plan_items@, data.specifications@);
    }
    let requirements = match calculate_need_for_materials(data) {
        Ok(v) => v,
        Err(e) => {
            return Err(e);
        },
    };
    let stocks_plan = calculate_stocks_plan(&requirements, data);
    let ghost entries = stocks_plan.entries@;
    proof {
        assert forall|k: (int, Seq<char>)| #[trigger] qsum(entries, k) == total_qty(
            *data,
            k,
        ) by {}
        assert(keys_of(entries) == total_keys(*data));
    }
    let pm = build_projection_matrix(&stocks_plan);
    let now_index = find_now_index(&pm.dates, now);
    let ghost dts = data.delivery_times@;
    proof {
        // a ledger key's date or material is a matrix date or material
        assert forall|d: u32| pm.dates@.contains(d) <==> total_has_date(*data, d as int) by {
            lemma_has_parts(entries, *data, d as int, Seq::empty());
        }
        assert forall|m: Seq<char>| views_of(pm.materials@).contains(m) <==> total_has_material(
            *data,
            m,
        ) by {
            lemma_has_parts(entries, *data, 0, m);
        }
    }
    let cats = match classify_cells(&pm, now, &data.delivery_times) {
        Ok(cats) => cats,
        Err(e) => {
            proof {
                let fwl = first_without_lead(pm.materials@, dts);
                lemma_fwl_valid(pm.materials@, dts);
                assert(views_of(pm.materials@)[fwl] == pm.materials@[fwl]@);
                assert(views_of(pm.materials@).contains(pm.materials@[fwl]@));
                assert(total_has_material(*data, pm.materials@[fwl]@));
                assert(spec_delivery_weeks(dts, pm.materials@[fwl]@) < 0);
                assert(!leads_resolved(*data));
            }
            return Err(e);
        },
    };
    proof {
        lemma_fwl_valid(pm.materials@, dts);
        assert(leads_resolved(*data)) by {
            assert forall|m: Seq<char>| total_has_material(*data, m) implies spec_delivery_weeks(
                dts,
                m,
            ) >= 0 by {
                assert(views_of(pm.materials@).contains(m));
                let idx = choose|idx: int|
                    0 <= idx < views_of(pm.materials@).len() && views_of(pm.materials@)[idx] == m;
                assert(pm.materials@[idx]@ == m);
            }
        }
        assert forall|r: int, c: int|
            0 <= r < pm.materials@.len() && 0 <= c < pm.dates@.len()
                implies #[trigger] pm.values@[r]@[c] as int == prefix_total(
            *data,
            pm.dates@,
            pm.materials@[r]@,
            c,
        ) by {
            lemma_cum_prefix(entries, *data, pm.dates@, pm.materials@[r]@, c);
        }
    }
    Ok(AnnotatedMatrix { matrix: pm, now_index, categories: cats })
}

/// A ledger built from the three streams has a key with date `d` exactly
/// when a source key has date `d`, and likewise for materials.
proof fn lemma_has_parts(entries: Seq<MaterialInfo>, data: InitialData, d: int, m: Seq<char>)
    requires
        keys_of(entries) == total_keys(data),
    ensures
        has_date(entries, d) <==> total_has_date(data, d),
        has_material(entries, m) <==> total_has_material(data, m),
{
    if has_date(entries, d) {
        let i = choose|i: int| 0 <= i < entries.len() && #[trigger] entries[i].date as int == d;
        lemma_keys_of_contains(entries, mat_key(entries[i]));
        assert(total_keys(data).contains(mat_key(entries[i])));
    }
    if total_has_date(data, d) {
        let k = choose|k: (int, Seq<char>)| #[trigger] total_keys(data).contains(k) && k.0 == d;
        lemma_keys_of_contains(entries, k);
        let i = choose|i: int| 0 <= i < entries.len() && mat_key(entries[i]) == k;
        assert(entries[i].date as int == d);
    }
    if has_material(entries, m) {
        let i = choose|i: int| 0 <= i < entries.len() && #[trigger] entries[i].material@ == m;
        lemma_keys_of_contains(entries, mat_key(entries[i]));
        assert(total_keys(data).contains(mat_key(entries[i])));
    }
    if total_has_material(data, m) {
        let k = choose|k: (int, Seq<char>)| #[trigger] total_keys(data).contains(k) && k.1 == m;
        lemma_keys_of_contains(entries, k);
        let i = choose|i: int| 0 <= i < entries.len() && mat_key(entries[i]) == k;
        assert(entries[i].material@ == m);
    }
}

/// The first row without a lead time is a real witness: a valid index whose
/// material lacks an entry, `-1` exactly when every row resolves.
proof fn lemma_fwl_valid(materials: Seq<String>, dts: Seq<crate::init_data::DeliveryTime>)
    ensures
        -1 <= first_without_lead(materials, dts) < materials.len(),
        first_without_lead(materials, dts) >= 0 ==> spec_delivery_weeks(
            dts,
            materials[first_without_lead(materials, dts)]@,
        ) < 0,
        first_without_lead(materials, dts) == -1 ==> forall|j: int|
            0 <= j < materials.len() ==> spec_delivery_weeks(dts, #[trigger] materials[j]@) >= 0,
    decreases materials.len(),
{
    if materials.len() > 0 && spec_delivery_weeks(dts, materials[0]@) >= 0 {
        lemma_fwl_valid(materials.drop_first(), dts);
        assert(forall|j: int|
            0 <= j < materials.drop_first().len() ==> materials.drop_first()[j] == materials[j
                + 1]);
        if first_without_lead(materials, dts) == -1 {
            assert forall|j: int| 0 <= j < materials.len() implies spec_delivery_weeks(
                dts,
                #[trigger] materials[j]@,
            ) >= 0 by {
                if j > 0 {
                    assert(materials.drop_first()[j - 1] == materials[j]);
                    assert(spec_delivery_weeks(dts, materials.drop_first()[j - 1]@) >= 0);
                }
            }
        }
    }
}

} // verus!
