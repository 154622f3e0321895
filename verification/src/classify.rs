use vstd::prelude::*;

use crate::errors::PlanError;
use crate::init_data::{DeliveryTime, spec_delivery_weeks};
use crate::projection::ProjectionMatrix;
use crate::text::str_eq;

verus! {

/// The procurement verdict of one projected cell.
#[derive(Debug, Clone, Copy, PartialEq, Eq, Structural)]
pub enum CellCategory {
    /// Within the actionable horizon with a non-negative balance.
    Healthy,
    /// Within the actionable horizon with a negative balance: a likely
    /// shortage that still can be acted on.
    AtRisk,
    /// Beyond the material's lead-time window: too far out to act on.
    OutOfHorizon,
}

/// The category of a cell: within the horizon (`col <= now_index + lead`)
/// the sign of the balance decides; beyond it the cell is out of horizon
/// regardless of sign.
pub open spec fn spec_category(value: int, col: int, now_index: int, lead_weeks: int)
    -> CellCategory {
    if col <= now_index + lead_weeks {
        if value < 0 {
            CellCategory::AtRisk
        } else {
            CellCategory::Healthy
        }
    } else {
        CellCategory::OutOfHorizon
    }
}

/// Index of the first week bucket containing `now`, or -1 if none does.
pub open spec fn now_match(dates: Seq<u32>, now: u32) -> int
    decreases dates.len(),
{
    if dates.len() == 0 {
        -1
    } else if dates[0] <= now && now < dates[0] + 7 {
        0
    } else {
        let r = now_match(dates.drop_first(), now);
        if r < 0 {
            -1
        } else {
            r + 1
        }
    }
}

/// The "current" column: the first date whose week bucket contains `now`,
/// falling back to the first column when none does.
pub open spec fn spec_now_index(dates: Seq<u32>, now: u32) -> int {
    if now_match(dates, now) < 0 {
        0
    } else {
        now_match(dates, now)
    }
}

proof fn lemma_now_match_at(dates: Seq<u32>, now: u32, i: int)
    requires
        0 <= i < dates.len(),
        dates[i] <= now && now < dates[i] + 7,
        forall|j: int| 0 <= j < i ==> !(dates[j] <= now && now < dates[j] + 7),
    ensures
        now_match(dates, now) == i,
    decreases i,
{
    if i > 0 {
        assert(forall|j: int|
            0 <= j < i - 1 ==> dates.drop_first()[j] == dates[j + 1]);
        lemma_now_match_at(dates.drop_first(), now, i - 1);
    }
}

proof fn lemma_now_match_none(dates: Seq<u32>, now: u32)
    requires
        forall|j: int| 0 <= j < dates.len() ==> !(dates[j] <= now && now < dates[j] + 7),
    ensures
        now_match(dates, now) == -1,
    decreases dates.len(),
{
    if dates.len() > 0 {
        assert(forall|j: int|
            0 <= j < dates.drop_first().len() ==> dates.drop_first()[j] == dates[j + 1]);
        lemma_now_match_none(dates.drop_first(), now);
    }
}

/// Finds the column of the week bucket containing `now` (the first date at
/// or before `now` that `now` precedes by less than a week), or column 0
/// when `now` falls outside every bucket.
pub fn find_now_index(dates: &Vec<u32>, now: u32) -> (r: usize)
    ensures
        r as int == spec_now_index(dates@, now),
        dates@.len() > 0 ==> r < dates@.len(),
        dates@.len() == 0 ==> r == 0,
{
    let n = dates.len();
    let mut i: usize = 0;
    while i < n
        invariant
            i <= n,
            n == dates@.len(),
            forall|j: int| 0 <= j < i ==> !(dates@[j] <= now && now < dates@[j] + 7),
        decreases n - i,
    {
        let d = dates[i];
        if d <= now && now - d < 7 {
            proof {
                lemma_now_match_at(dates@, now, i as int);
            }
            return i;
        }
        i = i + 1;
    }
    proof {
        lemma_now_match_none(dates@, now);
    }
    0
}

/// Index of the first matrix row whose material has no lead-time entry,
/// or -1 when every row resolves.
pub open spec fn first_without_lead(materials: Seq<String>, dts: Seq<DeliveryTime>) -> int
    decreases materials.len(),
{
    if materials.len() == 0 {
        -1
    } else if spec_delivery_weeks(dts, materials[0]@) < 0 {
        0
    } else {
        let r = first_without_lead(materials.drop_first(), dts);
        if r < 0 {
            -1
        } else {
            r + 1
        }
    }
}

proof fn lemma_first_without_lead_at(materials: Seq<String>, dts: Seq<DeliveryTime>, i: int)
    requires
        0 <= i < materials.len(),
        spec_delivery_weeks(dts, materials[i]@) < 0,
        forall|j: int| 0 <= j < i ==> spec_delivery_weeks(dts, #[trigger] materials[j]@) >= 0,
    ensures
        first_without_lead(materials, dts) == i,
    decreases i,
{
    if i > 0 {
        assert(forall|j: int|
            0 <= j < i - 1 ==> materials.drop_first()[j] == materials[j + 1]);
        lemma_first_without_lead_at(materials.drop_first(), dts, i - 1);
    }
}

proof fn lemma_first_without_lead_none(materials: Seq<String>, dts: Seq<DeliveryTime>)
    requires
        forall|j: int|
            0 <= j < materials.len() ==> spec_delivery_weeks(dts, #[trigger] materials[j]@) >= 0,
    ensures
        first_without_lead(materials, dts) == -1,
    decreases materials.len(),
{
    if materials.len() > 0 {
        assert(forall|j: int|
            0 <= j < materials.drop_first().len() ==> materials.drop_first()[j] == materials[j
                + 1]);
        lemma_first_without_lead_none(materials.drop_first(), dts);
    }
}

/// The lead time of the first entry for `m`, as `find` would return it.
fn lookup_weeks(dts: &Vec<DeliveryTime>, m: &String) -> (r: Option<u32>)
    ensures
        r matches Some(w) ==> w as int == spec_delivery_weeks(dts@, m@),
        r is Some <==> spec_delivery_weeks(dts@, m@) >= 0,
{
    let n = dts.len();
    let mut i: usize = 0;
    proof {
        assert(dts@.skip(0) =~= dts@);
    }
    while i < n
        invariant
            i <= n,
            n == dts@.len(),
            spec_delivery_weeks(dts@, m@) == spec_delivery_weeks(dts@.skip(i as int), m@),
        decreases n - i,
    {
        let dt = &dts[i];
        proof {
            assert(dts@.skip(i as int)[0] == dts@[i as int]);
            assert(dts@.skip(i as int).drop_first() =~= dts@.skip(i as int + 1));
        }
        if str_eq(dt.material_name.as_str(), m.as_str()) {
            return Some(dt.weeks);
        }
        i = i + 1;
    }
    None
}

/// Annotates every cell of the projection with its category, using the
/// "current" column for `now` and each row's material lead time. A material
/// without a lead-time entry aborts the run.
pub fn classify_cells(pm: &ProjectionMatrix, now: u32, delivery_times: &Vec<DeliveryTime>) -> (r:
    Result<Vec<Vec<CellCategory>>, PlanError>)
    requires
        pm.wf(),
    ensures
        r is Ok <==> first_without_lead(pm.materials@, delivery_times@) == -1,
        r matches Ok(cats) ==> cats@.len() == pm.materials@.len() && (forall|m: int|
            0 <= m < cats@.len() ==> #[trigger] cats@[m]@.len() == pm.dates@.len()) && (forall|
            m: int,
            c: int,
        |
            0 <= m < cats@.len() && 0 <= c < pm.dates@.len() ==> #[trigger] cats@[m]@[c]
                == spec_category(
                pm.values@[m]@[c] as int,
                c,
                spec_now_index(pm.dates@, now),
                spec_delivery_weeks(delivery_times@, pm.materials@[m]@),
            )),
        r matches Err(e) ==> first_without_lead(pm.materials@, delivery_times@) >= 0 && (
        e matches PlanError::DeliveryLeadTimeNotFound(n) && n@ == pm.materials@[
            first_without_lead(pm.materials@, delivery_times@)
        ]@),
{
    let now_index = find_now_index(&pm.dates, now);
    let nrows = pm.materials.len();
    let ncols = pm.dates.len();
    let mut cats: Vec<Vec<CellCategory>> = Vec::new();
    let mut m: usize = 0;
    while m < nrows
        invariant
            m <= nrows,
            nrows == pm.materials@.len(),
            ncols == pm.dates@.len(),
            pm.wf(),
            now_index as int == spec_now_index(pm.dates@, now),
            cats@.len() == m,
            forall|x: int| 0 <= x < m ==> #[trigger] cats@[x]@.len() == ncols,
            forall|x: int, c: int|
                0 <= x < m && 0 <= c < ncols ==> #[trigger] cats@[x]@[c] == spec_category(
                    pm.values@[x]@[c] as int,
                    c,
                    spec_now_index(pm.dates@, now),
                    spec_delivery_weeks(delivery_times@, pm.materials@[x]@),
                ),
            forall|j: int|
                0 <= j < m ==> spec_delivery_weeks(
                    delivery_times@,
                    #[trigger] pm.materials@[j]@,
                ) >= 0,
        decreases nrows - m,
    {
        let material = &pm.materials[m];
        let weeks = match lookup_weeks(delivery_times, material) {
            Some(w) => w,
            None => {
                proof {
                    lemma_first_without_lead_at(pm.materials@, delivery_times@, m as int);
                }
                return Err(PlanError::DeliveryLeadTimeNotFound(material.clone()));
            },
        };
        let lead = weeks as usize;
        let mut row: Vec<CellCategory> = Vec::new();
        let mut c: usize = 0;
        while c < ncols
            invariant
                c <= ncols,
                ncols == pm.dates@.len(),
                pm.wf(),
                0 <= (m as int) < pm.materials@.len(),
                now_index as int == spec_now_index(pm.dates@, now),
                lead as int == spec_delivery_weeks(delivery_times@, pm.materials@[m as int]@),
                row@.len() == c,
                forall|x: int|
                    0 <= x < c ==> #[trigger] row@[x] == spec_category(
                        pm.values@[m as int]@[x] as int,
                        x,
                        spec_now_index(pm.dates@, now),
                        spec_delivery_weeks(delivery_times@, pm.materials@[m as int]@),
                    ),
            decreases ncols - c,
        {
            let within = c <= now_index || c - now_index <= lead;
            let value = pm.values[m][c];
            let cat = if within {
                if value < 0 {
                    CellCategory::AtRisk
                } else {
                    CellCategory::Healthy
                }
            } else {
                CellCategory::OutOfHorizon
            };
            row.push(cat);
            c = c + 1;
        }
        cats.push(row);
        m = m + 1;
    }
    proof {
        lemma_first_without_lead_none(pm.materials@, delivery_times@);
    }
    Ok(cats)
}

} // verus!
