use vstd::prelude::*;

use crate::errors::PlanError;
use crate::orders_plan::MaterialInfo;
use crate::text::str_eq;
use vstd::string::StringExecFns;

verus! {

/// One production-plan row: `qty` units of `product_name` planned for `date`.
/// Dates are day numbers counted from a week-aligned epoch; quantities are
/// scaled signed integers and planned quantities are non-negative.
#[derive(Debug, Clone, PartialEq, Eq)]
pub struct PurchasePlanItem {
    pub product_name: String,
    pub date: u32,
    pub qty: i64,
}

/// A product's bill of materials, effective from `date_from`.
#[derive(Debug, Clone, PartialEq, Eq)]
pub struct Specification {
    pub product_name: String,
    pub date_from: u32,
    pub items: Vec<SpecificationItem>,
}

/// One bill-of-materials line: `qty` units of `material_name` are consumed
/// per unit of the product. The per-unit quantity is non-negative.
#[derive(Debug, Clone, PartialEq, Eq)]
pub struct SpecificationItem {
    pub material_name: String,
    pub qty: i64,
}

/// The incoming lines of one supplier's purchase-order file.
#[derive(Debug, Clone, PartialEq, Eq)]
pub struct PurchaseOrder {
    pub name: String,
    pub items: Vec<MaterialInfo>,
}

/// Procurement lead time for one material, in whole weeks.
#[derive(Debug, Clone, PartialEq, Eq)]
pub struct DeliveryTime {
    pub material_name: String,
    pub weeks: u32,
}

/// The full snapshot of input collections for one report run.
#[derive(Debug, Clone, PartialEq, Eq)]
pub struct InitialData {
    pub purchase_orders: Vec<PurchaseOrder>,
    pub delivery_times: Vec<DeliveryTime>,
    pub specifications: Vec<Specification>,
    pub stocks: Vec<MaterialInfo>,
    pub purchase_plan_items: Vec<PurchasePlanItem>,
}

/// Lead time in weeks of the first entry for material `m`, or -1 when the
/// material has no lead-time entry.
pub open spec fn spec_delivery_weeks(dts: Seq<DeliveryTime>, m: Seq<char>) -> int
    decreases dts.len(),
{
    if dts.len() == 0 {
        -1
    } else if dts[0].material_name@ == m {
        dts[0].weeks as int
    } else {
        spec_delivery_weeks(dts.drop_first(), m)
    }
}

impl InitialData {
    /// Delivery lead time, in weeks, of `material_name`; absence of an entry
    /// is an error, not a default of zero.
    pub fn get_delivery_weeks(&self, material_name: &str) -> (r: Result<usize, PlanError>)
        ensures
            r is Ok <==> spec_delivery_weeks(self.delivery_times@, material_name@) >= 0,
            r matches Ok(w) ==> w == spec_delivery_weeks(self.delivery_times@, material_name@),
            r matches Err(e) ==> (e matches PlanError::DeliveryLeadTimeNotFound(n) && n@
                == material_name@),
    {
        let n = self.delivery_times.len();
        let mut i: usize = 0;
        proof {
            assert(self.delivery_times@.skip(0) =~= self.delivery_times@);
        }
        while i < n
            invariant
                i <= n,
                n == self.delivery_times@.len(),
                spec_delivery_weeks(self.delivery_times@, material_name@) == spec_delivery_weeks(
                    self.delivery_times@.skip(i as int),
                    material_name@,
                ),
            decreases n - i,
        {
            let dt = &self.delivery_times[i];
            proof {
                assert(self.delivery_times@.skip(i as int)[0] == self.delivery_times@[i as int]);
                assert(self.delivery_times@.skip(i as int).drop_first()
                    =~= self.delivery_times@.skip(i as int + 1));
            }
            if str_eq(dt.material_name.as_str(), material_name) {
                return Ok(dt.weeks as usize);
            }
            i = i + 1;
        }
        Err(PlanError::DeliveryLeadTimeNotFound(String::from_str(material_name)))
    }
}

/// Builds the lead-time entities from already-parsed `(material, weeks)`
/// rows, one entity per row in row order.
pub fn read_delivery_time_items(rows: Vec<(String, u32)>) -> (r: Vec<DeliveryTime>)
    ensures
        r@.len() == rows@.len(),
        forall|i: int|
            0 <= i < rows@.len() ==> #[trigger] r@[i].material_name@ == rows@[i].0@ && r@[i].weeks
                == rows@[i].1,
{
    let mut r: Vec<DeliveryTime> = Vec::new();
    let mut i: usize = 0;
    let n = rows.len();
    while i < n
        invariant
            i <= n,
            n == rows@.len(),
            r@.len() == i,
            forall|j: int|
                0 <= j < i ==> #[trigger] r@[j].material_name@ == rows@[j].0@ && r@[j].weeks
                    == rows@[j].1,
        decreases n - i,
    {
        let (name, weeks) = (rows[i].0.clone(), rows[i].1);
        r.push(DeliveryTime { material_name: name, weeks });
        i = i + 1;
    }
    r
}

} // verus!
