use vstd::prelude::*;
use vstd::math::abs;

use crate::errors::PlanError;
use crate::init_data::{
    InitialData, PurchaseOrder, PurchasePlanItem, Specification, SpecificationItem,
};
use crate::text::str_eq;

verus! {

/// One signed contribution to a material's balance on a date: positive for
/// stock and incoming orders, negative for derived demand.
#[derive(Debug, Clone, PartialEq, Eq)]
pub struct MaterialInfo {
    pub date: u32,
    pub material: String,
    pub qty: i64,
}

/// The ledger key of a contribution: its day number and material name.
pub open spec fn mat_key(e: MaterialInfo) -> (int, Seq<char>) {
    (e.date as int, e.material@)
}

/// The amount `e` contributes to key `k`.
pub open spec fn key_contrib(e: MaterialInfo, k: (int, Seq<char>)) -> int {
    if mat_key(e) == k {
        e.qty as int
    } else {
        0
    }
}

/// Sum of the contributions in `s` to key `k`.
pub open spec fn qsum(s: Seq<MaterialInfo>, k: (int, Seq<char>)) -> int
    decreases s.len(),
{
    if s.len() == 0 {
        0
    } else {
        qsum(s.drop_last(), k) + key_contrib(s.last(), k)
    }
}

/// Sum of the magnitudes of all contributions in `s`; it bounds every
/// per-key sum, so it bounds every intermediate balance the pipeline forms.
pub open spec fn abs_sum(s: Seq<MaterialInfo>) -> int
    decreases s.len(),
{
    if s.len() == 0 {
        0
    } else {
        abs_sum(s.drop_last()) + abs(s.last().qty as int)
    }
}

/// The set of ledger keys that occur in `s`.
pub open spec fn keys_of(s: Seq<MaterialInfo>) -> Set<(int, Seq<char>)>
    decreases s.len(),
{
    if s.len() == 0 {
        Set::empty()
    } else {
        keys_of(s.drop_last()).insert(mat_key(s.last()))
    }
}

/// No two entries of `s` share a ledger key.
pub open spec fn unique_keys(s: Seq<MaterialInfo>) -> bool {
    forall|i: int, j: int| 0 <= i < j < s.len() ==> mat_key(s[i]) != mat_key(s[j])
}

pub proof fn lemma_abs_sum_nonneg(s: Seq<MaterialInfo>)
    ensures
        abs_sum(s) >= 0,
    decreases s.len(),
{
    if s.len() > 0 {
        lemma_abs_sum_nonneg(s.drop_last());
    }
}

/// Every per-key sum is bounded by the sum of magnitudes.
pub proof fn lemma_qsum_le_abs_sum(s: Seq<MaterialInfo>, k: (int, Seq<char>))
    ensures
        abs(qsum(s, k)) <= abs_sum(s),
    decreases s.len(),
{
    if s.len() > 0 {
        lemma_qsum_le_abs_sum(s.drop_last(), k);
    }
}

/// A key occurs in `s` exactly when some entry has it.
pub proof fn lemma_keys_of_contains(s: Seq<MaterialInfo>, k: (int, Seq<char>))
    ensures
        keys_of(s).contains(k) <==> exists|i: int| 0 <= i < s.len() && mat_key(s[i]) == k,
    decreases s.len(),
{
    if s.len() > 0 {
        lemma_keys_of_contains(s.drop_last(), k);
        if keys_of(s).contains(k) {
            if mat_key(s.last()) == k {
                assert(mat_key(s[s.len() - 1]) == k);
            } else {
                let i = choose|i: int| 0 <= i < s.drop_last().len() && mat_key(
                    s.drop_last()[i],
                ) == k;
                assert(mat_key(s[i]) == k);
            }
        }
        if exists|i: int| 0 <= i < s.len() && mat_key(s[i]) == k {
            let i = choose|i: int| 0 <= i < s.len() && mat_key(s[i]) == k;
            if i < s.len() - 1 {
                assert(mat_key(s.drop_last()[i]) == k);
            }
        }
    }
}

/// A key that occurs nowhere in `s` sums to zero.
pub proof fn lemma_qsum_absent(s: Seq<MaterialInfo>, k: (int, Seq<char>))
    requires
        !keys_of(s).contains(k),
    ensures
        qsum(s, k) == 0,
    decreases s.len(),
{
    if s.len() > 0 {
        lemma_qsum_absent(s.drop_last(), k);
    }
}

/// Under unique keys, the entry at `i` stores the whole per-key sum.
pub proof fn lemma_stored_value(s: Seq<MaterialInfo>, i: int)
    requires
        unique_keys(s),
        0 <= i < s.len(),
    ensures
        qsum(s, mat_key(s[i])) == s[i].qty as int,
    decreases s.len(),
{
    let k = mat_key(s[i]);
    if i == s.len() - 1 {
        assert(!keys_of(s.drop_last()).contains(k)) by {
            lemma_keys_of_contains(s.drop_last(), k);
        }
        lemma_qsum_absent(s.drop_last(), k);
    } else {
        assert(unique_keys(s.drop_last())) by {
            assert(forall|x: int, y: int|
                0 <= x < y < s.drop_last().len() ==> mat_key(s.drop_last()[x]) != mat_key(
                    s.drop_last()[y],
                ));
        }
        lemma_stored_value(s.drop_last(), i);
        assert(key_contrib(s.last(), k) == 0);
    }
}

pub proof fn lemma_qsum_update(s: Seq<MaterialInfo>, i: int, e: MaterialInfo, k: (int, Seq<char>))
    requires
        0 <= i < s.len(),
    ensures
        qsum(s.update(i, e), k) == qsum(s, k) - key_contrib(s[i], k) + key_contrib(e, k),
        abs_sum(s.update(i, e)) == abs_sum(s) - abs(s[i].qty as int) + abs(e.qty as int),
    decreases s.len(),
{
    if i == s.len() - 1 {
        assert(s.update(i, e).drop_last() =~= s.drop_last());
    } else {
        assert(s.update(i, e).drop_last() =~= s.drop_last().update(i, e));
        lemma_qsum_update(s.drop_last(), i, e, k);
    }
}

pub proof fn lemma_keys_of_update(s: Seq<MaterialInfo>, i: int, e: MaterialInfo)
    requires
        0 <= i < s.len(),
        mat_key(e) == mat_key(s[i]),
    ensures
        keys_of(s.update(i, e)) == keys_of(s),
    decreases s.len(),
{
    if i == s.len() - 1 {
        assert(s.update(i, e).drop_last() =~= s.drop_last());
        assert(keys_of(s.update(i, e)) =~= keys_of(s));
    } else {
        assert(s.update(i, e).drop_last() =~= s.drop_last().update(i, e));
        lemma_keys_of_update(s.drop_last(), i, e);
        assert(keys_of(s.update(i, e)) =~= keys_of(s));
    }
}

pub proof fn lemma_push_facts(s: Seq<MaterialInfo>, e: MaterialInfo, k: (int, Seq<char>))
    ensures
        qsum(s.push(e), k) == qsum(s, k) + key_contrib(e, k),
        abs_sum(s.push(e)) == abs_sum(s) + abs(e.qty as int),
        keys_of(s.push(e)) == keys_of(s).insert(mat_key(e)),
{
    assert(s.push(e).drop_last() =~= s);
    assert(s.push(e).last() == e);
}

/// Facts about a prefix of `s` one element longer.
pub proof fn lemma_take_succ(s: Seq<MaterialInfo>, i: int, k: (int, Seq<char>))
    requires
        0 <= i < s.len(),
    ensures
        qsum(s.take(i + 1), k) == qsum(s.take(i), k) + key_contrib(s[i], k),
        abs_sum(s.take(i + 1)) == abs_sum(s.take(i)) + abs(s[i].qty as int),
        keys_of(s.take(i + 1)) == keys_of(s.take(i)).insert(mat_key(s[i])),
{
    assert(s.take(i + 1).drop_last() =~= s.take(i));
    assert(s.take(i + 1).last() == s[i]);
}

/// Magnitude sums grow along prefixes.
pub proof fn lemma_abs_sum_take_le(s: Seq<MaterialInfo>, i: int)
    requires
        0 <= i <= s.len(),
    ensures
        abs_sum(s.take(i)) <= abs_sum(s),
    decreases s.len() - i,
{
    if i == s.len() {
        assert(s.take(i) =~= s);
    } else {
        lemma_take_succ(s, i, (0, Seq::empty()));
        lemma_abs_sum_take_le(s, i + 1);
    }
}

/// The balance ledger: one accumulated signed quantity per (date, material)
/// key. The stored value of a key is always the exact sum of every
/// contribution ever merged into it.
#[derive(Debug, Clone, PartialEq, Eq)]
pub struct BalanceLedger {
    pub entries: Vec<MaterialInfo>,
}

impl BalanceLedger {
    /// Keys are unique, so each entry stores its key's whole sum.
    pub open spec fn wf(self) -> bool {
        unique_keys(self.entries@)
    }

    /// The ledger as a mapping from keys to accumulated quantities.
    pub open spec fn contents(self) -> Map<(int, Seq<char>), int> {
        Map::new(
            |k: (int, Seq<char>)| keys_of(self.entries@).contains(k),
            |k: (int, Seq<char>)| qsum(self.entries@, k),
        )
    }

    /// An empty ledger.
    pub fn new() -> (r: BalanceLedger)
        ensures
            r.wf(),
            r.entries@ =~= Seq::<MaterialInfo>::empty(),
    {
        BalanceLedger { entries: Vec::new() }
    }

    /// The accumulated quantity at `(date, material)`, or `None` when the
    /// key has never received a contribution.
    pub fn get(&self, date: u32, material: &String) -> (r: Option<i64>)
        requires
            self.wf(),
        ensures
            r matches Some(q) ==> keys_of(self.entries@).contains((date as int, material@))
                && q as int == qsum(self.entries@, (date as int, material@)),
            r is None ==> !keys_of(self.entries@).contains((date as int, material@)),
    {
        match find_entry(&self.entries, date, material) {
            Some(i) => {
                proof {
                    lemma_stored_value(self.entries@, i as int);
                    lemma_keys_of_contains(self.entries@, (date as int, material@));
                }
                Some(self.entries[i].qty)
            },
            None => None,
        }
    }
}

/// Index of the entry with key `(date, material)`, if any.
fn find_entry(entries: &Vec<MaterialInfo>, date: u32, material: &String) -> (r: Option<usize>)
    ensures
        r matches Some(i) ==> i < entries@.len() && mat_key(entries@[i as int]) == (
            date as int,
            material@,
        ),
        r is None ==> !keys_of(entries@).contains((date as int, material@)),
{
    let n = entries.len();
    let mut i: usize = 0;
    while i < n
        invariant
            i <= n,
            n == entries@.len(),
            forall|j: int| 0 <= j < i ==> mat_key(entries@[j]) != (date as int, material@),
        decreases n - i,
    {
        let e = &entries[i];
        if e.date == date && str_eq(e.material.as_str(), material.as_str()) {
            return Some(i);
        }
        i = i + 1;
    }
    proof {
        lemma_keys_of_contains(entries@, (date as int, material@));
    }
    None
}

/// Adds `qty` to the accumulated value at `(date, material)`, inserting the
/// key when it is new. No contribution is dropped or double-counted.
pub fn ledger_upsert(entries: &mut Vec<MaterialInfo>, date: u32, material: &String, qty: i64)
    requires
        unique_keys(old(entries)@),
        abs_sum(old(entries)@) + abs(qty as int) <= i64::MAX,
    ensures
        unique_keys(final(entries)@),
        forall|k: (int, Seq<char>)| #[trigger]
            qsum(final(entries)@, k) == qsum(old(entries)@, k) + (if k == (
                date as int,
                material@,
            ) {
                qty as int
            } else {
                0
            }),
        keys_of(final(entries)@) == keys_of(old(entries)@).insert((date as int, material@)),
        abs_sum(final(entries)@) <= abs_sum(old(entries)@) + abs(qty as int),
{
    let ghost key = (date as int, material@);
    match find_entry(entries, date, material) {
        Some(i) => {
            proof {
                lemma_stored_value(entries@, i as int);
                lemma_qsum_le_abs_sum(entries@, key);
                lemma_abs_sum_nonneg(entries@);
            }
            let e = &entries[i];
            let updated = MaterialInfo {
                date: e.date,
                material: e.material.clone(),
                qty: e.qty + qty,
            };
            proof {
                assert(mat_key(updated) == mat_key(entries@[i as int]));
            }
            let ghost before = entries@;
            entries[i] = updated;
            proof {
                assert forall|k: (int, Seq<char>)| #[trigger] qsum(entries@, k) == qsum(before, k)
                    + (if k == key {
                    qty as int
                } else {
                    0
                }) by {
                    lemma_qsum_update(before, i as int, updated, k);
                }
                lemma_keys_of_update(before, i as int, updated);
                lemma_qsum_update(before, i as int, updated, key);
                assert(keys_of(entries@) =~= keys_of(before).insert(key)) by {
                    lemma_keys_of_contains(before, key);
                }
            }
        },
        None => {
            let ghost before = entries@;
            entries.push(MaterialInfo { date, material: material.clone(), qty });
            proof {
                assert(mat_key(entries@.last()) == key);
                assert forall|k: (int, Seq<char>)| #[trigger] qsum(entries@, k) == qsum(before, k)
                    + (if k == key {
                    qty as int
                } else {
                    0
                }) by {
                    lemma_push_facts(before, entries@.last(), k);
                }
                lemma_push_facts(before, entries@.last(), key);
                assert(unique_keys(entries@)) by {
                    lemma_keys_of_contains(before, key);
                    assert(forall|j: int|
                        0 <= j < before.len() ==> mat_key(entries@[j]) == mat_key(before[j]));
                }
            }
        },
    }
}

/// Merges every contribution of `mis` into the ledger by strict summation:
/// existing keys accumulate, new keys are inserted, nothing is overwritten.
pub fn append_qty(map: &mut BalanceLedger, mis: &Vec<MaterialInfo>)
    requires
        old(map).wf(),
        abs_sum(old(map).entries@) + abs_sum(mis@) <= i64::MAX,
    ensures
        final(map).wf(),
        forall|k: (int, Seq<char>)| #[trigger]
            qsum(final(map).entries@, k) == qsum(old(map).entries@, k) + qsum(mis@, k),
        keys_of(final(map).entries@) == keys_of(old(map).entries@).union(keys_of(mis@)),
        abs_sum(final(map).entries@) <= abs_sum(old(map).entries@) + abs_sum(mis@),
{
    let n = mis.len();
    let mut i: usize = 0;
    proof {
        assert(mis@.take(0) =~= Seq::<MaterialInfo>::empty());
        assert(keys_of(old(map).entries@).union(keys_of(mis@.take(0))) =~= keys_of(
            old(map).entries@,
        ));
    }
    while i < n
        invariant
            i <= n,
            n == mis@.len(),
            unique_keys(map.entries@),
            forall|k: (int, Seq<char>)| #[trigger]
                qsum(map.entries@, k) == qsum(old(map).entries@, k) + qsum(
                    mis@.take(i as int),
                    k,
                ),
            keys_of(map.entries@) == keys_of(old(map).entries@).union(
                keys_of(mis@.take(i as int)),
            ),
            abs_sum(map.entries@) <= abs_sum(old(map).entries@) + abs_sum(mis@.take(i as int)),
            abs_sum(old(map).entries@) + abs_sum(mis@) <= i64::MAX,
        decreases n - i,
    {
        let mi = &mis[i];
        proof {
            lemma_take_succ(mis@, i as int, (0int, Seq::empty()));
            lemma_abs_sum_take_le(mis@, i as int + 1);
        }
        let ghost before = map.entries@;
        ledger_upsert(&mut map.entries, mi.date, &mi.material, mi.qty);
        proof {
            let ghost key = (mi.date as int, mi.material@);
            assert forall|k: (int, Seq<char>)| #[trigger] qsum(map.entries@, k) == qsum(
                old(map).entries@,
                k,
            ) + qsum(mis@.take(i as int + 1), k) by {
                lemma_take_succ(mis@, i as int, k);
                assert(key_contrib(mis@[i as int], k) == (if k == key {
                    mi.qty as int
                } else {
                    0
                }));
            }
            lemma_take_succ(mis@, i as int, key);
            assert(mat_key(mis@[i as int]) == key);
            assert(keys_of(map.entries@) =~= keys_of(old(map).entries@).union(
                keys_of(mis@.take(i as int + 1)),
            ));
        }
        i = i + 1;
    }
    proof {
        assert(mis@.take(n as int) =~= mis@);
    }
}

/// Per-key sum of the contributions of every purchase-order file in `pos`.
pub open spec fn po_qsum(pos: Seq<PurchaseOrder>, k: (int, Seq<char>)) -> int
    decreases pos.len(),
{
    if pos.len() == 0 {
        0
    } else {
        po_qsum(pos.drop_last(), k) + qsum(pos.last().items@, k)
    }
}

/// Sum of the magnitudes of every purchase-order contribution in `pos`.
pub open spec fn po_abs_sum(pos: Seq<PurchaseOrder>) -> int
    decreases pos.len(),
{
    if pos.len() == 0 {
        0
    } else {
        po_abs_sum(pos.drop_last()) + abs_sum(pos.last().items@)
    }
}

/// The set of ledger keys occurring in any purchase-order file of `pos`.
pub open spec fn po_keys(pos: Seq<PurchaseOrder>) -> Set<(int, Seq<char>)>
    decreases pos.len(),
{
    if pos.len() == 0 {
        Set::empty()
    } else {
        po_keys(pos.drop_last()).union(keys_of(pos.last().items@))
    }
}

pub proof fn lemma_po_take_succ(pos: Seq<PurchaseOrder>, i: int, k: (int, Seq<char>))
    requires
        0 <= i < pos.len(),
    ensures
        po_qsum(pos.take(i + 1), k) == po_qsum(pos.take(i), k) + qsum(pos[i].items@, k),
        po_abs_sum(pos.take(i + 1)) == po_abs_sum(pos.take(i)) + abs_sum(pos[i].items@),
        po_keys(pos.take(i + 1)) == po_keys(pos.take(i)).union(keys_of(pos[i].items@)),
{
    assert(pos.take(i + 1).drop_last() =~= pos.take(i));
    assert(pos.take(i + 1).last() == pos[i]);
}

pub proof fn lemma_po_abs_sum_take_le(pos: Seq<PurchaseOrder>, i: int)
    requires
        0 <= i <= pos.len(),
    ensures
        po_abs_sum(pos.take(i)) <= po_abs_sum(pos),
    decreases pos.len() - i,
{
    if i == pos.len() {
        assert(pos.take(i) =~= pos);
    } else {
        lemma_po_take_succ(pos, i, (0int, Seq::empty()));
        lemma_abs_sum_nonneg(pos[i].items@);
        lemma_po_abs_sum_take_le(pos, i + 1);
    }
}

/// Builds the balance ledger: merges the stock snapshot, the derived
/// material requirements, and every purchase-order file, in that order.
/// The resulting per-key values do not depend on that order.
pub fn calculate_stocks_plan(requirements: &Vec<MaterialInfo>, data_set: &InitialData) -> (r:
    BalanceLedger)
    requires
        abs_sum(data_set.stocks@) + abs_sum(requirements@) + po_abs_sum(data_set.purchase_orders@)
            <= i64::MAX,
    ensures
        r.wf(),
        forall|k: (int, Seq<char>)| #[trigger]
            qsum(r.entries@, k) == qsum(data_set.stocks@, k) + qsum(requirements@, k) + po_qsum(
                data_set.purchase_orders@,
                k,
            ),
        keys_of(r.entries@) == keys_of(data_set.stocks@).union(keys_of(requirements@)).union(
            po_keys(data_set.purchase_orders@),
        ),
        abs_sum(r.entries@) <= abs_sum(data_set.stocks@) + abs_sum(requirements@) + po_abs_sum(
            data_set.purchase_orders@,
        ),
{
    let mut map = BalanceLedger::new();
    proof {
        lemma_abs_sum_nonneg(data_set.stocks@);
        lemma_abs_sum_nonneg(requirements@);
        lemma_po_abs_sum_take_le(data_set.purchase_orders@, 0);
        assert(data_set.purchase_orders@.take(0) =~= Seq::<PurchaseOrder>::empty());
    }
    append_qty(&mut map, &data_set.stocks);
    append_qty(&mut map, requirements);
    let n = data_set.purchase_orders.len();
    let mut i: usize = 0;
    proof {
        assert(keys_of(map.entries@).union(po_keys(data_set.purchase_orders@.take(0)))
            =~= keys_of(map.entries@));
    }
    let ghost base = map.entries@;
    while i < n
        invariant
            i <= n,
            n == data_set.purchase_orders@.len(),
            map.wf(),
            forall|k: (int, Seq<char>)| #[trigger]
                qsum(map.entries@, k) == qsum(base, k) + po_qsum(
                    data_set.purchase_orders@.take(i as int),
                    k,
                ),
            keys_of(map.entries@) == keys_of(base).union(
                po_keys(data_set.purchase_orders@.take(i as int)),
            ),
            abs_sum(map.entries@) <= abs_sum(base) + po_abs_sum(
                data_set.purchase_orders@.take(i as int),
            ),
            abs_sum(base) + po_abs_sum(data_set.purchase_orders@) <= i64::MAX,
        decreases n - i,
    {
        let po = &data_set.purchase_orders[i];
        let ghost pos = data_set.purchase_orders@;
        proof {
            lemma_po_take_succ(pos, i as int, (0int, Seq::empty()));
            lemma_po_abs_sum_take_le(pos, i as int + 1);
        }
        let ghost before = map.entries@;
        append_qty(&mut map, &po.items);
        proof {
            assert forall|k: (int, Seq<char>)| #[trigger] qsum(map.entries@, k) == qsum(base, k)
                + po_qsum(pos.take(i as int + 1), k) by {
                lemma_po_take_succ(pos, i as int, k);
            }
            assert(keys_of(map.entries@) =~= keys_of(base).union(
                po_keys(pos.take(i as int + 1)),
            ));
        }
        i = i + 1;
    }
    proof {
        assert(data_set.purchase_orders@.take(n as int) =~= data_set.purchase_orders@);
    }
    map
}

/// Sum of the per-unit quantities in `lines` for material `m`.
pub open spec fn lines_qty(lines: Seq<SpecificationItem>, m: Seq<char>) -> int
    decreases lines.len(),
{
    if lines.len() == 0 {
        0
    } else {
        lines_qty(lines.drop_last(), m) + (if lines.last().material_name@ == m {
            lines.last().qty as int
        } else {
            0
        })
    }
}

/// Sum of the magnitudes of all per-unit quantities in `lines`.
pub open spec fn lines_abs(lines: Seq<SpecificationItem>) -> int
    decreases lines.len(),
{
    if lines.len() == 0 {
        0
    } else {
        lines_abs(lines.drop_last()) + abs(lines.last().qty as int)
    }
}

/// The ledger keys that `lines` produces on date `d`.
pub open spec fn line_keys(lines: Seq<SpecificationItem>, d: int) -> Set<(int, Seq<char>)>
    decreases lines.len(),
{
    if lines.len() == 0 {
        Set::empty()
    } else {
        line_keys(lines.drop_last(), d).insert((d, lines.last().material_name@))
    }
}

pub proof fn lemma_lines_take_succ(lines: Seq<SpecificationItem>, j: int, m: Seq<char>, d: int)
    requires
        0 <= j < lines.len(),
    ensures
        lines_qty(lines.take(j + 1), m) == lines_qty(lines.take(j), m) + (if lines[
            j
        ].material_name@ == m {
            lines[j].qty as int
        } else {
            0
        }),
        lines_abs(lines.take(j + 1)) == lines_abs(lines.take(j)) + abs(lines[j].qty as int),
        line_keys(lines.take(j + 1), d) == line_keys(lines.take(j), d).insert(
            (d, lines[j].material_name@),
        ),
{
    assert(lines.take(j + 1).drop_last() =~= lines.take(j));
    assert(lines.take(j + 1).last() == lines[j]);
}

pub proof fn lemma_lines_abs_nonneg(lines: Seq<SpecificationItem>)
    ensures
        lines_abs(lines) >= 0,
    decreases lines.len(),
{
    if lines.len() > 0 {
        lemma_lines_abs_nonneg(lines.drop_last());
    }
}

pub proof fn lemma_lines_abs_take_le(lines: Seq<SpecificationItem>, j: int)
    requires
        0 <= j <= lines.len(),
    ensures
        lines_abs(lines.take(j)) <= lines_abs(lines),
    decreases lines.len() - j,
{
    if j == lines.len() {
        assert(lines.take(j) =~= lines);
    } else {
        lemma_lines_take_succ(lines, j, Seq::empty(), 0int);
        lemma_lines_abs_take_le(lines, j + 1);
    }
}

/// Index of the first specification for product `name`, or -1 if absent.
pub open spec fn spec_find_spec(specs: Seq<Specification>, name: Seq<char>) -> int
    decreases specs.len(),
{
    if specs.len() == 0 {
        -1
    } else if specs[0].product_name@ == name {
        0
    } else {
        let r = spec_find_spec(specs.drop_first(), name);
        if r < 0 {
            -1
        } else {
            r + 1
        }
    }
}

pub proof fn lemma_find_spec_valid(specs: Seq<Specification>, name: Seq<char>)
    ensures
        -1 <= spec_find_spec(specs, name) < specs.len(),
        spec_find_spec(specs, name) >= 0 ==> specs[spec_find_spec(specs, name)].product_name@
            == name,
    decreases specs.len(),
{
    if specs.len() > 0 && specs[0].product_name@ != name {
        lemma_find_spec_valid(specs.drop_first(), name);
    }
}

/// What one plan row demands of key `k`, given its bill-of-materials lines:
/// the planned quantity times the per-unit quantity, negated.
pub open spec fn item_demand(
    p: PurchasePlanItem,
    lines: Seq<SpecificationItem>,
    k: (int, Seq<char>),
) -> int {
    if k.0 == p.date as int {
        -(p.qty as int) * lines_qty(lines, k.1)
    } else {
        0
    }
}

/// What one plan row demands of key `k` under the catalog `specs`.
pub open spec fn plan_item_demand(
    p: PurchasePlanItem,
    specs: Seq<Specification>,
    k: (int, Seq<char>),
) -> int {
    let si = spec_find_spec(specs, p.product_name@);
    if si < 0 {
        0
    } else {
        item_demand(p, specs[si].items@, k)
    }
}

/// Total signed demand of the whole plan for key `k`.
pub open spec fn demand_qty(
    plan: Seq<PurchasePlanItem>,
    specs: Seq<Specification>,
    k: (int, Seq<char>),
) -> int
    decreases plan.len(),
{
    if plan.len() == 0 {
        0
    } else {
        demand_qty(plan.drop_last(), specs, k) + plan_item_demand(plan.last(), specs, k)
    }
}

/// Magnitude bound of one plan row's demand.
pub open spec fn plan_item_abs(p: PurchasePlanItem, specs: Seq<Specification>) -> int {
    let si = spec_find_spec(specs, p.product_name@);
    if si < 0 {
        0
    } else {
        abs(p.qty as int) * lines_abs(specs[si].items@)
    }
}

/// Magnitude bound of the whole plan's demand; bounds every balance the
/// aggregation forms along the way.
pub open spec fn demand_abs(plan: Seq<PurchasePlanItem>, specs: Seq<Specification>) -> int
    decreases plan.len(),
{
    if plan.len() == 0 {
        0
    } else {
        demand_abs(plan.drop_last(), specs) + plan_item_abs(plan.last(), specs)
    }
}

/// The ledger keys one plan row produces.
pub open spec fn plan_item_keys(p: PurchasePlanItem, specs: Seq<Specification>) -> Set<
    (int, Seq<char>),
> {
    let si = spec_find_spec(specs, p.product_name@);
    if si < 0 {
        Set::empty()
    } else {
        line_keys(specs[si].items@, p.date as int)
    }
}

/// The ledger keys the whole plan produces.
pub open spec fn demand_keys(plan: Seq<PurchasePlanItem>, specs: Seq<Specification>) -> Set<
    (int, Seq<char>),
>
    decreases plan.len(),
{
    if plan.len() == 0 {
        Set::empty()
    } else {
        demand_keys(plan.drop_last(), specs).union(plan_item_keys(plan.last(), specs))
    }
}

/// Index of the first plan row whose product has no specification, or -1.
pub open spec fn first_missing(plan: Seq<PurchasePlanItem>, specs: Seq<Specification>) -> int
    decreases plan.len(),
{
    if plan.len() == 0 {
        -1
    } else if spec_find_spec(specs, plan[0].product_name@) < 0 {
        0
    } else {
        let r = first_missing(plan.drop_first(), specs);
        if r < 0 {
            -1
        } else {
            r + 1
        }
    }
}

pub proof fn lemma_demand_take_succ(
    plan: Seq<PurchasePlanItem>,
    specs: Seq<Specification>,
    i: int,
    k: (int, Seq<char>),
)
    requires
        0 <= i < plan.len(),
    ensures
        demand_qty(plan.take(i + 1), specs, k) == demand_qty(plan.take(i), specs, k)
            + plan_item_demand(plan[i], specs, k),
        demand_abs(plan.take(i + 1), specs) == demand_abs(plan.take(i), specs) + plan_item_abs(
            plan[i],
            specs,
        ),
        demand_keys(plan.take(i + 1), specs) == demand_keys(plan.take(i), specs).union(
            plan_item_keys(plan[i], specs),
        ),
{
    assert(plan.take(i + 1).drop_last() =~= plan.take(i));
    assert(plan.take(i + 1).last() == plan[i]);
}

pub proof fn lemma_plan_item_abs_nonneg(p: PurchasePlanItem, specs: Seq<Specification>)
    ensures
        plan_item_abs(p, specs) >= 0,
{
    let si = spec_find_spec(specs, p.product_name@);
    if si >= 0 {
        lemma_find_spec_valid(specs, p.product_name@);
        lemma_lines_abs_nonneg(specs[si].items@);
        vstd::arithmetic::mul::lemma_mul_nonnegative(
            abs(p.qty as int) as int,
            lines_abs(specs[si].items@),
        );
    }
}

pub proof fn lemma_demand_abs_take_le(
    plan: Seq<PurchasePlanItem>,
    specs: Seq<Specification>,
    i: int,
)
    requires
        0 <= i <= plan.len(),
    ensures
        demand_abs(plan.take(i), specs) <= demand_abs(plan, specs),
        demand_abs(plan.take(i), specs) >= 0,
    decreases plan.len() - i,
{
    if i == 0 {
        assert(plan.take(0) =~= Seq::<PurchasePlanItem>::empty());
    }
    if i == plan.len() {
        assert(plan.take(i) =~= plan);
        lemma_demand_abs_nonneg(plan, specs);
    } else {
        lemma_demand_take_succ(plan, specs, i, (0int, Seq::empty()));
        lemma_plan_item_abs_nonneg(plan[i], specs);
        lemma_demand_abs_take_le(plan, specs, i + 1);
        lemma_demand_abs_nonneg(plan.take(i), specs);
    }
}

pub proof fn lemma_demand_abs_nonneg(plan: Seq<PurchasePlanItem>, specs: Seq<Specification>)
    ensures
        demand_abs(plan, specs) >= 0,
    decreases plan.len(),
{
    if plan.len() > 0 {
        lemma_demand_abs_nonneg(plan.drop_last(), specs);
        lemma_plan_item_abs_nonneg(plan.last(), specs);
    }
}

/// First-index characterizations, carried along the scanning loops: when
/// every product before `i` resolves, the first missing row (if any) and the
/// first specification match lie at or past `i`.
pub proof fn lemma_first_missing_skip(
    plan: Seq<PurchasePlanItem>,
    specs: Seq<Specification>,
    i: int,
)
    requires
        0 <= i <= plan.len(),
        forall|j: int| 0 <= j < i ==> spec_find_spec(specs, plan[j].product_name@) >= 0,
    ensures
        first_missing(plan, specs) == (if first_missing(plan.skip(i), specs) < 0 {
            -1
        } else {
            first_missing(plan.skip(i), specs) + i
        }),
    decreases i,
{
    if i > 0 {
        lemma_first_missing_skip(plan, specs, i - 1);
        lemma_first_missing_step(plan.skip(i - 1), specs);
        assert(plan.skip(i - 1)[0] == plan[i - 1]);
        assert(plan.skip(i - 1).drop_first() =~= plan.skip(i));
    } else {
        assert(plan.skip(0) =~= plan);
    }
}

proof fn lemma_first_missing_step(plan: Seq<PurchasePlanItem>, specs: Seq<Specification>)
    requires
        plan.len() > 0,
        spec_find_spec(specs, plan[0].product_name@) >= 0,
    ensures
        first_missing(plan, specs) == (if first_missing(plan.drop_first(), specs) < 0 {
            -1
        } else {
            first_missing(plan.drop_first(), specs) + 1
        }),
{
}

/// The specification of the first catalog entry for the product, or the
/// typed error when the catalog has none.
fn find_specification<'a>(product_name: &String, specifications: &'a Vec<Specification>) -> (r:
    Result<&'a Specification, PlanError>)
    ensures
        r is Ok <==> spec_find_spec(specifications@, product_name@) >= 0,
        r matches Ok(sp) ==> *sp == specifications@[spec_find_spec(
            specifications@,
            product_name@,
        )],
        r matches Err(e) ==> (e matches PlanError::SpecificationNotFound(n) && n@
            == product_name@),
{
    let n = specifications.len();
    let mut i: usize = 0;
    while i < n
        invariant
            i <= n,
            n == specifications@.len(),
            forall|j: int| 0 <= j < i ==> specifications@[j].product_name@ != product_name@,
        decreases n - i,
    {
        let sp = &specifications[i];
        if str_eq(sp.product_name.as_str(), product_name.as_str()) {
            proof {
                lemma_find_spec_at(specifications@, product_name@, i as int);
            }
            return Ok(sp);
        }
        i = i + 1;
    }
    proof {
        lemma_find_spec_none(specifications@, product_name@);
    }
    Err(PlanError::SpecificationNotFound(product_name.clone()))
}

proof fn lemma_find_spec_at(specs: Seq<Specification>, name: Seq<char>, i: int)
    requires
        0 <= i < specs.len(),
        specs[i].product_name@ == name,
        forall|j: int| 0 <= j < i ==> specs[j].product_name@ != name,
    ensures
        spec_find_spec(specs, name) == i,
    decreases i,
{
    if i > 0 {
        assert(specs.drop_first()[i - 1] == specs[i]);
        assert(forall|j: int| 0 <= j < i - 1 ==> specs.drop_first()[j] == specs[j + 1]);
        lemma_find_spec_at(specs.drop_first(), name, i - 1);
    }
}

proof fn lemma_find_spec_none(specs: Seq<Specification>, name: Seq<char>)
    requires
        forall|j: int| 0 <= j < specs.len() ==> specs[j].product_name@ != name,
    ensures
        spec_find_spec(specs, name) == -1,
    decreases specs.len(),
{
    if specs.len() > 0 {
        assert(forall|j: int|
            0 <= j < specs.drop_first().len() ==> specs.drop_first()[j] == specs[j + 1]);
        lemma_find_spec_none(specs.drop_first(), name);
    }
}

/// Derives the plan's material demand: for each plan row, resolves its
/// product's bill of materials and accumulates `-(planned qty × per-unit
/// qty)` under the `(date, material)` key, summing rows that collide.
/// Aborts with `SpecificationNotFound` at the first unresolvable product.
pub fn calculate_need_for_materials(data_set: &InitialData) -> (r: Result<
    Vec<MaterialInfo>,
    PlanError,
>)
    requires
        forall|i: int|
            0 <= i < data_set.purchase_plan_items@.len()
                ==> #[trigger] data_set.purchase_plan_items@[i].qty >= 0,
        forall|i: int, j: int|
            0 <= i < data_set.specifications@.len() && 0 <= j
                < data_set.specifications@[i].items@.len()
                ==> #[trigger] data_set.specifications@[i].items@[j].qty >= 0,
        demand_abs(data_set.purchase_plan_items@, data_set.specifications@) <= i64::MAX,
    ensures
        r is Ok <==> first_missing(data_set.purchase_plan_items@, data_set.specifications@) == -1,
        r matches Ok(v) ==> unique_keys(v@) && keys_of(v@) == demand_keys(
            data_set.purchase_plan_items@,
            data_set.specifications@,
        ) && abs_sum(v@) <= demand_abs(data_set.purchase_plan_items@, data_set.specifications@)
            && forall|k: (int, Seq<char>)| #[trigger]
            qsum(v@, k) == demand_qty(data_set.purchase_plan_items@, data_set.specifications@, k),
        r matches Err(e) ==> first_missing(data_set.purchase_plan_items@, data_set.specifications@)
            >= 0 && (e matches PlanError::SpecificationNotFound(n) && n@
            == data_set.purchase_plan_items@[first_missing(
            data_set.purchase_plan_items@,
            data_set.specifications@,
        )].product_name@),
{
    let plan = &data_set.purchase_plan_items;
    let specs = &data_set.specifications;
    let mut out: Vec<MaterialInfo> = Vec::new();
    let n = plan.len();
    let mut i: usize = 0;
    proof {
        assert(plan@.take(0) =~= Seq::<PurchasePlanItem>::empty());
    }
    while i < n
        invariant
            i <= n,
            n == plan@.len(),
            plan@ == data_set.purchase_plan_items@,
            specs@ == data_set.specifications@,
            forall|x: int| 0 <= x < plan@.len() ==> #[trigger] plan@[x].qty >= 0,
            forall|x: int, y: int|
                0 <= x < specs@.len() && 0 <= y < specs@[x].items@.len()
                    ==> #[trigger] specs@[x].items@[y].qty >= 0,
            demand_abs(plan@, specs@) <= i64::MAX,
            unique_keys(out@),
            forall|k: (int, Seq<char>)| #[trigger]
                qsum(out@, k) == demand_qty(plan@.take(i as int), specs@, k),
            keys_of(out@) == demand_keys(plan@.take(i as int), specs@),
            abs_sum(out@) <= demand_abs(plan@.take(i as int), specs@),
            forall|j: int|
                0 <= j < i ==> spec_find_spec(specs@, #[trigger] plan@[j].product_name@) >= 0,
        decreases n - i,
    {
        let ppi = &plan[i];
        let sp = match find_specification(&ppi.product_name, specs) {
            Ok(sp) => sp,
            Err(e) => {
                proof {
                    lemma_first_missing_skip(plan@, specs@, i as int);
                    assert(plan@.skip(i as int)[0] == plan@[i as int]);
                }
                return Err(e);
            },
        };
        let ghost si = spec_find_spec(specs@, ppi.product_name@);
        proof {
            lemma_find_spec_valid(specs@, ppi.product_name@);
        }
        let m = sp.items.len();
        let mut j: usize = 0;
        proof {
            assert(sp.items@.take(0) =~= Seq::<SpecificationItem>::empty());
            assert(keys_of(out@).union(line_keys(sp.items@.take(0), ppi.date as int)) =~= keys_of(
                out@,
            ));
            vstd::arithmetic::mul::lemma_mul_basics(ppi.qty as int);
        }
        let ghost q = ppi.qty as int;
        while j < m
            invariant
                j <= m,
                m == sp.items@.len(),
                plan@ == data_set.purchase_plan_items@,
                specs@ == data_set.specifications@,
                0 <= (i as int) < plan@.len(),
                ppi == plan@[i as int],
                q == ppi.qty as int,
                q >= 0,
                si == spec_find_spec(specs@, ppi.product_name@),
                0 <= si < specs@.len(),
                *sp == specs@[si],
                forall|x: int, y: int|
                    0 <= x < specs@.len() && 0 <= y < specs@[x].items@.len()
                        ==> #[trigger] specs@[x].items@[y].qty >= 0,
                demand_abs(plan@, specs@) <= i64::MAX,
                unique_keys(out@),
                forall|k: (int, Seq<char>)| #[trigger]
                    qsum(out@, k) == demand_qty(plan@.take(i as int), specs@, k) + item_demand(
                        plan@[i as int],
                        sp.items@.take(j as int),
                        k,
                    ),
                keys_of(out@) == demand_keys(plan@.take(i as int), specs@).union(
                    line_keys(sp.items@.take(j as int), ppi.date as int),
                ),
                abs_sum(out@) <= demand_abs(plan@.take(i as int), specs@) + q * lines_abs(
                    sp.items@.take(j as int),
                ),
            decreases m - j,
        {
            let it = &sp.items[j];
            let ghost l = it.qty as int;
            let ghost lines = sp.items@;
            let ghost big = lines_abs(lines);
            proof {
                assert(specs@[si].items@[j as int].qty >= 0);
                lemma_lines_take_succ(lines, j as int, it.material_name@, ppi.date as int);
                lemma_lines_abs_take_le(lines, j as int + 1);
                lemma_lines_abs_nonneg(lines.take(j as int));
                lemma_lines_abs_nonneg(lines);
                // l <= big, so q * l <= q * big == plan_item_abs(plan[i])
                assert(l <= big);
                vstd::arithmetic::mul::lemma_mul_inequality(l, big, q);
                vstd::arithmetic::mul::lemma_mul_is_commutative(l, q);
                vstd::arithmetic::mul::lemma_mul_is_commutative(big, q);
                vstd::arithmetic::mul::lemma_mul_nonnegative(q, l);
                assert(plan_item_abs(plan@[i as int], specs@) == q * big);
                lemma_demand_take_succ(plan@, specs@, i as int, (0int, Seq::empty()));
                lemma_demand_abs_take_le(plan@, specs@, i as int + 1);
                lemma_demand_abs_take_le(plan@, specs@, i as int);
                assert(q * l <= q * big);
                assert(demand_abs(plan@.take(i as int), specs@) + q * big <= demand_abs(
                    plan@,
                    specs@,
                ));
                // the running magnitude stays under the same bound
                vstd::arithmetic::mul::lemma_mul_is_distributive_add(
                    q,
                    lines_abs(lines.take(j as int)),
                    l,
                );
                vstd::arithmetic::mul::lemma_mul_inequality(
                    lines_abs(lines.take(j as int + 1)),
                    big,
                    q,
                );
                vstd::arithmetic::mul::lemma_mul_is_commutative(
                    lines_abs(lines.take(j as int + 1)),
                    q,
                );
            }
            let prod = ppi.qty * it.qty;
            let term = -prod;
            let ghost before = out@;
            ledger_upsert(&mut out, ppi.date, &it.material_name, term);
            proof {
                let key = (ppi.date as int, it.material_name@);
                assert forall|k: (int, Seq<char>)| #[trigger] qsum(out@, k) == demand_qty(
                    plan@.take(i as int),
                    specs@,
                    k,
                ) + item_demand(plan@[i as int], lines.take(j as int + 1), k) by {
                    lemma_lines_take_succ(lines, j as int, k.1, ppi.date as int);
                    if k.0 == ppi.date as int {
                        vstd::arithmetic::mul::lemma_mul_is_distributive_add(
                            -(q),
                            lines_qty(lines.take(j as int), k.1),
                            if lines[j as int].material_name@ == k.1 {
                                l
                            } else {
                                0
                            },
                        );
                        assert(-(q) * lines_qty(lines.take(j as int), k.1) == -(q * lines_qty(
                            lines.take(j as int),
                            k.1,
                        ))) by {
                            vstd::arithmetic::mul::lemma_mul_is_commutative(
                                -(q),
                                lines_qty(lines.take(j as int), k.1),
                            );
                            vstd::arithmetic::mul::lemma_mul_unary_negation(
                                lines_qty(lines.take(j as int), k.1),
                                q,
                            );
                            vstd::arithmetic::mul::lemma_mul_is_commutative(
                                lines_qty(lines.take(j as int), k.1),
                                q,
                            );
                        }
                        if lines[j as int].material_name@ == k.1 {
                            vstd::arithmetic::mul::lemma_mul_unary_negation(q, l);
                        } else {
                            vstd::arithmetic::mul::lemma_mul_basics(-(q));
                        }
                        assert(item_demand(plan@[i as int], lines.take(j as int + 1), k)
                            == item_demand(plan@[i as int], lines.take(j as int), k) + (if lines[
                            j as int
                        ].material_name@ == k.1 {
                            -(q * l)
                        } else {
                            0
                        }));
                    }
                }
                lemma_lines_take_succ(lines, j as int, it.material_name@, ppi.date as int);
                assert(keys_of(out@) =~= demand_keys(plan@.take(i as int), specs@).union(
                    line_keys(lines.take(j as int + 1), ppi.date as int),
                ));
            }
            j = j + 1;
        }
        proof {
            assert(sp.items@.take(m as int) =~= sp.items@);
            lemma_demand_take_succ(plan@, specs@, i as int, (0int, Seq::empty()));
            assert forall|k: (int, Seq<char>)| #[trigger] qsum(out@, k) == demand_qty(
                plan@.take(i as int + 1),
                specs@,
                k,
            ) by {
                lemma_demand_take_succ(plan@, specs@, i as int, k);
                assert(plan_item_demand(plan@[i as int], specs@, k) == item_demand(
                    plan@[i as int],
                    sp.items@,
                    k,
                ));
            }
            assert(keys_of(out@) =~= demand_keys(plan@.take(i as int + 1), specs@));
        }
        i = i + 1;
    }
    proof {
        assert(plan@.take(n as int) =~= plan@);
        lemma_first_missing_skip(plan@, specs@, n as int);
    }
    Ok(out)
}

} // verus!
