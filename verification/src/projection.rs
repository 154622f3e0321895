use vstd::prelude::*;
use vstd::math::abs;

use crate::orders_plan::{
    BalanceLedger, MaterialInfo, abs_sum, keys_of, lemma_keys_of_contains, mat_key, qsum,
    lemma_qsum_absent,
};
use crate::text::{
    lex_lt, lemma_lex_lt_connected, lemma_lex_lt_transitive, str_eq, str_lt,
};

verus! {

/// Strictly ascending day numbers: the column order of the report.
pub open spec fn dates_sorted(s: Seq<u32>) -> bool {
    forall|i: int, j: int| 0 <= i < j < s.len() ==> s[i] < s[j]
}

/// Strictly ascending material names: the row order of the report.
pub open spec fn materials_sorted(s: Seq<String>) -> bool {
    forall|i: int, j: int| 0 <= i < j < s.len() ==> lex_lt(s[i]@, s[j]@)
}

/// The views of a sequence of owned strings.
pub open spec fn views_of(ms: Seq<String>) -> Seq<Seq<char>> {
    ms.map_values(|m: String| m@)
}

/// `d` is the date component of some ledger key of `s`.
pub open spec fn has_date(s: Seq<MaterialInfo>, d: int) -> bool {
    exists|i: int| 0 <= i < s.len() && #[trigger] s[i].date as int == d
}

/// `m` is the material component of some ledger key of `s`.
pub open spec fn has_material(s: Seq<MaterialInfo>, m: Seq<char>) -> bool {
    exists|i: int| 0 <= i < s.len() && #[trigger] s[i].material@ == m
}

/// Inserts `d` into a strictly sorted date vector, keeping it strictly
/// sorted and duplicate-free.
fn insert_date(dates: &mut Vec<u32>, d: u32)
    requires
        dates_sorted(old(dates)@),
    ensures
        dates_sorted(final(dates)@),
        forall|x: u32| final(dates)@.contains(x) <==> (old(dates)@.contains(x) || x == d),
{
    let n = dates.len();
    let mut p: usize = 0;
    while p < n && dates[p] < d
        invariant
            p <= n,
            n == dates@.len(),
            dates_sorted(dates@),
            dates@ == old(dates)@,
            forall|idx: int| 0 <= idx < p ==> dates@[idx] < d,
        decreases n - p,
    {
        p = p + 1;
    }
    if p < n && dates[p] == d {
        proof {
            assert(dates@.contains(d)) by {
                assert(dates@[p as int] == d);
            }
        }
        return ;
    }
    let ghost before = dates@;
    dates.insert(p, d);
    proof {
        before.insert_ensures(p as int, d);
        assert forall|x: int, y: int| 0 <= x < y < dates@.len() implies dates@[x]
            < dates@[y] by {
            if y < p {
            } else if x < p && y == p {
            } else if x < p && y > p {
            } else if x == p {
                assert(dates@[y] == before[y - 1]);
                assert(before[y - 1] >= before[p as int] || y - 1 == p);
            } else {
            }
        }
        assert forall|x: u32| dates@.contains(x) <==> (before.contains(x) || x == d) by {
            if dates@.contains(x) {
                let idx = choose|idx: int| 0 <= idx < dates@.len() && dates@[idx] == x;
                if idx < p {
                    assert(before[idx] == x);
                } else if idx == p {
                } else {
                    assert(before[idx - 1] == x);
                }
            }
            if before.contains(x) {
                let idx = choose|idx: int| 0 <= idx < before.len() && before[idx] == x;
                if idx < p {
                    assert(dates@[idx] == x);
                } else {
                    assert(dates@[idx + 1] == x);
                }
            }
            if x == d {
                assert(dates@[p as int] == x);
            }
        }
    }
}

/// Inserts `m` into a strictly lexicographically sorted material vector,
/// keeping it strictly sorted and duplicate-free.
fn insert_material(materials: &mut Vec<String>, m: &String)
    requires
        materials_sorted(old(materials)@),
    ensures
        materials_sorted(final(materials)@),
        forall|x: Seq<char>|
            views_of(final(materials)@).contains(x) <==> (views_of(old(materials)@).contains(x)
                || x == m@),
{
    let n = materials.len();
    let mut p: usize = 0;
    while p < n && str_lt(materials[p].as_str(), m.as_str())
        invariant
            p <= n,
            n == materials@.len(),
            materials_sorted(materials@),
            materials@ == old(materials)@,
            forall|idx: int| 0 <= idx < p ==> lex_lt(materials@[idx]@, m@),
        decreases n - p,
    {
        p = p + 1;
    }
    if p < n && str_eq(materials[p].as_str(), m.as_str()) {
        proof {
            assert(views_of(materials@).contains(m@)) by {
                assert(views_of(materials@)[p as int] == m@);
            }
        }
        return ;
    }
    proof {
        if p < n {
            lemma_lex_lt_connected(materials@[p as int]@, m@);
            assert(lex_lt(m@, materials@[p as int]@));
        }
    }
    let ghost before = materials@;
    let mval = m.clone();
    let ghost eltg = mval;
    materials.insert(p, mval);
    proof {
        before.insert_ensures(p as int, eltg);
        assert(materials@ == before.insert(p as int, eltg));
        assert(forall|idx: int|
            0 <= idx < materials@.len() ==> #[trigger] views_of(materials@)[idx]
                == materials@[idx]@);
        assert(forall|idx: int|
            0 <= idx < before.len() ==> #[trigger] views_of(before)[idx] == before[idx]@);
        assert(materials@[p as int]@ == m@);
        assert forall|x: int, y: int| 0 <= x < y < materials@.len() implies lex_lt(
            materials@[x]@,
            materials@[y]@,
        ) by {
            if y < p {
            } else if x < p && y == p {
                assert(lex_lt(materials@[x]@, m@) || materials@[x]@ == before[x]@);
            } else if x < p && y > p {
                assert(materials@[x]@ == before[x]@ && materials@[y]@ == before[y - 1]@);
                if y - 1 == p {
                    // before[x] < m < before[p]
                    lemma_lex_lt_transitive(before[x]@, m@, before[p as int]@);
                    assert(materials@[y]@ == before[p as int]@);
                    lemma_lex_lt_transitive(materials@[x]@, m@, materials@[y]@);
                } else {
                }
            } else if x == p {
                assert(materials@[x]@ == m@);
                assert(materials@[y]@ == before[y - 1]@);
                if y - 1 == p {
                } else {
                    assert(lex_lt(before[p as int]@, before[y - 1]@));
                    lemma_lex_lt_transitive(m@, before[p as int]@, before[y - 1]@);
                }
            } else {
            }
        }
        assert forall|x: Seq<char>|
            views_of(materials@).contains(x) <==> (views_of(before).contains(x) || x
                == m@) by {
            if views_of(materials@).contains(x) {
                let idx = choose|idx: int|
                    0 <= idx < views_of(materials@).len() && views_of(materials@)[idx] == x;
                assert(materials@[idx]@ == x);
                if idx < p {
                    assert(before[idx]@ == x);
                    assert(views_of(before)[idx] == x);
                    assert(views_of(before).contains(x));
                } else if idx == p {
                    assert(x == m@);
                } else {
                    assert(before[idx - 1]@ == x);
                    assert(views_of(before)[idx - 1] == x);
                    assert(views_of(before).contains(x));
                }
            }
            if views_of(before).contains(x) {
                let idx = choose|idx: int|
                    0 <= idx < views_of(before).len() && views_of(before)[idx] == x;
                assert(before[idx]@ == x);
                if idx < p {
                    assert(views_of(materials@)[idx] == x);
                } else {
                    assert(materials@[idx + 1] == before[idx]);
                    assert(views_of(materials@)[idx + 1] == x);
                }
                assert(views_of(materials@).contains(x));
            }
            if x == m@ {
                assert(views_of(materials@)[p as int] == x);
                assert(views_of(materials@).contains(x));
            }
        }
        assert(forall|x: Seq<char>|
            views_of(materials@).contains(x) <==> (views_of(old(materials)@).contains(x) || x
                == m@));
    }
}

/// Collects the distinct dates (ascending) and distinct materials
/// (lexicographic) present anywhere in the ledger: exactly one column per
/// date and one row per material of any source stream, no more, no fewer.
pub fn collect_dates_and_materials(stocks_plan: &BalanceLedger) -> (r: (Vec<u32>, Vec<String>))
    ensures
        dates_sorted(r.0@),
        materials_sorted(r.1@),
        forall|d: u32| r.0@.contains(d) <==> has_date(stocks_plan.entries@, d as int),
        forall|m: Seq<char>|
            views_of(r.1@).contains(m) <==> has_material(stocks_plan.entries@, m),
{
    let mut dates: Vec<u32> = Vec::new();
    let mut materials: Vec<String> = Vec::new();
    let entries = &stocks_plan.entries;
    let n = entries.len();
    let mut i: usize = 0;
    while i < n
        invariant
            i <= n,
            n == entries@.len(),
            entries@ == stocks_plan.entries@,
            dates_sorted(dates@),
            materials_sorted(materials@),
            forall|d: u32| dates@.contains(d) <==> has_date(entries@.take(i as int), d as int),
            forall|m: Seq<char>|
                views_of(materials@).contains(m) <==> has_material(entries@.take(i as int), m),
        decreases n - i,
    {
        let e = &entries[i];
        insert_date(&mut dates, e.date);
        insert_material(&mut materials, &e.material);
        proof {
            assert forall|d: u32| dates@.contains(d) <==> has_date(
                entries@.take(i as int + 1),
                d as int,
            ) by {
                if has_date(entries@.take(i as int + 1), d as int) {
                    let idx = choose|idx: int|
                        0 <= idx < i as int + 1 && #[trigger] entries@.take(i as int + 1)[
                            idx
                        ].date as int == d as int;
                    if idx < i as int {
                        assert(entries@.take(i as int)[idx].date as int == d as int);
                    }
                }
                if has_date(entries@.take(i as int), d as int) {
                    let idx = choose|idx: int|
                        0 <= idx < i as int && #[trigger] entries@.take(i as int)[idx].date as int
                            == d as int;
                    assert(entries@.take(i as int + 1)[idx].date as int == d as int);
                }
                if d == e.date {
                    assert(entries@.take(i as int + 1)[i as int].date as int == d as int);
                }
            }
            assert forall|m: Seq<char>| views_of(materials@).contains(m) <==> has_material(
                entries@.take(i as int + 1),
                m,
            ) by {
                if has_material(entries@.take(i as int + 1), m) {
                    let idx = choose|idx: int|
                        0 <= idx < i as int + 1 && #[trigger] entries@.take(i as int + 1)[
                            idx
                        ].material@ == m;
                    if idx < i as int {
                        assert(entries@.take(i as int)[idx].material@ == m);
                    }
                }
                if has_material(entries@.take(i as int), m) {
                    let idx = choose|idx: int|
                        0 <= idx < i as int && #[trigger] entries@.take(i as int)[idx].material@
                            == m;
                    assert(entries@.take(i as int + 1)[idx].material@ == m);
                }
                if m == e.material@ {
                    assert(entries@.take(i as int + 1)[i as int].material@ == m);
                }
            }
        }
        i = i + 1;
    }
    proof {
        assert(entries@.take(n as int) =~= entries@);
    }
    (dates, materials)
}

/// Cumulative balance: the sum of every contribution in `s` for material
/// `m` whose date is at or before `upto`.
pub open spec fn cum_qty(s: Seq<MaterialInfo>, m: Seq<char>, upto: int) -> int
    decreases s.len(),
{
    if s.len() == 0 {
        0
    } else {
        cum_qty(s.drop_last(), m, upto) + (if s.last().material@ == m && s.last().date as int
            <= upto {
            s.last().qty as int
        } else {
            0
        })
    }
}

/// Cumulative balances are bounded by the total magnitude of the ledger.
pub proof fn lemma_cum_abs(s: Seq<MaterialInfo>, m: Seq<char>, upto: int)
    ensures
        abs(cum_qty(s, m, upto)) <= abs_sum(s),
    decreases s.len(),
{
    if s.len() > 0 {
        lemma_cum_abs(s.drop_last(), m, upto);
    }
}

/// Nothing lies at or before a negative day number.
pub proof fn lemma_cum_empty(s: Seq<MaterialInfo>, m: Seq<char>, upto: int)
    requires
        upto < 0,
    ensures
        cum_qty(s, m, upto) == 0,
    decreases s.len(),
{
    if s.len() > 0 {
        lemma_cum_empty(s.drop_last(), m, upto);
    }
}

/// Carrying a balance forward one column: when no contribution for `m`
/// falls strictly between `d1` and `d2`, the balance at `d2` is the balance
/// at `d1` plus the ledger value at `(d2, m)`.
pub proof fn lemma_cum_step(s: Seq<MaterialInfo>, m: Seq<char>, d1: int, d2: int)
    requires
        d1 < d2,
        forall|x: int|
            0 <= x < s.len() && s[x].material@ == m && #[trigger] s[x].date as int <= d2 ==> (
            s[x].date as int <= d1 || s[x].date as int == d2),
    ensures
        cum_qty(s, m, d2) == cum_qty(s, m, d1) + qsum(s, (d2, m)),
    decreases s.len(),
{
    if s.len() > 0 {
        assert(forall|x: int|
            0 <= x < s.drop_last().len() && s.drop_last()[x].material@ == m
                && #[trigger] s.drop_last()[x].date as int <= d2 ==> (s.drop_last()[x].date as int
                <= d1 || s.drop_last()[x].date as int == d2)) by {
            assert(forall|x: int| 0 <= x < s.len() - 1 ==> s.drop_last()[x] == s[x]);
        }
        lemma_cum_step(s.drop_last(), m, d1, d2);
        assert(s[s.len() - 1] == s.last());
    }
}

/// The dense projection: one row per material, one column per date, each
/// cell the running balance carried forward from the previous column.
#[derive(Debug, Clone, PartialEq, Eq)]
pub struct ProjectionMatrix {
    pub dates: Vec<u32>,
    pub materials: Vec<String>,
    pub values: Vec<Vec<i64>>,
}

impl ProjectionMatrix {
    /// Rows and columns are strictly sorted and every row is dense.
    pub open spec fn wf(self) -> bool {
        &&& dates_sorted(self.dates@)
        &&& materials_sorted(self.materials@)
        &&& self.values@.len() == self.materials@.len()
        &&& forall|r: int|
            0 <= r < self.values@.len() ==> #[trigger] self.values@[r]@.len()
                == self.dates@.len()
    }

    /// Every cell is the prefix sum of its material's ledger contributions
    /// up to and including its column's date.
    pub open spec fn projects(self, entries: Seq<MaterialInfo>) -> bool {
        &&& (forall|d: u32| self.dates@.contains(d) <==> has_date(entries, d as int))
        &&& (forall|m: Seq<char>| views_of(self.materials@).contains(m) <==> has_material(
            entries,
            m,
        ))
        &&& (forall|r: int, c: int|
            0 <= r < self.materials@.len() && 0 <= c < self.dates@.len()
                ==> #[trigger] self.values@[r]@[c] as int == cum_qty(
                entries,
                self.materials@[r]@,
                self.dates@[c] as int,
            ))
    }
}

/// In a sorted date vector that covers `x`, a date below `s[c]` sits at an
/// index below `c`, hence at or below `s[c - 1]`.
pub proof fn lemma_sorted_below(s: Seq<u32>, c: int, x: u32)
    requires
        dates_sorted(s),
        0 <= c < s.len(),
        s.contains(x),
        (x as int) < s[c] as int,
    ensures
        c > 0 && x <= s[c - 1],
{
    let idx = choose|idx: int| 0 <= idx < s.len() && s[idx] == x;
    assert(idx < c);
}

/// Builds the dense projection matrix from the ledger: collects the sorted
/// row and column headers, then walks each row left to right keeping a
/// running total, carrying the previous balance over date gaps.
pub fn build_projection_matrix(stocks_plan: &BalanceLedger) -> (pm: ProjectionMatrix)
    requires
        stocks_plan.wf(),
        abs_sum(stocks_plan.entries@) <= i64::MAX,
    ensures
        pm.wf(),
        pm.projects(stocks_plan.entries@),
{
    let (dates, materials) = collect_dates_and_materials(stocks_plan);
    let ghost entries = stocks_plan.entries@;
    let mut values: Vec<Vec<i64>> = Vec::new();
    let nrows = materials.len();
    let ncols = dates.len();
    let mut r: usize = 0;
    while r < nrows
        invariant
            r <= nrows,
            nrows == materials@.len(),
            ncols == dates@.len(),
            entries == stocks_plan.entries@,
            stocks_plan.wf(),
            abs_sum(entries) <= i64::MAX,
            dates_sorted(dates@),
            materials_sorted(materials@),
            forall|d: u32| dates@.contains(d) <==> has_date(entries, d as int),
            forall|m: Seq<char>| views_of(materials@).contains(m) <==> has_material(entries, m),
            values@.len() == r,
            forall|x: int| 0 <= x < r ==> #[trigger] values@[x]@.len() == ncols,
            forall|x: int, c: int|
                0 <= x < r && 0 <= c < ncols ==> #[trigger] values@[x]@[c] as int == cum_qty(
                    entries,
                    materials@[x]@,
                    dates@[c] as int,
                ),
        decreases nrows - r,
    {
        let material = &materials[r];
        let mut row: Vec<i64> = Vec::new();
        let mut cur: i64 = 0;
        let mut c: usize = 0;
        proof {
            lemma_cum_empty(entries, material@, -1);
        }
        while c < ncols
            invariant
                c <= ncols,
                ncols == dates@.len(),
                entries == stocks_plan.entries@,
                stocks_plan.wf(),
                abs_sum(entries) <= i64::MAX,
                dates_sorted(dates@),
                forall|d: u32| dates@.contains(d) <==> has_date(entries, d as int),
                material@ == materials@[r as int]@,
                row@.len() == c,
                forall|x: int|
                    0 <= x < c ==> #[trigger] row@[x] as int == cum_qty(
                        entries,
                        material@,
                        dates@[x] as int,
                    ),
                cur as int == (if c == 0 {
                    0
                } else {
                    cum_qty(entries, material@, dates@[c - 1] as int)
                }),
            decreases ncols - c,
        {
            let d = dates[c];
            let ghost prev: int = if c == 0 {
                -1
            } else {
                dates@[c as int - 1] as int
            };
            proof {
                if c == 0 {
                    lemma_cum_empty(entries, material@, prev);
                }
                assert(cur as int == cum_qty(entries, material@, prev));
                assert forall|x: int|
                    0 <= x < entries.len() && entries[x].material@ == material@
                        && #[trigger] entries[x].date as int <= d as int implies (
                entries[x].date as int <= prev || entries[x].date as int == d as int) by {
                    if (entries[x].date as int) < d as int {
                        assert(has_date(entries, entries[x].date as int));
                        assert(dates@.contains(entries[x].date));
                        lemma_sorted_below(dates@, c as int, entries[x].date);
                    }
                }
                lemma_cum_step(entries, material@, prev, d as int);
                lemma_cum_abs(entries, material@, d as int);
                lemma_cum_abs(entries, material@, prev);
            }
            match stocks_plan.get(d, material) {
                Some(v) => {
                    cur = cur + v;
                },
                None => {
                    proof {
                        lemma_qsum_absent(entries, (d as int, material@));
                    }
                },
            }
            row.push(cur);
            c = c + 1;
        }
        values.push(row);
        r = r + 1;
    }
    ProjectionMatrix { dates, materials, values }
}

} // verus!
