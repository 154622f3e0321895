use vstd::prelude::*;
use vstd::math::abs;

use crate::init_data::{Specification, SpecificationItem};
use crate::orders_plan::{MaterialInfo, abs_sum, lemma_abs_sum_nonneg, lemma_abs_sum_take_le};
use crate::projection::views_of;
use crate::text::{str_eq, trimmed, trimmed_str};

verus! {

/// Appends to `acc` the material names of `lines` that it does not hold
/// yet, in line order: the running first-occurrence list.
pub open spec fn add_names(acc: Seq<Seq<char>>, lines: Seq<SpecificationItem>) -> Seq<Seq<char>>
    decreases lines.len(),
{
    if lines.len() == 0 {
        acc
    } else {
        let prev = add_names(acc, lines.drop_last());
        if prev.contains(lines.last().material_name@) {
            prev
        } else {
            prev.push(lines.last().material_name@)
        }
    }
}

/// Every material name of the catalog, in order of first appearance,
/// without duplicates.
pub open spec fn spec_names(specs: Seq<Specification>) -> Seq<Seq<char>>
    decreases specs.len(),
{
    if specs.len() == 0 {
        Seq::empty()
    } else {
        add_names(spec_names(specs.drop_last()), specs.last().items@)
    }
}

/// Whether `name` already occurs (by view) in `v`.
fn contains_name(v: &Vec<String>, name: &String) -> (r: bool)
    ensures
        r == views_of(v@).contains(name@),
{
    let n = v.len();
    let mut i: usize = 0;
    while i < n
        invariant
            i <= n,
            n == v@.len(),
            forall|j: int| 0 <= j < i ==> #[trigger] v@[j]@ != name@,
        decreases n - i,
    {
        if str_eq(v[i].as_str(), name.as_str()) {
            proof {
                assert(views_of(v@)[i as int] == name@);
            }
            return true;
        }
        i = i + 1;
    }
    proof {
        assert(forall|j: int|
            0 <= j < v@.len() ==> #[trigger] views_of(v@)[j] == v@[j]@);
        if views_of(v@).contains(name@) {
            let j = choose|j: int| 0 <= j < v@.len() && views_of(v@)[j] == name@;
            assert(v@[j]@ == name@);
        }
    }
    false
}

proof fn lemma_spec_names_take_succ(specs: Seq<Specification>, i: int)
    requires
        0 <= i < specs.len(),
    ensures
        spec_names(specs.take(i + 1)) == add_names(spec_names(specs.take(i)), specs[i].items@),
{
    assert(specs.take(i + 1).drop_last() =~= specs.take(i));
    assert(specs.take(i + 1).last() == specs[i]);
}

proof fn lemma_add_names_take_succ(acc: Seq<Seq<char>>, lines: Seq<SpecificationItem>, j: int)
    requires
        0 <= j < lines.len(),
    ensures
        add_names(acc, lines.take(j + 1)) == (if add_names(acc, lines.take(j)).contains(
            lines[j].material_name@,
        ) {
            add_names(acc, lines.take(j))
        } else {
            add_names(acc, lines.take(j)).push(lines[j].material_name@)
        }),
{
    assert(lines.take(j + 1).drop_last() =~= lines.take(j));
    assert(lines.take(j + 1).last() == lines[j]);
}

/// Lists every material name appearing in any bill of materials, first
/// occurrence first, each name once.
pub fn read_sp_material_names(specifications: &Vec<Specification>) -> (r: Vec<String>)
    ensures
        views_of(r@) == spec_names(specifications@),
{
    let mut items: Vec<String> = Vec::new();
    let n = specifications.len();
    let mut i: usize = 0;
    proof {
        assert(specifications@.take(0) =~= Seq::<Specification>::empty());
        assert(views_of(items@) =~= Seq::<Seq<char>>::empty());
    }
    while i < n
        invariant
            i <= n,
            n == specifications@.len(),
            views_of(items@) == spec_names(specifications@.take(i as int)),
        decreases n - i,
    {
        let sp = &specifications[i];
        let m = sp.items.len();
        let mut j: usize = 0;
        proof {
            assert(sp.items@.take(0) =~= Seq::<SpecificationItem>::empty());
        }
        while j < m
            invariant
                j <= m,
                m == sp.items@.len(),
                sp == specifications@[i as int],
                0 <= (i as int) < specifications@.len(),
                views_of(items@) == add_names(
                    spec_names(specifications@.take(i as int)),
                    sp.items@.take(j as int),
                ),
            decreases m - j,
        {
            let name = &sp.items[j].material_name;
            let ghost before = items@;
            if !contains_name(&items, name) {
                items.push(name.clone());
                proof {
                    assert(views_of(items@) =~= views_of(before).push(name@));
                }
            }
            proof {
                lemma_add_names_take_succ(
                    spec_names(specifications@.take(i as int)),
                    sp.items@,
                    j as int,
                );
            }
            j = j + 1;
        }
        proof {
            assert(sp.items@.take(m as int) =~= sp.items@);
            lemma_spec_names_take_succ(specifications@, i as int);
        }
        i = i + 1;
    }
    proof {
        assert(specifications@.take(n as int) =~= specifications@);
    }
    items
}

/// A stock row belongs to catalog name `mn` when the two names agree after
/// trimming surrounding whitespace.
pub open spec fn trim_match(e: MaterialInfo, mn: Seq<char>) -> bool {
    trimmed(e.material@) == trimmed(mn)
}

/// Sum of the quantities of every stock row matching `mn`.
pub open spec fn trim_match_sum(stocks: Seq<MaterialInfo>, mn: Seq<char>) -> int
    decreases stocks.len(),
{
    if stocks.len() == 0 {
        0
    } else {
        trim_match_sum(stocks.drop_last(), mn) + (if trim_match(stocks.last(), mn) {
            stocks.last().qty as int
        } else {
            0
        })
    }
}

/// Whether any stock row matches `mn`.
pub open spec fn trim_match_any(stocks: Seq<MaterialInfo>, mn: Seq<char>) -> bool {
    exists|i: int| 0 <= i < stocks.len() && trim_match(#[trigger] stocks[i], mn)
}

/// The corrected stock table: one row per catalog name that some stock row
/// matches, in catalog order, holding the sum of its matching rows.
pub open spec fn corrected_rows(names: Seq<String>, stocks: Seq<MaterialInfo>) -> Seq<
    (Seq<char>, int),
>
    decreases names.len(),
{
    if names.len() == 0 {
        Seq::empty()
    } else {
        let prev = corrected_rows(names.drop_last(), stocks);
        if trim_match_any(stocks, names.last()@) {
            prev.push((names.last()@, trim_match_sum(stocks, names.last()@)))
        } else {
            prev
        }
    }
}

proof fn lemma_trim_sum_abs(stocks: Seq<MaterialInfo>, mn: Seq<char>)
    ensures
        abs(trim_match_sum(stocks, mn)) <= abs_sum(stocks),
    decreases stocks.len(),
{
    if stocks.len() > 0 {
        lemma_trim_sum_abs(stocks.drop_last(), mn);
    }
}

proof fn lemma_trim_take_succ(stocks: Seq<MaterialInfo>, j: int, mn: Seq<char>)
    requires
        0 <= j < stocks.len(),
    ensures
        trim_match_sum(stocks.take(j + 1), mn) == trim_match_sum(stocks.take(j), mn) + (
        if trim_match(stocks[j], mn) {
            stocks[j].qty as int
        } else {
            0
        }),
        trim_match_any(stocks.take(j + 1), mn) == (trim_match_any(stocks.take(j), mn)
            || trim_match(stocks[j], mn)),
{
    assert(stocks.take(j + 1).drop_last() =~= stocks.take(j));
    assert(stocks.take(j + 1).last() == stocks[j]);
    if trim_match_any(stocks.take(j + 1), mn) {
        let x = choose|x: int|
            0 <= x < j + 1 && trim_match(#[trigger] stocks.take(j + 1)[x], mn);
        if x < j {
            assert(trim_match(stocks.take(j)[x], mn));
        }
    }
    if trim_match_any(stocks.take(j), mn) {
        let x = choose|x: int| 0 <= x < j && trim_match(#[trigger] stocks.take(j)[x], mn);
        assert(trim_match(stocks.take(j + 1)[x], mn));
    }
    if trim_match(stocks[j], mn) {
        assert(trim_match(stocks.take(j + 1)[j], mn));
    }
}

proof fn lemma_corrected_take_succ(names: Seq<String>, stocks: Seq<MaterialInfo>, i: int)
    requires
        0 <= i < names.len(),
    ensures
        corrected_rows(names.take(i + 1), stocks) == (if trim_match_any(stocks, names[i]@) {
            corrected_rows(names.take(i), stocks).push((names[i]@, trim_match_sum(
                stocks,
                names[i]@,
            )))
        } else {
            corrected_rows(names.take(i), stocks)
        }),
{
    assert(names.take(i + 1).drop_last() =~= names.take(i));
    assert(names.take(i + 1).last() == names[i]);
}

/// Sums the raw stock rows matching each known catalog name into a
/// corrected stock table, comparing names with surrounding whitespace
/// ignored.
pub fn correct_stocks(stocks: &Vec<MaterialInfo>, names: &Vec<String>) -> (r: Vec<(String, i64)>)
    requires
        abs_sum(stocks@) <= i64::MAX,
    ensures
        r@.map_values(|p: (String, i64)| (p.0@, p.1 as int)) == corrected_rows(names@, stocks@),
{
    let mut result: Vec<(String, i64)> = Vec::new();
    let n = names.len();
    let mut i: usize = 0;
    proof {
        assert(names@.take(0) =~= Seq::<String>::empty());
        assert(result@.map_values(|p: (String, i64)| (p.0@, p.1 as int)) =~= Seq::<
            (Seq<char>, int),
        >::empty());
    }
    while i < n
        invariant
            i <= n,
            n == names@.len(),
            abs_sum(stocks@) <= i64::MAX,
            result@.map_values(|p: (String, i64)| (p.0@, p.1 as int)) == corrected_rows(
                names@.take(i as int),
                stocks@,
            ),
        decreases n - i,
    {
        let mn = &names[i];
        let m = stocks.len();
        let mut j: usize = 0;
        let mut sum: i64 = 0;
        let mut matched: bool = false;
        proof {
            assert(stocks@.take(0) =~= Seq::<MaterialInfo>::empty());
            lemma_abs_sum_nonneg(stocks@);
        }
        while j < m
            invariant
                j <= m,
                m == stocks@.len(),
                abs_sum(stocks@) <= i64::MAX,
                mn == names@[i as int],
                sum as int == trim_match_sum(stocks@.take(j as int), mn@),
                matched == trim_match_any(stocks@.take(j as int), mn@),
            decreases m - j,
        {
            let row = &stocks[j];
            proof {
                lemma_trim_take_succ(stocks@, j as int, mn@);
                lemma_trim_sum_abs(stocks@.take(j as int), mn@);
                lemma_trim_sum_abs(stocks@.take(j as int + 1), mn@);
                lemma_abs_sum_take_le(stocks@, j as int);
                lemma_abs_sum_take_le(stocks@, j as int + 1);
            }
            let ta = trimmed_str(row.material.as_str());
            let tb = trimmed_str(mn.as_str());
            if str_eq(ta, tb) {
                matched = true;
                sum = sum + row.qty;
            }
            j = j + 1;
        }
        proof {
            assert(stocks@.take(m as int) =~= stocks@);
            lemma_corrected_take_succ(names@, stocks@, i as int);
        }
        let ghost before = result@;
        if matched {
            result.push((mn.clone(), sum));
            proof {
                assert(result@.map_values(|p: (String, i64)| (p.0@, p.1 as int)) =~= before
                    .map_values(|p: (String, i64)| (p.0@, p.1 as int)).push(
                    (mn@, sum as int),
                ));
            }
        }
        i = i + 1;
    }
    proof {
        assert(names@.take(n as int) =~= names@);
    }
    result
}

} // verus!
