use vstd::prelude::*;

use crate::classify::{CellCategory, spec_category};
use crate::init_data::InitialData;
use crate::orders_plan::{BalanceLedger, MaterialInfo, keys_of, qsum};
use crate::pipeline::{AnnotatedMatrix, pipeline_output, prefix_total};
use crate::projection::{dates_sorted, materials_sorted, views_of};
use crate::text::{lex_lt, lemma_lex_lt_asymmetric};

verus! {

/// Per-key sum over a whole collection of source streams.
pub open spec fn sources_qsum(ss: Seq<Seq<MaterialInfo>>, k: (int, Seq<char>)) -> int
    decreases ss.len(),
{
    if ss.len() == 0 {
        0
    } else {
        sources_qsum(ss.drop_last(), k) + qsum(ss.last(), k)
    }
}

/// Every ledger key occurring in any stream of the collection.
pub open spec fn sources_keys(ss: Seq<Seq<MaterialInfo>>) -> Set<(int, Seq<char>)>
    decreases ss.len(),
{
    if ss.len() == 0 {
        Set::empty()
    } else {
        sources_keys(ss.drop_last()).union(keys_of(ss.last()))
    }
}

/// `l` is a ledger merged from exactly the streams `ss`: its keys are
/// theirs and each key holds the exact sum of their contributions.
pub open spec fn merged_from(l: BalanceLedger, ss: Seq<Seq<MaterialInfo>>) -> bool {
    &&& l.wf()
    &&& keys_of(l.entries@) == sources_keys(ss)
    &&& forall|k: (int, Seq<char>)| #[trigger] qsum(l.entries@, k) == sources_qsum(ss, k)
}

proof fn lemma_sources_remove(ss: Seq<Seq<MaterialInfo>>, i: int, k: (int, Seq<char>))
    requires
        0 <= i < ss.len(),
    ensures
        sources_qsum(ss, k) == sources_qsum(ss.remove(i), k) + qsum(ss[i], k),
        sources_keys(ss) == sources_keys(ss.remove(i)).union(keys_of(ss[i])),
    decreases ss.len(),
{
    if i == ss.len() - 1 {
        assert(ss.remove(i) =~= ss.drop_last());
    } else {
        assert(ss.remove(i).drop_last() =~= ss.drop_last().remove(i));
        assert(ss.remove(i).last() == ss.last());
        lemma_sources_remove(ss.drop_last(), i, k);
        assert(sources_keys(ss) =~= sources_keys(ss.remove(i)).union(keys_of(ss[i])));
    }
}

proof fn lemma_sources_permuted(ss1: Seq<Seq<MaterialInfo>>, ss2: Seq<Seq<MaterialInfo>>)
    requires
        ss1.to_multiset() == ss2.to_multiset(),
    ensures
        forall|k: (int, Seq<char>)| #[trigger] sources_qsum(ss1, k) == sources_qsum(ss2, k),
        sources_keys(ss1) == sources_keys(ss2),
    decreases ss1.len(),
{
    broadcast use vstd::seq_lib::group_to_multiset_ensures;

    assert(ss1.to_multiset().len() == ss1.len());
    assert(ss2.to_multiset().len() == ss2.len());
    if ss1.len() == 0 {
        assert(ss2.len() == 0);
        assert(sources_keys(ss1) =~= sources_keys(ss2));
    } else {
        let x = ss1.last();
        assert(ss1.contains(x));
        assert(ss1.to_multiset().count(x) > 0);
        assert(ss2.contains(x));
        let i = choose|i: int| 0 <= i < ss2.len() && ss2[i] == x;
        assert(ss1.remove(ss1.len() - 1) =~= ss1.drop_last());
        assert(ss1.drop_last().to_multiset() == ss1.remove(ss1.len() - 1).to_multiset());
        assert(ss1.drop_last().to_multiset() =~= ss1.to_multiset().remove(x));
        assert(ss2.remove(i).to_multiset() =~= ss2.to_multiset().remove(x));
        assert(ss1.drop_last().to_multiset() == ss2.remove(i).to_multiset());
        lemma_sources_permuted(ss1.drop_last(), ss2.remove(i));
        assert forall|k: (int, Seq<char>)| #[trigger] sources_qsum(ss1, k) == sources_qsum(
            ss2,
            k,
        ) by {
            lemma_sources_remove(ss2, i, k);
            assert(sources_qsum(ss1, k) == sources_qsum(ss1.drop_last(), k) + qsum(x, k));
            assert(sources_qsum(ss1.drop_last(), k) == sources_qsum(ss2.remove(i), k));
            assert(sources_qsum(ss2, k) == sources_qsum(ss2.remove(i), k) + qsum(x, k));
        }
        lemma_sources_remove(ss2, i, (0int, Seq::empty()));
        assert(sources_keys(ss1) =~= sources_keys(ss2));
    }
}

/// Merge order independence: two ledgers merged from the same collection
/// of source streams, taken in any order, hold identical contents.
pub proof fn lemma_merge_order_independence(
    l1: BalanceLedger,
    l2: BalanceLedger,
    ss1: Seq<Seq<MaterialInfo>>,
    ss2: Seq<Seq<MaterialInfo>>,
)
    requires
        merged_from(l1, ss1),
        merged_from(l2, ss2),
        ss1.to_multiset() == ss2.to_multiset(),
    ensures
        l1.contents() == l2.contents(),
{
    lemma_sources_permuted(ss1, ss2);
    assert(l1.contents() =~= l2.contents());
}

proof fn lemma_po_as_sources(pos: Seq<crate::init_data::PurchaseOrder>, k: (int, Seq<char>))
    ensures
        sources_qsum(pos.map_values(|po: crate::init_data::PurchaseOrder| po.items@), k)
            == crate::orders_plan::po_qsum(pos, k),
        sources_keys(pos.map_values(|po: crate::init_data::PurchaseOrder| po.items@))
            == crate::orders_plan::po_keys(pos),
    decreases pos.len(),
{
    let f = |po: crate::init_data::PurchaseOrder| po.items@;
    if pos.len() == 0 {
        assert(pos.map_values(f) =~= Seq::<Seq<MaterialInfo>>::empty());
    } else {
        assert(pos.map_values(f).drop_last() =~= pos.drop_last().map_values(f));
        assert(pos.map_values(f).last() == pos.last().items@);
        lemma_po_as_sources(pos.drop_last(), k);
    }
}

proof fn lemma_sources_concat(ss1: Seq<Seq<MaterialInfo>>, ss2: Seq<Seq<MaterialInfo>>, k: (
    int,
    Seq<char>,
))
    ensures
        sources_qsum(ss1 + ss2, k) == sources_qsum(ss1, k) + sources_qsum(ss2, k),
        sources_keys(ss1 + ss2) == sources_keys(ss1).union(sources_keys(ss2)),
    decreases ss2.len(),
{
    if ss2.len() == 0 {
        assert(ss1 + ss2 =~= ss1);
        assert(sources_keys(ss1).union(sources_keys(ss2)) =~= sources_keys(ss1));
    } else {
        assert((ss1 + ss2).drop_last() =~= ss1 + ss2.drop_last());
        assert((ss1 + ss2).last() == ss2.last());
        lemma_sources_concat(ss1, ss2.drop_last(), k);
        assert(sources_keys(ss1 + ss2) =~= sources_keys(ss1).union(sources_keys(ss2)));
    }
}

/// The ledger that `calculate_stocks_plan` promises is merged from exactly
/// the stock snapshot, the derived requirements, and the purchase-order
/// files, so the merge order independence law applies to it.
pub proof fn lemma_stocks_plan_merged(
    r: BalanceLedger,
    requirements: Seq<MaterialInfo>,
    data: InitialData,
)
    requires
        r.wf(),
        forall|k: (int, Seq<char>)| #[trigger]
            qsum(r.entries@, k) == qsum(data.stocks@, k) + qsum(requirements, k)
                + crate::orders_plan::po_qsum(data.purchase_orders@, k),
        keys_of(r.entries@) == keys_of(data.stocks@).union(keys_of(requirements)).union(
            crate::orders_plan::po_keys(data.purchase_orders@),
        ),
    ensures
        merged_from(
            r,
            seq![data.stocks@, requirements] + data.purchase_orders@.map_values(
                |po: crate::init_data::PurchaseOrder| po.items@,
            ),
        ),
{
    let head = seq![data.stocks@, requirements];
    let tail = data.purchase_orders@.map_values(
        |po: crate::init_data::PurchaseOrder| po.items@,
    );
    let single: Seq<Seq<MaterialInfo>> = seq![data.stocks@];
    assert(head.len() == 2);
    assert(single.len() == 1);
    assert(head.drop_last() =~= single);
    assert(single.drop_last() =~= Seq::<Seq<MaterialInfo>>::empty());
    assert(head.last() == requirements);
    assert(single.last() == data.stocks@);
    assert forall|k: (int, Seq<char>)| #[trigger] qsum(r.entries@, k) == sources_qsum(
        head + tail,
        k,
    ) by {
        lemma_sources_concat(head, tail, k);
        lemma_po_as_sources(data.purchase_orders@, k);
        assert(sources_qsum(Seq::<Seq<MaterialInfo>>::empty(), k) == 0);
        assert(sources_qsum(single, k) == sources_qsum(single.drop_last(), k) + qsum(
            data.stocks@,
            k,
        ));
        assert(sources_qsum(head, k) == sources_qsum(head.drop_last(), k) + qsum(
            requirements,
            k,
        ));
        assert(sources_qsum(head, k) == qsum(data.stocks@, k) + qsum(requirements, k));
    }
    lemma_sources_concat(head, tail, (0int, Seq::empty()));
    lemma_po_as_sources(data.purchase_orders@, (0int, Seq::empty()));
    assert(sources_keys(single) == sources_keys(single.drop_last()).union(
        keys_of(data.stocks@),
    ));
    assert(sources_keys(head) == sources_keys(head.drop_last()).union(keys_of(requirements)));
    assert(sources_keys(head) =~= keys_of(data.stocks@).union(keys_of(requirements)));
    assert(keys_of(r.entries@) =~= sources_keys(head + tail));
}

/// Classification boundary: the cell at column `now_index + lead_weeks` is
/// still classified by the sign of its balance, while the cell one column
/// further out is out of horizon whatever its balance.
pub proof fn lemma_classification_boundary(
    value_at_edge: int,
    value_beyond: int,
    now_index: int,
    lead_weeks: int,
)
    requires
        now_index >= 0,
        lead_weeks >= 0,
    ensures
        spec_category(value_at_edge, now_index + lead_weeks, now_index, lead_weeks) == (
        if value_at_edge < 0 {
            CellCategory::AtRisk
        } else {
            CellCategory::Healthy
        }),
        spec_category(value_beyond, now_index + lead_weeks + 1, now_index, lead_weeks)
            == CellCategory::OutOfHorizon,
{
}

proof fn lemma_sorted_dates_same(s1: Seq<u32>, s2: Seq<u32>)
    requires
        dates_sorted(s1),
        dates_sorted(s2),
        forall|x: u32| s1.contains(x) <==> s2.contains(x),
    ensures
        s1 == s2,
    decreases s1.len(),
{
    if s1.len() == 0 {
        if s2.len() > 0 {
            assert(s2.contains(s2[0]));
            assert(s1.contains(s2[0]));
        }
        assert(s1 =~= s2);
    } else {
        assert(s1.contains(s1[0]));
        assert(s2.contains(s1[0]));
        let i = choose|i: int| 0 <= i < s2.len() && s2[i] == s1[0];
        assert(s2.contains(s2[0]));
        assert(s1.contains(s2[0]));
        let j = choose|j: int| 0 <= j < s1.len() && s1[j] == s2[0];
        assert(s1[0] == s2[0]) by {
            if i > 0 && j > 0 {
                assert(s2[0] < s2[i]);
                assert(s1[0] < s1[j]);
            }
        }
        assert forall|x: u32| s1.drop_first().contains(x) <==> s2.drop_first().contains(
            x,
        ) by {
            lemma_sorted_tail_contains(s1, x);
            lemma_sorted_tail_contains(s2, x);
        }
        assert(dates_sorted(s1.drop_first()) && dates_sorted(s2.drop_first())) by {
            assert(forall|a: int|
                0 <= a < s1.len() - 1 ==> s1.drop_first()[a] == s1[a + 1]);
            assert(forall|a: int|
                0 <= a < s2.len() - 1 ==> s2.drop_first()[a] == s2[a + 1]);
        }
        lemma_sorted_dates_same(s1.drop_first(), s2.drop_first());
        assert(s1 =~= s2) by {
            assert(forall|a: int| 1 <= a < s1.len() ==> s1[a] == s1.drop_first()[a - 1]);
            assert(forall|a: int| 1 <= a < s2.len() ==> s2[a] == s2.drop_first()[a - 1]);
        }
    }
}

proof fn lemma_sorted_tail_contains(s: Seq<u32>, x: u32)
    requires
        dates_sorted(s),
        s.len() > 0,
    ensures
        s.drop_first().contains(x) <==> (s.contains(x) && x != s[0]),
{
    if s.drop_first().contains(x) {
        let a = choose|a: int| 0 <= a < s.drop_first().len() && s.drop_first()[a] == x;
        assert(s[a + 1] == x);
        assert(s[0] < s[a + 1]);
    }
    if s.contains(x) && x != s[0] {
        let a = choose|a: int| 0 <= a < s.len() && s[a] == x;
        assert(a > 0);
        assert(s.drop_first()[a - 1] == x);
    }
}

proof fn lemma_sorted_materials_same(s1: Seq<String>, s2: Seq<String>)
    requires
        materials_sorted(s1),
        materials_sorted(s2),
        forall|x: Seq<char>| views_of(s1).contains(x) <==> views_of(s2).contains(x),
    ensures
        views_of(s1) == views_of(s2),
    decreases s1.len(),
{
    let v1 = views_of(s1);
    let v2 = views_of(s2);
    assert(forall|a: int| 0 <= a < s1.len() ==> #[trigger] v1[a] == s1[a]@);
    assert(forall|a: int| 0 <= a < s2.len() ==> #[trigger] v2[a] == s2[a]@);
    if s1.len() == 0 {
        if s2.len() > 0 {
            assert(v2.contains(v2[0]));
            assert(v1.contains(v2[0]));
        }
        assert(v1 =~= v2);
    } else {
        assert(v1.contains(v1[0]));
        assert(v2.contains(v1[0]));
        let i = choose|i: int| 0 <= i < v2.len() && v2[i] == v1[0];
        assert(v2.contains(v2[0]));
        assert(v1.contains(v2[0]));
        let j = choose|j: int| 0 <= j < v1.len() && v1[j] == v2[0];
        assert(v1[0] == v2[0]) by {
            if i > 0 && j > 0 {
                assert(lex_lt(s2[0]@, s2[i]@));
                assert(lex_lt(s1[0]@, s1[j]@));
                lemma_lex_lt_asymmetric(v1[0], v2[0]);
            }
        }
        assert forall|x: Seq<char>|
            views_of(s1.drop_first()).contains(x) <==> views_of(s2.drop_first()).contains(
                x,
            ) by {
            lemma_sorted_material_tail_contains(s1, x);
            lemma_sorted_material_tail_contains(s2, x);
            assert(v1[0] == v2[0]);
        }
        assert(materials_sorted(s1.drop_first()) && materials_sorted(s2.drop_first())) by {
            assert(forall|a: int|
                0 <= a < s1.len() - 1 ==> s1.drop_first()[a] == s1[a + 1]);
            assert(forall|a: int|
                0 <= a < s2.len() - 1 ==> s2.drop_first()[a] == s2[a + 1]);
        }
        lemma_sorted_materials_same(s1.drop_first(), s2.drop_first());
        assert(views_of(s1.drop_first()) == views_of(s2.drop_first()));
        assert(forall|a: int|
            0 <= a < s1.len() - 1 ==> #[trigger] views_of(s1.drop_first())[a] == s1[a + 1]@);
        assert(forall|a: int|
            0 <= a < s2.len() - 1 ==> #[trigger] views_of(s2.drop_first())[a] == s2[a + 1]@);
        assert(v1.len() == v2.len());
        assert forall|a: int| 0 <= a < v1.len() implies v1[a] == v2[a] by {
            if a > 0 {
                assert(views_of(s1.drop_first())[a - 1] == s1[a]@);
                assert(views_of(s2.drop_first())[a - 1] == s2[a]@);
            }
        }
        assert(v1 =~= v2);
    }
}

proof fn lemma_sorted_material_tail_contains(s: Seq<String>, x: Seq<char>)
    requires
        materials_sorted(s),
        s.len() > 0,
    ensures
        views_of(s.drop_first()).contains(x) <==> (views_of(s).contains(x) && x != s[0]@),
{
    let v = views_of(s);
    let vt = views_of(s.drop_first());
    assert(forall|a: int| 0 <= a < s.len() ==> #[trigger] v[a] == s[a]@);
    assert(forall|a: int| 0 <= a < s.len() - 1 ==> #[trigger] vt[a] == s[a + 1]@);
    if vt.contains(x) {
        let a = choose|a: int| 0 <= a < vt.len() && vt[a] == x;
        assert(v[a + 1] == x);
        assert(lex_lt(s[0]@, s[a + 1]@));
        lemma_lex_lt_asymmetric(s[0]@, s[a + 1]@);
        assert(x != s[0]@);
    }
    if v.contains(x) && x != s[0]@ {
        let a = choose|a: int| 0 <= a < v.len() && v[a] == x;
        assert(a > 0);
        assert(vt[a - 1] == x);
    }
}

/// Idempotence of the batch: two successful runs on the same inputs and
/// the same injected "now" produce matrices, current columns and category
/// grids with identical contents.
pub proof fn lemma_pipeline_deterministic(
    data: InitialData,
    now: u32,
    am1: AnnotatedMatrix,
    am2: AnnotatedMatrix,
)
    requires
        pipeline_output(data, now, am1),
        pipeline_output(data, now, am2),
    ensures
        am1.matrix.dates@ == am2.matrix.dates@,
        views_of(am1.matrix.materials@) == views_of(am2.matrix.materials@),
        am1.matrix.values@.map_values(|row: Vec<i64>| row@) == am2.matrix.values@.map_values(
            |row: Vec<i64>| row@,
        ),
        am1.now_index == am2.now_index,
        am1.categories@.map_values(|row: Vec<CellCategory>| row@)
            == am2.categories@.map_values(|row: Vec<CellCategory>| row@),
{
    assert forall|x: u32|
        am1.matrix.dates@.contains(x) <==> am2.matrix.dates@.contains(x) by {
        assert(am1.matrix.dates@.contains(x) <==> crate::pipeline::total_has_date(
            data,
            x as int,
        ));
        assert(am2.matrix.dates@.contains(x) <==> crate::pipeline::total_has_date(
            data,
            x as int,
        ));
    }
    assert forall|x: Seq<char>|
        views_of(am1.matrix.materials@).contains(x) <==> views_of(
            am2.matrix.materials@,
        ).contains(x) by {
        assert(views_of(am1.matrix.materials@).contains(x)
            <==> crate::pipeline::total_has_material(data, x));
        assert(views_of(am2.matrix.materials@).contains(x)
            <==> crate::pipeline::total_has_material(data, x));
    }
    lemma_sorted_dates_same(am1.matrix.dates@, am2.matrix.dates@);
    lemma_sorted_materials_same(am1.matrix.materials@, am2.matrix.materials@);
    let v1 = views_of(am1.matrix.materials@);
    let v2 = views_of(am2.matrix.materials@);
    assert(am1.matrix.materials@.len() == am2.matrix.materials@.len()) by {
        assert(v1.len() == v2.len());
    }
    assert forall|r: int|
        0 <= r < am1.matrix.materials@.len() implies #[trigger] am1.matrix.materials@[r]@
            == am2.matrix.materials@[r]@ by {
        assert(v1[r] == am1.matrix.materials@[r]@);
        assert(v2[r] == am2.matrix.materials@[r]@);
        assert(v1[r] == v2[r]);
    }
    assert forall|r: int|
        0 <= r < am1.matrix.values@.len() implies #[trigger] am1.matrix.values@[r]@
            == am2.matrix.values@[r]@ by {
        assert(am1.matrix.values@[r]@ =~= am2.matrix.values@[r]@) by {
            assert forall|c: int|
                0 <= c < am1.matrix.dates@.len() implies am1.matrix.values@[r]@[c]
                    == am2.matrix.values@[r]@[c] by {
                assert(am1.matrix.values@[r]@[c] as int == prefix_total(
                    data,
                    am1.matrix.dates@,
                    am1.matrix.materials@[r]@,
                    c,
                ));
                assert(am2.matrix.values@[r]@[c] as int == prefix_total(
                    data,
                    am2.matrix.dates@,
                    am2.matrix.materials@[r]@,
                    c,
                ));
            }
        }
    }
    assert(am1.matrix.values@.map_values(|row: Vec<i64>| row@) =~= am2.matrix.values@.map_values(
        |row: Vec<i64>| row@,
    ));
    assert forall|r: int|
        0 <= r < am1.categories@.len() implies #[trigger] am1.categories@[r]@
            == am2.categories@[r]@ by {
        assert(am1.categories@[r]@ =~= am2.categories@[r]@) by {
            assert forall|c: int|
                0 <= c < am1.matrix.dates@.len() implies am1.categories@[r]@[c]
                    == am2.categories@[r]@[c] by {
                assert(am1.categories@[r]@[c] == spec_category(
                    am1.matrix.values@[r]@[c] as int,
                    c,
                    crate::classify::spec_now_index(am1.matrix.dates@, now),
                    crate::init_data::spec_delivery_weeks(
                        data.delivery_times@,
                        am1.matrix.materials@[r]@,
                    ),
                ));
                assert(am1.matrix.values@[r]@ == am2.matrix.values@[r]@);
            }
        }
    }
    assert(am1.categories@.map_values(|row: Vec<CellCategory>| row@)
        =~= am2.categories@.map_values(|row: Vec<CellCategory>| row@));
}

} // verus!
