//! The order of the change report: entity changes sorted by name.
use vstd::prelude::*;
use crate::diff::{table_changes_view, TableChange, TableChangeView};
use crate::text::{lemma_name_le_total, lemma_name_le_transitive, name_le, name_precedes};

verus! {

/// `t` placed after every leading element whose name comes no later than its own.
pub open spec fn insert_by_name(s: Seq<TableChangeView>, t: TableChangeView) -> Seq<TableChangeView>
    decreases s.len(),
{
    if s.len() == 0 {
        seq![t]
    } else if name_le(s[0].name, t.name) {
        seq![s[0]] + insert_by_name(s.drop_first(), t)
    } else {
        seq![t] + s
    }
}

/// The changes sorted by name; changes with equal names keep their relative order.
pub open spec fn sort_by_name(s: Seq<TableChangeView>) -> Seq<TableChangeView>
    decreases s.len(),
{
    if s.len() == 0 {
        Seq::empty()
    } else {
        insert_by_name(sort_by_name(s.drop_last()), s.last())
    }
}

/// Names ascend along the sequence.
pub open spec fn sorted_by_name(s: Seq<TableChangeView>) -> bool {
    forall|i: int, j: int| 0 <= i < j < s.len() ==> name_le(#[trigger] s[i].name, #[trigger] s[j].name)
}

/// Where `insert_by_name` places `t`.
pub open spec fn scan_position(s: Seq<TableChangeView>, t: TableChangeView) -> int
    decreases s.len(),
{
    if s.len() == 0 {
        0
    } else if name_le(s[0].name, t.name) {
        1 + scan_position(s.drop_first(), t)
    } else {
        0
    }
}

proof fn lemma_scan(s: Seq<TableChangeView>, t: TableChangeView)
    ensures
        0 <= scan_position(s, t) <= s.len(),
        forall|k: int| 0 <= k < scan_position(s, t) ==> name_le(#[trigger] s[k].name, t.name),
        scan_position(s, t) == s.len() || !name_le(s[scan_position(s, t)].name, t.name),
        insert_by_name(s, t) == s.insert(scan_position(s, t), t),
    decreases s.len(),
{
    if s.len() == 0 {
        assert(s.insert(0, t) =~= seq![t]);
    } else if name_le(s[0].name, t.name) {
        let r = s.drop_first();
        lemma_scan(r, t);
        let q = scan_position(r, t);
        assert forall|k: int| 0 <= k < scan_position(s, t) implies name_le(#[trigger] s[k].name, t.name) by {
            if k > 0 {
                assert(s[k] == r[k - 1]);
            }
        }
        if q < r.len() {
            assert(s[q + 1] == r[q]);
        }
        assert(seq![s[0]] + r.insert(q, t) =~= s.insert(q + 1, t));
    } else {
        assert(seq![t] + s =~= s.insert(0, t));
    }
}

/// An insertion position found by scanning is the one `insert_by_name` uses.
proof fn lemma_insert_at(s: Seq<TableChangeView>, t: TableChangeView, p: int)
    requires
        0 <= p <= s.len(),
        forall|k: int| 0 <= k < p ==> name_le(#[trigger] s[k].name, t.name),
        p == s.len() || !name_le(s[p].name, t.name),
    ensures
        insert_by_name(s, t) == s.insert(p, t),
{
    lemma_scan(s, t);
    let q = scan_position(s, t);
    if q < p {
        assert(name_le(s[q].name, t.name));
    } else if p < q {
        assert(name_le(s[p].name, t.name));
    }
}

/// Inserting into a sorted sequence keeps it sorted and adds exactly `t`.
pub proof fn lemma_insert_by_name(s: Seq<TableChangeView>, t: TableChangeView)
    requires
        sorted_by_name(s),
    ensures
        sorted_by_name(insert_by_name(s, t)),
        insert_by_name(s, t).to_multiset() == s.to_multiset().insert(t),
{
    broadcast use vstd::seq_lib::to_multiset_insert;
    lemma_scan(s, t);
    let p = scan_position(s, t);
    let r = s.insert(p, t);
    assert forall|i: int, j: int| 0 <= i < j < r.len() implies name_le(#[trigger] r[i].name, #[trigger] r[j].name) by {
        if j < p {
            assert(r[i] == s[i] && r[j] == s[j]);
        } else if j == p {
            assert(r[i] == s[i]);
        } else if i > p {
            assert(r[i] == s[i - 1] && r[j] == s[j - 1]);
        } else if i == p {
            assert(r[j] == s[j - 1]);
            lemma_name_le_total(s[p].name, t.name);
            if j - 1 > p {
                lemma_name_le_transitive(t.name, s[p].name, s[j - 1].name);
            }
        } else {
            assert(r[i] == s[i] && r[j] == s[j - 1]);
            lemma_name_le_total(s[p].name, t.name);
            if j - 1 > p {
                lemma_name_le_transitive(t.name, s[p].name, s[j - 1].name);
            }
            lemma_name_le_transitive(s[i].name, t.name, s[j - 1].name);
        }
    }
}

/// Sorting yields names in ascending order and keeps exactly the changes it was given.
pub proof fn lemma_sort_by_name(s: Seq<TableChangeView>)
    ensures
        sorted_by_name(sort_by_name(s)),
        sort_by_name(s).to_multiset() == s.to_multiset(),
    decreases s.len(),
{
    broadcast use vstd::seq_lib::to_multiset_build;
    if s.len() > 0 {
        lemma_sort_by_name(s.drop_last());
        lemma_insert_by_name(sort_by_name(s.drop_last()), s.last());
        assert(s.drop_last().push(s.last()) =~= s);
        assert(s.drop_last().push(s.last()).to_multiset() =~= s.drop_last().to_multiset().insert(s.last()));
    } else {
        assert(s =~= Seq::<TableChangeView>::empty());
    }
}

/// Sorts entity changes by name, keeping the relative order of equal names.
pub fn sort_table_changes(v: Vec<TableChange>) -> (r: Vec<TableChange>)
    ensures
        table_changes_view(r@) == sort_by_name(table_changes_view(v@)),
{
    let ghost orig = table_changes_view(v@);
    let ghost mut i: int = 0;
    let mut rest = v;
    let mut out: Vec<TableChange> = Vec::new();
    assert(orig.skip(0) =~= orig);
    assert(orig.take(0) =~= Seq::<TableChangeView>::empty());
    while rest.len() > 0
        invariant
            0 <= i <= orig.len(),
            table_changes_view(rest@) == orig.skip(i),
            table_changes_view(out@) == sort_by_name(orig.take(i)),
        decreases rest@.len(),
    {
        let ghost before = table_changes_view(out@);
        let ghost rv = rest@;
        assert(table_changes_view(rv)[0] == rv[0]@);
        assert(table_changes_view(rv).len() == orig.len() - i);
        let x = rest.remove(0);
        assert(x@ == orig[i]);
        assert(rest@ =~= rv.drop_first());
        assert forall|k: int| 0 <= k < rest@.len() implies table_changes_view(rest@)[k] == orig.skip(i + 1)[k] by {
            assert(rest@[k] == rv[k + 1]);
            assert(table_changes_view(rv)[k + 1] == orig.skip(i)[k + 1]);
        }
        assert(table_changes_view(rest@) =~= orig.skip(i + 1));
        let mut p: usize = 0;
        let mut scanning = true;
        while scanning && p < out.len()
            invariant
                p <= out@.len(),
                before == table_changes_view(out@),
                forall|k: int| 0 <= k < p ==> name_le(#[trigger] before[k].name, x@.name),
                !scanning ==> p < out@.len() && !name_le(before[p as int].name, x@.name),
            decreases out@.len() - p + (if scanning { 1int } else { 0int }),
        {
            if name_precedes(&out[p].name, &x.name) {
                p = p + 1;
            } else {
                scanning = false;
            }
        }
        proof {
            lemma_insert_at(before, x@, p as int);
        }
        out.insert(p, x);
        proof {
            assert(table_changes_view(out@) =~= before.insert(p as int, x@));
            assert(orig.take(i + 1).drop_last() =~= orig.take(i));
            i = i + 1;
        }
    }
    assert(orig.take(i) =~= orig);
    out
}

} // verus!
