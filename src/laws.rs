//! Properties of the differ as a whole.
use vstd::prelude::*;
use crate::diff::{
    column_changes, column_diff, column_field_changes, matched_or_added_columns,
    matched_or_added_relationships, matched_or_added_tables, relationship_changes,
    relationship_diff, removed_columns, removed_relationships, removed_tables, table_changes,
    table_diff, lemma_column_map_unique, lemma_position, lemma_relationship_map_unique,
    whole_column, whole_relationship, whole_table, ChangeType, ColumnChangeView,
    RelationshipChangeView, TableChangeView, ChangeView,
};
use crate::order::{lemma_sort_by_name, sort_by_name, sorted_by_name};
use crate::types::{
    position, column_ids, column_map, entity_ids, relationship_ids, relationship_map, unique_ids,
    ERDColumn, ERDEntity, ERDRelationship,
};

verus! {

proof fn lemma_columns_against_themselves(m: Seq<ERDColumn>, n: int)
    requires
        unique_ids(column_ids(m)),
        0 <= n <= m.len(),
    ensures
        matched_or_added_columns(m, m, n).len() == 0,
        removed_columns(m, m, n).len() == 0,
    decreases n,
{
    if n > 0 {
        lemma_columns_against_themselves(m, n - 1);
        lemma_position(column_ids(m), n - 1);
        assert(column_field_changes(m[n - 1], m[n - 1]).len() == 0);
    }
}

proof fn lemma_relationships_against_themselves(m: Seq<ERDRelationship>, n: int)
    requires
        unique_ids(relationship_ids(m)),
        0 <= n <= m.len(),
    ensures
        matched_or_added_relationships(m, m, n).len() == 0,
        removed_relationships(m, m, n).len() == 0,
    decreases n,
{
    if n > 0 {
        lemma_relationships_against_themselves(m, n - 1);
        lemma_position(relationship_ids(m), n - 1);
        assert(relationship_diff(m[n - 1], m[n - 1]) is None);
    }
}

/// An entity compared with itself shows no difference.
pub proof fn entity_against_itself(e: ERDEntity)
    ensures
        table_diff(e, e) is None,
{
    lemma_column_map_unique(e);
    lemma_relationship_map_unique(e);
    let cm = column_map(e);
    let rm = relationship_map(e);
    lemma_columns_against_themselves(cm, cm.len() as int);
    lemma_relationships_against_themselves(rm, rm.len() as int);
    assert(column_changes(e, e).len() == 0);
    assert(relationship_changes(e, e).len() == 0);
}

proof fn lemma_tables_against_themselves(a: Seq<ERDEntity>, n: int)
    requires
        unique_ids(entity_ids(a)),
        0 <= n <= a.len(),
    ensures
        matched_or_added_tables(a, a, n).len() == 0,
        removed_tables(a, a, n).len() == 0,
    decreases n,
{
    if n > 0 {
        lemma_tables_against_themselves(a, n - 1);
        lemma_position(entity_ids(a), n - 1);
        entity_against_itself(a[n - 1]);
    }
}

/// Diffing a document against an identical copy of itself reports no change.
pub proof fn diff_against_itself_is_empty(a: Seq<ERDEntity>)
    requires
        unique_ids(entity_ids(a)),
    ensures
        sort_by_name(table_changes(a, a)) == Seq::<TableChangeView>::empty(),
{
    lemma_tables_against_themselves(a, a.len() as int);
    let s = table_changes(a, a);
    assert(s =~= Seq::<TableChangeView>::empty());
}

/// The report is sorted by entity name, ascending and case-sensitive, for all inputs.
pub proof fn diff_is_sorted_by_name(a: Seq<ERDEntity>, b: Seq<ERDEntity>)
    ensures
        sorted_by_name(sort_by_name(table_changes(a, b))),
{
    lemma_sort_by_name(table_changes(a, b));
}

/// Sorting reports the same entity changes it was given.
pub proof fn lemma_sorted_members(s: Seq<TableChangeView>, t: TableChangeView)
    ensures
        sort_by_name(s).contains(t) <==> s.contains(t),
{
    lemma_sort_by_name(s);
    vstd::seq_lib::to_multiset_contains(s, t);
    vstd::seq_lib::to_multiset_contains(sort_by_name(s), t);
}

/// A column change that claims a modification lists at least one changed field.
pub open spec fn column_change_populated(c: ColumnChangeView) -> bool {
    c.change_type == ChangeType::Modify ==> c.changes.len() > 0
}

/// A relationship change that claims a modification fills a slot or lists a change.
pub open spec fn relationship_change_populated(r: RelationshipChangeView) -> bool {
    r.change_type == ChangeType::Modify ==> (r.end1_cardinality is Some || r.end2_cardinality is Some
        || r.end1_reference is Some || r.end2_reference is Some || r.changes.len() > 0)
}

/// An entity change that claims a modification has some content, and so do its column
/// and relationship changes.
pub open spec fn table_change_populated(t: TableChangeView) -> bool {
    &&& t.change_type == ChangeType::Modify ==> t.changes.len() + t.columns.len() + t.relationships.len() > 0
    &&& forall|k: int| 0 <= k < t.columns.len() ==> column_change_populated(#[trigger] t.columns[k])
    &&& forall|k: int| 0 <= k < t.relationships.len() ==> relationship_change_populated(#[trigger] t.relationships[k])
}

proof fn lemma_column_passes_populated(ma: Seq<ERDColumn>, mb: Seq<ERDColumn>, n: int)
    ensures
        forall|k: int| 0 <= k < matched_or_added_columns(ma, mb, n).len()
            ==> column_change_populated(#[trigger] matched_or_added_columns(ma, mb, n)[k]),
        forall|k: int| 0 <= k < removed_columns(mb, ma, n).len()
            ==> column_change_populated(#[trigger] removed_columns(mb, ma, n)[k]),
    decreases n,
{
    if n > 0 {
        lemma_column_passes_populated(ma, mb, n - 1);
        let p = matched_or_added_columns(ma, mb, n - 1);
        let q = matched_or_added_columns(ma, mb, n);
        assert forall|k: int| 0 <= k < q.len() implies column_change_populated(#[trigger] q[k]) by {
            if k < p.len() {
                assert(q[k] == p[k]);
            }
        }
        let p2 = removed_columns(mb, ma, n - 1);
        let q2 = removed_columns(mb, ma, n);
        assert forall|k: int| 0 <= k < q2.len() implies column_change_populated(#[trigger] q2[k]) by {
            if k < p2.len() {
                assert(q2[k] == p2[k]);
            }
        }
    }
}

proof fn lemma_relationship_passes_populated(ma: Seq<ERDRelationship>, mb: Seq<ERDRelationship>, n: int)
    ensures
        forall|k: int| 0 <= k < matched_or_added_relationships(ma, mb, n).len()
            ==> relationship_change_populated(#[trigger] matched_or_added_relationships(ma, mb, n)[k]),
        forall|k: int| 0 <= k < removed_relationships(mb, ma, n).len()
            ==> relationship_change_populated(#[trigger] removed_relationships(mb, ma, n)[k]),
    decreases n,
{
    if n > 0 {
        lemma_relationship_passes_populated(ma, mb, n - 1);
        let p = matched_or_added_relationships(ma, mb, n - 1);
        let q = matched_or_added_relationships(ma, mb, n);
        assert forall|k: int| 0 <= k < q.len() implies relationship_change_populated(#[trigger] q[k]) by {
            if k < p.len() {
                assert(q[k] == p[k]);
            }
        }
        let p2 = removed_relationships(mb, ma, n - 1);
        let q2 = removed_relationships(mb, ma, n);
        assert forall|k: int| 0 <= k < q2.len() implies relationship_change_populated(#[trigger] q2[k]) by {
            if k < p2.len() {
                assert(q2[k] == p2[k]);
            }
        }
    }
}

proof fn lemma_table_diff_populated(a: ERDEntity, b: ERDEntity)
    ensures
        table_diff(a, b) matches Some(t) ==> table_change_populated(t),
{
    let ma = column_map(a);
    let mb = column_map(b);
    lemma_column_passes_populated(ma, mb, ma.len() as int);
    lemma_column_passes_populated(ma, mb, mb.len() as int);
    let p = matched_or_added_columns(ma, mb, ma.len() as int);
    let q = removed_columns(mb, ma, mb.len() as int);
    let c = column_changes(a, b);
    assert forall|k: int| 0 <= k < c.len() implies column_change_populated(#[trigger] c[k]) by {
        if k < p.len() {
            assert(c[k] == p[k]);
        } else {
            assert(c[k] == q[k - p.len()]);
        }
    }
    let ra = relationship_map(a);
    let rb = relationship_map(b);
    lemma_relationship_passes_populated(ra, rb, ra.len() as int);
    lemma_relationship_passes_populated(ra, rb, rb.len() as int);
    let p2 = matched_or_added_relationships(ra, rb, ra.len() as int);
    let q2 = removed_relationships(rb, ra, rb.len() as int);
    let r = relationship_changes(a, b);
    assert forall|k: int| 0 <= k < r.len() implies relationship_change_populated(#[trigger] r[k]) by {
        if k < p2.len() {
            assert(r[k] == p2[k]);
        } else {
            assert(r[k] == q2[k - p2.len()]);
        }
    }
}

proof fn lemma_whole_table_populated(e: ERDEntity, kind: ChangeType)
    requires
        kind != ChangeType::Modify,
    ensures
        table_change_populated(whole_table(e, kind)),
{
    let t = whole_table(e, kind);
    assert forall|k: int| 0 <= k < t.columns.len() implies column_change_populated(#[trigger] t.columns[k]) by {
        assert(t.columns[k] == whole_column(e.columns@[k], kind));
    }
    assert forall|k: int| 0 <= k < t.relationships.len() implies relationship_change_populated(
        #[trigger] t.relationships[k],
    ) by {
        assert(t.relationships[k] == whole_relationship(crate::types::entity_relationships(e)[k], kind));
    }
}

proof fn lemma_table_passes_populated(a: Seq<ERDEntity>, b: Seq<ERDEntity>, n: int)
    ensures
        forall|k: int| 0 <= k < matched_or_added_tables(a, b, n).len()
            ==> table_change_populated(#[trigger] matched_or_added_tables(a, b, n)[k]),
        forall|k: int| 0 <= k < removed_tables(b, a, n).len()
            ==> table_change_populated(#[trigger] removed_tables(b, a, n)[k]),
    decreases n,
{
    if n > 0 {
        lemma_table_passes_populated(a, b, n - 1);
        let p = matched_or_added_tables(a, b, n - 1);
        let q = matched_or_added_tables(a, b, n);
        let x = a[n - 1];
        let ids = entity_ids(b);
        if ids.contains(x.element._id@) {
            lemma_table_diff_populated(x, b[crate::types::position(ids, x.element._id@)]);
        } else {
            lemma_whole_table_populated(x, ChangeType::Add);
        }
        assert forall|k: int| 0 <= k < q.len() implies table_change_populated(#[trigger] q[k]) by {
            if k < p.len() {
                assert(q[k] == p[k]);
            }
        }
        let p2 = removed_tables(b, a, n - 1);
        let q2 = removed_tables(b, a, n);
        lemma_whole_table_populated(b[n - 1], ChangeType::Remove);
        assert forall|k: int| 0 <= k < q2.len() implies table_change_populated(#[trigger] q2[k]) by {
            if k < p2.len() {
                assert(q2[k] == p2[k]);
            }
        }
    }
}

/// No entity, column or relationship change in the report claims a modification without
/// content: a modified entity has a changed field, column or relationship; a modified
/// column a changed field; a modified relationship a filled slot or a changed field.
pub proof fn diff_has_no_empty_modification(a: Seq<ERDEntity>, b: Seq<ERDEntity>)
    ensures
        forall|k: int| 0 <= k < sort_by_name(table_changes(a, b)).len()
            ==> table_change_populated(#[trigger] sort_by_name(table_changes(a, b))[k]),
{
    let s = table_changes(a, b);
    let r = sort_by_name(s);
    lemma_table_passes_populated(a, b, a.len() as int);
    lemma_table_passes_populated(a, b, b.len() as int);
    let p = matched_or_added_tables(a, b, a.len() as int);
    let q = removed_tables(b, a, b.len() as int);
    assert forall|k: int| 0 <= k < s.len() implies table_change_populated(#[trigger] s[k]) by {
        if k < p.len() {
            assert(s[k] == p[k]);
        } else {
            assert(s[k] == q[k - p.len()]);
        }
    }
    assert forall|k: int| 0 <= k < r.len() implies table_change_populated(#[trigger] r[k]) by {
        lemma_sorted_members(s, r[k]);
        assert(r.contains(r[k]));
        let j = choose|j: int| 0 <= j < s.len() && s[j] == r[k];
        assert(table_change_populated(s[j]));
    }
}

/// A change of an added element: kind Add, and an empty old value.
pub open spec fn added(c: ChangeView) -> bool {
    c.change_type == ChangeType::Add && c.old.len() == 0
}

pub open spec fn opt_added(o: Option<ChangeView>) -> bool {
    match o {
        Some(c) => added(c),
        None => true,
    }
}

/// An entity change in which the entity and everything reported within it is added.
pub open spec fn all_added(t: TableChangeView) -> bool {
    &&& t.change_type == ChangeType::Add
    &&& forall|k: int| 0 <= k < t.changes.len() ==> added(#[trigger] t.changes[k])
    &&& forall|k: int| 0 <= k < t.columns.len() ==> (#[trigger] t.columns[k]).change_type == ChangeType::Add
        && forall|m: int| 0 <= m < t.columns[k].changes.len() ==> added(#[trigger] t.columns[k].changes[m])
    &&& forall|k: int| 0 <= k < t.relationships.len() ==> {
        let r = #[trigger] t.relationships[k];
        &&& r.change_type == ChangeType::Add
        &&& opt_added(r.end1_cardinality) && opt_added(r.end2_cardinality)
        &&& opt_added(r.end1_reference) && opt_added(r.end2_reference)
        &&& forall|m: int| 0 <= m < r.changes.len() ==> added(#[trigger] r.changes[m])
    }
}

/// Some change in `cs` is about the field `name`.
pub open spec fn reports_field(cs: Seq<ChangeView>, name: Seq<char>) -> bool {
    exists|m: int| 0 <= m < cs.len() && (#[trigger] cs[m]).name == name
}

proof fn lemma_matched_or_added_keeps(a: Seq<ERDEntity>, b: Seq<ERDEntity>, i: int, n: int)
    requires
        0 <= i < n <= a.len(),
        !entity_ids(b).contains(a[i].element._id@),
    ensures
        matched_or_added_tables(a, b, n).contains(whole_table(a[i], ChangeType::Add)),
    decreases n,
{
    let p = matched_or_added_tables(a, b, n - 1);
    let q = matched_or_added_tables(a, b, n);
    if n - 1 == i {
        assert(q[q.len() - 1] == whole_table(a[i], ChangeType::Add));
    } else {
        lemma_matched_or_added_keeps(a, b, i, n - 1);
        let j = choose|j: int| 0 <= j < p.len() && p[j] == whole_table(a[i], ChangeType::Add);
        assert(q[j] == p[j]);
    }
}

proof fn lemma_whole_column_fields(c: ERDColumn)
    ensures
        (forall|m: int| 0 <= m < whole_column(c, ChangeType::Add).changes.len()
            ==> added(#[trigger] whole_column(c, ChangeType::Add).changes[m])),
        reports_field(whole_column(c, ChangeType::Add).changes, "primaryKey"@) <==> c.primary_key == Some(true),
        reports_field(whole_column(c, ChangeType::Add).changes, "foreignKey"@) <==> c.foreign_key == Some(true),
        !reports_field(whole_column(c, ChangeType::Add).changes, "nullable"@),
        !reports_field(whole_column(c, ChangeType::Add).changes, "unique"@),
{
    reveal_strlit("type");
    reveal_strlit("documentation");
    reveal_strlit("length");
    reveal_strlit("primaryKey");
    reveal_strlit("foreignKey");
    reveal_strlit("nullable");
    reveal_strlit("unique");
    assert("foreignKey"@[0] != "primaryKey"@[0]);
    assert("unique"@[0] != "length"@[0]);
    let cs = whole_column(c, ChangeType::Add).changes;
    assert("nullable"@.len() == 8 && "type"@.len() == 4 && "documentation"@.len() == 13);
    assert("length"@.len() == 6 && "primaryKey"@.len() == 10 && "foreignKey"@.len() == 10);
    assert forall|m: int| 0 <= m < cs.len() implies added(#[trigger] cs[m]) && (cs[m].name == "type"@
        || cs[m].name == "documentation"@ || cs[m].name == "length"@
        || (cs[m].name == "primaryKey"@ && c.primary_key == Some(true))
        || (cs[m].name == "foreignKey"@ && c.foreign_key == Some(true))) by {
    }
    if c.primary_key == Some(true) {
        let m = cs.len() - 1 - (if c.foreign_key == Some(true) { 1int } else { 0int });
        assert(cs[m].name == "primaryKey"@);
    }
    if c.foreign_key == Some(true) {
        assert(cs[cs.len() - 1].name == "foreignKey"@);
    }
}

/// An entity present only in the working document is reported as added, whole: every
/// change within it is an addition with an empty old value, and of a column's flags only
/// the primary and foreign key are reported, each exactly when it is set to true.
pub proof fn entity_only_in_working_copy_is_added(a: Seq<ERDEntity>, b: Seq<ERDEntity>, i: int)
    requires
        0 <= i < a.len(),
        !entity_ids(b).contains(a[i].element._id@),
    ensures
        sort_by_name(table_changes(a, b)).contains(whole_table(a[i], ChangeType::Add)),
        all_added(whole_table(a[i], ChangeType::Add)),
        forall|k: int| 0 <= k < a[i].columns@.len() ==> {
            let cs = (#[trigger] whole_table(a[i], ChangeType::Add).columns[k]).changes;
            &&& reports_field(cs, "primaryKey"@) <==> a[i].columns@[k].primary_key == Some(true)
            &&& reports_field(cs, "foreignKey"@) <==> a[i].columns@[k].foreign_key == Some(true)
            &&& !reports_field(cs, "nullable"@)
            &&& !reports_field(cs, "unique"@)
        },
{
    let e = a[i];
    let t = whole_table(e, ChangeType::Add);
    lemma_matched_or_added_keeps(a, b, i, a.len() as int);
    let s = table_changes(a, b);
    let p = matched_or_added_tables(a, b, a.len() as int);
    let j = choose|j: int| 0 <= j < p.len() && p[j] == t;
    assert(s[j] == t);
    lemma_sorted_members(s, t);
    assert forall|k: int| 0 <= k < t.columns.len() implies (#[trigger] t.columns[k]).change_type == ChangeType::Add
        && forall|m: int| 0 <= m < t.columns[k].changes.len() ==> added(#[trigger] t.columns[k].changes[m]) by {
        lemma_whole_column_fields(e.columns@[k]);
    }
    assert forall|k: int| 0 <= k < e.columns@.len() implies {
        let cs = (#[trigger] t.columns[k]).changes;
        &&& reports_field(cs, "primaryKey"@) <==> e.columns@[k].primary_key == Some(true)
        &&& reports_field(cs, "foreignKey"@) <==> e.columns@[k].foreign_key == Some(true)
        &&& !reports_field(cs, "nullable"@)
        &&& !reports_field(cs, "unique"@)
    } by {
        lemma_whole_column_fields(e.columns@[k]);
    }
}

proof fn lemma_found_position(ids: Seq<Seq<char>>, id: Seq<char>)
    requires
        ids.contains(id),
    ensures
        0 <= position(ids, id) < ids.len(),
        ids[position(ids, id)] == id,
{
}

proof fn lemma_column_diff_symmetric(x: ERDColumn, y: ERDColumn)
    ensures
        column_diff(x, y) is None <==> column_diff(y, x) is None,
{
    assert(column_field_changes(x, y).len() == 0 <==> column_field_changes(y, x).len() == 0);
}

proof fn lemma_relationship_diff_symmetric(x: ERDRelationship, y: ERDRelationship)
    ensures
        relationship_diff(x, y) is None <==> relationship_diff(y, x) is None,
{
}

proof fn lemma_column_passes_empty(ma: Seq<ERDColumn>, mb: Seq<ERDColumn>, n: int)
    requires
        0 <= n <= ma.len(),
    ensures
        matched_or_added_columns(ma, mb, n).len() == 0 <==> forall|k: int| 0 <= k < n ==> {
            &&& column_ids(mb).contains((#[trigger] ma[k]).element._id@)
            &&& column_diff(ma[k], mb[position(column_ids(mb), ma[k].element._id@)]) is None
        },
    decreases n,
{
    if n > 0 {
        lemma_column_passes_empty(ma, mb, n - 1);
    }
}

proof fn lemma_removed_columns_empty(mb: Seq<ERDColumn>, ma: Seq<ERDColumn>, n: int)
    requires
        0 <= n <= mb.len(),
    ensures
        removed_columns(mb, ma, n).len() == 0 <==> forall|k: int| 0 <= k < n
            ==> column_ids(ma).contains((#[trigger] mb[k]).element._id@),
    decreases n,
{
    if n > 0 {
        lemma_removed_columns_empty(mb, ma, n - 1);
    }
}

proof fn lemma_relationship_passes_empty(ma: Seq<ERDRelationship>, mb: Seq<ERDRelationship>, n: int)
    requires
        0 <= n <= ma.len(),
    ensures
        matched_or_added_relationships(ma, mb, n).len() == 0 <==> forall|k: int| 0 <= k < n ==> {
            &&& relationship_ids(mb).contains((#[trigger] ma[k])._id@)
            &&& relationship_diff(ma[k], mb[position(relationship_ids(mb), ma[k]._id@)]) is None
        },
    decreases n,
{
    if n > 0 {
        lemma_relationship_passes_empty(ma, mb, n - 1);
    }
}

proof fn lemma_removed_relationships_empty(mb: Seq<ERDRelationship>, ma: Seq<ERDRelationship>, n: int)
    requires
        0 <= n <= mb.len(),
    ensures
        removed_relationships(mb, ma, n).len() == 0 <==> forall|k: int| 0 <= k < n
            ==> relationship_ids(ma).contains((#[trigger] mb[k])._id@),
    decreases n,
{
    if n > 0 {
        lemma_removed_relationships_empty(mb, ma, n - 1);
    }
}

proof fn lemma_column_changes_empty_symmetric(x: ERDEntity, y: ERDEntity)
    requires
        column_changes(x, y).len() == 0,
    ensures
        column_changes(y, x).len() == 0,
{
    let lx = column_map(x);
    let ly = column_map(y);
    lemma_column_map_unique(x);
    lemma_column_map_unique(y);
    lemma_column_passes_empty(lx, ly, lx.len() as int);
    lemma_removed_columns_empty(ly, lx, ly.len() as int);
    lemma_column_passes_empty(ly, lx, ly.len() as int);
    lemma_removed_columns_empty(lx, ly, lx.len() as int);
    assert forall|k: int| 0 <= k < ly.len() implies {
        &&& column_ids(lx).contains((#[trigger] ly[k]).element._id@)
        &&& column_diff(ly[k], lx[position(column_ids(lx), ly[k].element._id@)]) is None
    } by {
        let id = ly[k].element._id@;
        assert(column_ids(lx).contains(id));
        lemma_found_position(column_ids(lx), id);
        let q = position(column_ids(lx), id);
        assert(column_ids(lx).contains(lx[q].element._id@));
        lemma_position(column_ids(ly), k);
        assert(column_ids(ly)[k] == id);
        lemma_column_diff_symmetric(lx[q], ly[k]);
    }
}

proof fn lemma_relationship_changes_empty_symmetric(x: ERDEntity, y: ERDEntity)
    requires
        relationship_changes(x, y).len() == 0,
    ensures
        relationship_changes(y, x).len() == 0,
{
    let lx = relationship_map(x);
    let ly = relationship_map(y);
    lemma_relationship_map_unique(x);
    lemma_relationship_map_unique(y);
    lemma_relationship_passes_empty(lx, ly, lx.len() as int);
    lemma_removed_relationships_empty(ly, lx, ly.len() as int);
    lemma_relationship_passes_empty(ly, lx, ly.len() as int);
    lemma_removed_relationships_empty(lx, ly, lx.len() as int);
    assert forall|k: int| 0 <= k < ly.len() implies {
        &&& relationship_ids(lx).contains((#[trigger] ly[k])._id@)
        &&& relationship_diff(ly[k], lx[position(relationship_ids(lx), ly[k]._id@)]) is None
    } by {
        let id = ly[k]._id@;
        assert(relationship_ids(lx).contains(id));
        lemma_found_position(relationship_ids(lx), id);
        let q = position(relationship_ids(lx), id);
        assert(relationship_ids(lx).contains(lx[q]._id@));
        lemma_position(relationship_ids(ly), k);
        assert(relationship_ids(ly)[k] == id);
        lemma_relationship_diff_symmetric(lx[q], ly[k]);
    }
}

/// Two versions of an entity differ one way exactly when they differ the other way.
pub proof fn table_diff_symmetric(x: ERDEntity, y: ERDEntity)
    ensures
        table_diff(x, y) is None <==> table_diff(y, x) is None,
{
    if column_changes(x, y).len() == 0 {
        lemma_column_changes_empty_symmetric(x, y);
    }
    if column_changes(y, x).len() == 0 {
        lemma_column_changes_empty_symmetric(y, x);
    }
    if relationship_changes(x, y).len() == 0 {
        lemma_relationship_changes_empty_symmetric(x, y);
    }
    if relationship_changes(y, x).len() == 0 {
        lemma_relationship_changes_empty_symmetric(y, x);
    }
}

/// Add and Remove trade places; Modify stays.
pub open spec fn inverse_kind(k: ChangeType) -> ChangeType {
    match k {
        ChangeType::Add => ChangeType::Remove,
        ChangeType::Remove => ChangeType::Add,
        ChangeType::Modify => ChangeType::Modify,
    }
}

/// The change seen from the other side: inverse kind, value and old swapped.
pub open spec fn invert_change(c: ChangeView) -> ChangeView {
    ChangeView { name: c.name, change_type: inverse_kind(c.change_type), value: c.old, old: c.value }
}

pub open spec fn invert_slot(o: Option<ChangeView>) -> Option<ChangeView> {
    match o {
        Some(c) => Some(invert_change(c)),
        None => None,
    }
}

pub open spec fn invert_column(c: ColumnChangeView) -> ColumnChangeView {
    ColumnChangeView {
        id: c.id,
        name: c.name,
        change_type: inverse_kind(c.change_type),
        changes: c.changes.map_values(|x: ChangeView| invert_change(x)),
    }
}

pub open spec fn invert_relationship(r: RelationshipChangeView) -> RelationshipChangeView {
    RelationshipChangeView {
        id: r.id,
        name: r.name,
        change_type: inverse_kind(r.change_type),
        end1_cardinality: invert_slot(r.end1_cardinality),
        end2_cardinality: invert_slot(r.end2_cardinality),
        end1_reference: invert_slot(r.end1_reference),
        end2_reference: invert_slot(r.end2_reference),
        changes: r.changes.map_values(|x: ChangeView| invert_change(x)),
    }
}

/// An entity change seen from the other side, down to every field.
pub open spec fn invert_table(t: TableChangeView) -> TableChangeView {
    TableChangeView {
        id: t.id,
        change_type: inverse_kind(t.change_type),
        name: t.name,
        columns: t.columns.map_values(|c: ColumnChangeView| invert_column(c)),
        relationships: t.relationships.map_values(|r: RelationshipChangeView| invert_relationship(r)),
        changes: t.changes.map_values(|x: ChangeView| invert_change(x)),
    }
}

/// How an entity change of one direction shows in the other direction.
pub open spec fn mirrors(t1: TableChangeView, t2: TableChangeView) -> bool {
    &&& t2.id == t1.id
    &&& t1.change_type != ChangeType::Modify ==> t2 == invert_table(t1)
    &&& t1.change_type == ChangeType::Modify ==> t2.change_type == ChangeType::Modify
        && t2.changes == t1.changes.map_values(|x: ChangeView| invert_change(x))
}

proof fn lemma_whole_column_inverts(c: ERDColumn, kind: ChangeType)
    requires
        kind != ChangeType::Modify,
    ensures
        whole_column(c, inverse_kind(kind)) == invert_column(whole_column(c, kind)),
{
    let w = whole_column(c, kind);
    let v = whole_column(c, inverse_kind(kind));
    assert(v.changes =~= w.changes.map_values(|x: ChangeView| invert_change(x)));
}

proof fn lemma_whole_relationship_inverts(r: ERDRelationship, kind: ChangeType)
    requires
        kind != ChangeType::Modify,
    ensures
        whole_relationship(r, inverse_kind(kind)) == invert_relationship(whole_relationship(r, kind)),
{
    let w = whole_relationship(r, kind);
    let v = whole_relationship(r, inverse_kind(kind));
    assert(v.changes =~= w.changes.map_values(|x: ChangeView| invert_change(x)));
}

proof fn lemma_whole_table_inverts(e: ERDEntity, kind: ChangeType)
    requires
        kind != ChangeType::Modify,
    ensures
        whole_table(e, inverse_kind(kind)) == invert_table(whole_table(e, kind)),
{
    let w = whole_table(e, kind);
    let v = whole_table(e, inverse_kind(kind));
    assert(v.changes =~= w.changes.map_values(|x: ChangeView| invert_change(x)));
    assert forall|k: int| 0 <= k < v.columns.len() implies v.columns[k]
        == invert_column(#[trigger] w.columns[k]) by {
        lemma_whole_column_inverts(e.columns@[k], kind);
    }
    assert(v.columns =~= w.columns.map_values(|c: ColumnChangeView| invert_column(c)));
    let rs = crate::types::entity_relationships(e);
    assert forall|k: int| 0 <= k < v.relationships.len() implies v.relationships[k]
        == invert_relationship(#[trigger] w.relationships[k]) by {
        lemma_whole_relationship_inverts(rs[k], kind);
    }
    assert(v.relationships =~= w.relationships.map_values(|r: RelationshipChangeView| invert_relationship(r)));
}

/// Where each reported entity change comes from.
proof fn lemma_table_change_origin(a: Seq<ERDEntity>, b: Seq<ERDEntity>, t: TableChangeView)
    requires
        table_changes(a, b).contains(t),
    ensures
        (exists|i: int| 0 <= i < a.len() && !entity_ids(b).contains((#[trigger] a[i]).element._id@)
            && t == whole_table(a[i], ChangeType::Add))
        || (exists|i: int| 0 <= i < a.len() && entity_ids(b).contains((#[trigger] a[i]).element._id@)
            && table_diff(a[i], b[position(entity_ids(b), a[i].element._id@)]) == Some(t))
        || (exists|j: int| 0 <= j < b.len() && !entity_ids(a).contains((#[trigger] b[j]).element._id@)
            && t == whole_table(b[j], ChangeType::Remove)),
{
    let p = matched_or_added_tables(a, b, a.len() as int);
    let q = removed_tables(b, a, b.len() as int);
    let s = table_changes(a, b);
    let k = choose|k: int| 0 <= k < s.len() && s[k] == t;
    if k < p.len() {
        assert(p[k] == t);
        lemma_matched_origin(a, b, a.len() as int, k);
    } else {
        assert(q[k - p.len()] == t);
        lemma_removed_origin(b, a, b.len() as int, k - p.len());
    }
}

proof fn lemma_matched_origin(a: Seq<ERDEntity>, b: Seq<ERDEntity>, n: int, k: int)
    requires
        0 <= n <= a.len(),
        0 <= k < matched_or_added_tables(a, b, n).len(),
    ensures
        (exists|i: int| 0 <= i < n && !entity_ids(b).contains((#[trigger] a[i]).element._id@)
            && matched_or_added_tables(a, b, n)[k] == whole_table(a[i], ChangeType::Add))
        || (exists|i: int| 0 <= i < n && entity_ids(b).contains((#[trigger] a[i]).element._id@)
            && table_diff(a[i], b[position(entity_ids(b), a[i].element._id@)])
            == Some(matched_or_added_tables(a, b, n)[k])),
    decreases n,
{
    let p = matched_or_added_tables(a, b, n - 1);
    let q = matched_or_added_tables(a, b, n);
    if k < p.len() {
        assert(q[k] == p[k]);
        lemma_matched_origin(a, b, n - 1, k);
    }
}

proof fn lemma_removed_origin(b: Seq<ERDEntity>, a: Seq<ERDEntity>, n: int, k: int)
    requires
        0 <= n <= b.len(),
        0 <= k < removed_tables(b, a, n).len(),
    ensures
        exists|j: int| 0 <= j < n && !entity_ids(a).contains((#[trigger] b[j]).element._id@)
            && removed_tables(b, a, n)[k] == whole_table(b[j], ChangeType::Remove),
    decreases n,
{
    let p = removed_tables(b, a, n - 1);
    let q = removed_tables(b, a, n);
    if k < p.len() {
        assert(q[k] == p[k]);
        lemma_removed_origin(b, a, n - 1, k);
    }
}

proof fn lemma_matched_contains(a: Seq<ERDEntity>, b: Seq<ERDEntity>, i: int, n: int, t: TableChangeView)
    requires
        0 <= i < n <= a.len(),
        entity_ids(b).contains(a[i].element._id@),
        table_diff(a[i], b[position(entity_ids(b), a[i].element._id@)]) == Some(t),
    ensures
        matched_or_added_tables(a, b, n).contains(t),
    decreases n,
{
    let p = matched_or_added_tables(a, b, n - 1);
    let q = matched_or_added_tables(a, b, n);
    if n - 1 == i {
        assert(q[q.len() - 1] == t);
    } else {
        lemma_matched_contains(a, b, i, n - 1, t);
        let j = choose|j: int| 0 <= j < p.len() && p[j] == t;
        assert(q[j] == p[j]);
    }
}

proof fn lemma_removed_contains(b: Seq<ERDEntity>, a: Seq<ERDEntity>, j: int, n: int)
    requires
        0 <= j < n <= b.len(),
        !entity_ids(a).contains(b[j].element._id@),
    ensures
        removed_tables(b, a, n).contains(whole_table(b[j], ChangeType::Remove)),
    decreases n,
{
    let p = removed_tables(b, a, n - 1);
    let q = removed_tables(b, a, n);
    if n - 1 == j {
        assert(q[q.len() - 1] == whole_table(b[j], ChangeType::Remove));
    } else {
        lemma_removed_contains(b, a, j, n - 1);
        let k = choose|k: int| 0 <= k < p.len() && p[k] == whole_table(b[j], ChangeType::Remove);
        assert(q[k] == p[k]);
    }
}

proof fn lemma_contains_left(a: Seq<ERDEntity>, b: Seq<ERDEntity>, t: TableChangeView)
    requires
        matched_or_added_tables(a, b, a.len() as int).contains(t),
    ensures
        sort_by_name(table_changes(a, b)).contains(t),
{
    let p = matched_or_added_tables(a, b, a.len() as int);
    let s = table_changes(a, b);
    let k = choose|k: int| 0 <= k < p.len() && p[k] == t;
    assert(s[k] == t);
    lemma_sorted_members(s, t);
}

proof fn lemma_contains_right(a: Seq<ERDEntity>, b: Seq<ERDEntity>, t: TableChangeView)
    requires
        removed_tables(b, a, b.len() as int).contains(t),
    ensures
        sort_by_name(table_changes(a, b)).contains(t),
{
    let p = matched_or_added_tables(a, b, a.len() as int);
    let q = removed_tables(b, a, b.len() as int);
    let s = table_changes(a, b);
    let k = choose|k: int| 0 <= k < q.len() && q[k] == t;
    assert(s[k + p.len()] == t);
    lemma_sorted_members(s, t);
}

/// Swapping the two documents mirrors the report: every entity change of one direction
/// has a change to the same entity in the other, where an addition shows as a removal
/// and a removal as an addition (with every field's value and old value swapped), and a
/// modification shows as a modification whose field changes have value and old swapped.
pub proof fn diff_mirrors_when_swapped(a: Seq<ERDEntity>, b: Seq<ERDEntity>, t1: TableChangeView)
    requires
        unique_ids(entity_ids(a)),
        unique_ids(entity_ids(b)),
        sort_by_name(table_changes(a, b)).contains(t1),
    ensures
        exists|t2: TableChangeView| #[trigger] sort_by_name(table_changes(b, a)).contains(t2) && mirrors(t1, t2),
{
    lemma_sorted_members(table_changes(a, b), t1);
    lemma_table_change_origin(a, b, t1);
    if exists|i: int| 0 <= i < a.len() && !entity_ids(b).contains((#[trigger] a[i]).element._id@)
        && t1 == whole_table(a[i], ChangeType::Add) {
        let i = choose|i: int| 0 <= i < a.len() && !entity_ids(b).contains((#[trigger] a[i]).element._id@)
            && t1 == whole_table(a[i], ChangeType::Add);
        let t2 = whole_table(a[i], ChangeType::Remove);
        lemma_whole_table_inverts(a[i], ChangeType::Add);
        lemma_removed_contains(a, b, i, a.len() as int);
        lemma_contains_right(b, a, t2);
        assert(mirrors(t1, t2));
    } else if exists|j: int| 0 <= j < b.len() && !entity_ids(a).contains((#[trigger] b[j]).element._id@)
        && t1 == whole_table(b[j], ChangeType::Remove) {
        let j = choose|j: int| 0 <= j < b.len() && !entity_ids(a).contains((#[trigger] b[j]).element._id@)
            && t1 == whole_table(b[j], ChangeType::Remove);
        let t2 = whole_table(b[j], ChangeType::Add);
        lemma_whole_table_inverts(b[j], ChangeType::Remove);
        lemma_matched_or_added_keeps(b, a, j, b.len() as int);
        lemma_contains_left(b, a, t2);
        assert(mirrors(t1, t2));
    } else {
        let i = choose|i: int| 0 <= i < a.len() && entity_ids(b).contains((#[trigger] a[i]).element._id@)
            && table_diff(a[i], b[position(entity_ids(b), a[i].element._id@)]) == Some(t1);
        let x = a[i];
        lemma_found_position(entity_ids(b), x.element._id@);
        let p = position(entity_ids(b), x.element._id@);
        let y = b[p];
        assert(entity_ids(b)[p] == y.element._id@);
        lemma_position(entity_ids(a), i);
        assert(entity_ids(a)[i] == y.element._id@);
        table_diff_symmetric(x, y);
        let t2 = table_diff(y, x)->0;
        lemma_matched_contains(b, a, p, b.len() as int, t2);
        lemma_contains_left(b, a, t2);
        assert(t2.changes =~= t1.changes.map_values(|c: ChangeView| invert_change(c)));
        assert(mirrors(t1, t2));
    }
}

/// The identifiers of the entities that a report names.
pub open spec fn changed_ids(r: Seq<TableChangeView>) -> Set<Seq<char>> {
    r.map_values(|t: TableChangeView| t.id).to_set()
}

proof fn lemma_changed_ids_one_way(a: Seq<ERDEntity>, b: Seq<ERDEntity>, id: Seq<char>)
    requires
        unique_ids(entity_ids(a)),
        unique_ids(entity_ids(b)),
        changed_ids(sort_by_name(table_changes(a, b))).contains(id),
    ensures
        changed_ids(sort_by_name(table_changes(b, a))).contains(id),
{
    let r1 = sort_by_name(table_changes(a, b));
    let r2 = sort_by_name(table_changes(b, a));
    let ids1 = r1.map_values(|t: TableChangeView| t.id);
    assert(ids1.contains(id));
    let k = choose|k: int| 0 <= k < ids1.len() && ids1[k] == id;
    let t1 = r1[k];
    assert(r1.contains(t1));
    diff_mirrors_when_swapped(a, b, t1);
    let t2 = choose|t2: TableChangeView| #[trigger] r2.contains(t2) && mirrors(t1, t2);
    let j = choose|j: int| 0 <= j < r2.len() && r2[j] == t2;
    let ids2 = r2.map_values(|t: TableChangeView| t.id);
    assert(ids2[j] == id);
    assert(ids2.contains(id));
}

/// Diffing the documents either way round names the same set of entities.
pub proof fn diff_names_same_entities_when_swapped(a: Seq<ERDEntity>, b: Seq<ERDEntity>)
    requires
        unique_ids(entity_ids(a)),
        unique_ids(entity_ids(b)),
    ensures
        changed_ids(sort_by_name(table_changes(a, b))) == changed_ids(sort_by_name(table_changes(b, a))),
{
    assert forall|id: Seq<char>| changed_ids(sort_by_name(table_changes(a, b))).contains(id)
        <==> changed_ids(sort_by_name(table_changes(b, a))).contains(id) by {
        if changed_ids(sort_by_name(table_changes(a, b))).contains(id) {
            lemma_changed_ids_one_way(a, b, id);
        }
        if changed_ids(sort_by_name(table_changes(b, a))).contains(id) {
            lemma_changed_ids_one_way(b, a, id);
        }
    }
    assert(changed_ids(sort_by_name(table_changes(a, b))) =~= changed_ids(sort_by_name(table_changes(b, a))));
}

} // verus!
