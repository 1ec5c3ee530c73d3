//! The change tree and the structural differ that builds it.
use vstd::prelude::*;
use crate::order::{sort_by_name, sort_table_changes, sorted_by_name, lemma_sort_by_name};
use crate::types::{
    cardinality_text, column_ids, column_map, entity_ids, entity_relationships, length_text,
    position, refs_to, relationship_ids, relationship_map, unique_ids, ColumnLength, ERDColumn,
    ERDEntity, ERDRelationship, find_entity,
};

verus! {

/// The kind of a reported difference.
#[derive(Debug, Clone, Copy, PartialEq, Eq, Structural)]
pub enum ChangeType {
    Add,
    Remove,
    Modify,
}

/// One changed field: its name, the kind of change, the new value and the old one.
#[derive(Debug)]
pub struct Change {
    pub name: String,
    pub change_type: ChangeType,
    pub value: String,
    pub old: String,
}

/// The changes to one column.
#[derive(Debug)]
pub struct ColumnChange {
    pub id: String,
    pub name: String,
    pub change_type: ChangeType,
    pub changes: Vec<Change>,
}

/// The changes to one relationship: a slot for each end's cardinality and reference,
/// and a list for the remaining fields.
#[derive(Debug)]
pub struct RelationshipChange {
    pub id: String,
    pub name: String,
    pub change_type: ChangeType,
    pub end1_cardinality: Option<Change>,
    pub end2_cardinality: Option<Change>,
    pub end1_reference: Option<Change>,
    pub end2_reference: Option<Change>,
    pub changes: Vec<Change>,
}

/// The changes to one entity (table), with those to its columns and relationships.
#[derive(Debug)]
pub struct TableChange {
    pub id: String,
    pub change_type: ChangeType,
    pub name: String,
    pub columns: Vec<ColumnChange>,
    pub relationships: Vec<RelationshipChange>,
    pub changes: Vec<Change>,
}

/// What a `Change` holds, as mathematical values.
pub struct ChangeView {
    pub name: Seq<char>,
    pub change_type: ChangeType,
    pub value: Seq<char>,
    pub old: Seq<char>,
}

/// What a `ColumnChange` holds, as mathematical values.
pub struct ColumnChangeView {
    pub id: Seq<char>,
    pub name: Seq<char>,
    pub change_type: ChangeType,
    pub changes: Seq<ChangeView>,
}

/// What a `RelationshipChange` holds, as mathematical values.
pub struct RelationshipChangeView {
    pub id: Seq<char>,
    pub name: Seq<char>,
    pub change_type: ChangeType,
    pub end1_cardinality: Option<ChangeView>,
    pub end2_cardinality: Option<ChangeView>,
    pub end1_reference: Option<ChangeView>,
    pub end2_reference: Option<ChangeView>,
    pub changes: Seq<ChangeView>,
}

/// What a `TableChange` holds, as mathematical values.
pub struct TableChangeView {
    pub id: Seq<char>,
    pub change_type: ChangeType,
    pub name: Seq<char>,
    pub columns: Seq<ColumnChangeView>,
    pub relationships: Seq<RelationshipChangeView>,
    pub changes: Seq<ChangeView>,
}

pub open spec fn changes_view(s: Seq<Change>) -> Seq<ChangeView> {
    s.map_values(|c: Change| c@)
}

pub open spec fn opt_change_view(o: Option<Change>) -> Option<ChangeView> {
    match o {
        Some(c) => Some(c@),
        None => None,
    }
}

impl View for Change {
    type V = ChangeView;

    open spec fn view(&self) -> ChangeView {
        ChangeView { name: self.name@, change_type: self.change_type, value: self.value@, old: self.old@ }
    }
}

impl View for ColumnChange {
    type V = ColumnChangeView;

    open spec fn view(&self) -> ColumnChangeView {
        ColumnChangeView {
            id: self.id@,
            name: self.name@,
            change_type: self.change_type,
            changes: changes_view(self.changes@),
        }
    }
}

impl View for RelationshipChange {
    type V = RelationshipChangeView;

    open spec fn view(&self) -> RelationshipChangeView {
        RelationshipChangeView {
            id: self.id@,
            name: self.name@,
            change_type: self.change_type,
            end1_cardinality: opt_change_view(self.end1_cardinality),
            end2_cardinality: opt_change_view(self.end2_cardinality),
            end1_reference: opt_change_view(self.end1_reference),
            end2_reference: opt_change_view(self.end2_reference),
            changes: changes_view(self.changes@),
        }
    }
}

pub open spec fn column_changes_view(s: Seq<ColumnChange>) -> Seq<ColumnChangeView> {
    s.map_values(|c: ColumnChange| c@)
}

pub open spec fn relationship_changes_view(s: Seq<RelationshipChange>) -> Seq<RelationshipChangeView> {
    s.map_values(|r: RelationshipChange| r@)
}

impl View for TableChange {
    type V = TableChangeView;

    open spec fn view(&self) -> TableChangeView {
        TableChangeView {
            id: self.id@,
            change_type: self.change_type,
            name: self.name@,
            columns: column_changes_view(self.columns@),
            relationships: relationship_changes_view(self.relationships@),
            changes: changes_view(self.changes@),
        }
    }
}

pub open spec fn table_changes_view(s: Seq<TableChange>) -> Seq<TableChangeView> {
    s.map_values(|t: TableChange| t@)
}

// ---------------------------------------------------------------------------
// Field texts
// ---------------------------------------------------------------------------

/// An absent text reads as the empty string.
pub open spec fn opt_text(o: Option<String>) -> Seq<char> {
    match o {
        Some(s) => s@,
        None => Seq::empty(),
    }
}

/// A flag reads as "true" or "false", an absent one as the empty string.
pub open spec fn flag_text(o: Option<bool>) -> Seq<char> {
    match o {
        Some(b) => if b { "true"@ } else { "false"@ },
        None => Seq::empty(),
    }
}

/// An absent length reads as the empty string.
pub open spec fn opt_length_text(o: Option<ColumnLength>) -> Seq<char> {
    match o {
        Some(l) => length_text(l),
        None => Seq::empty(),
    }
}

/// A field value that can be compared and reported by its text.
pub trait FieldText {
    spec fn text(&self) -> Seq<char>;

    fn to_text(&self) -> (r: String)
        ensures
            r@ == self.text(),
    ;
}

impl FieldText for String {
    open spec fn text(&self) -> Seq<char> {
        self@
    }

    fn to_text(&self) -> (r: String) {
        self.clone()
    }
}

impl FieldText for Option<String> {
    open spec fn text(&self) -> Seq<char> {
        opt_text(*self)
    }

    fn to_text(&self) -> (r: String) {
        match self {
            Some(s) => s.clone(),
            None => String::new(),
        }
    }
}

impl FieldText for Option<bool> {
    open spec fn text(&self) -> Seq<char> {
        flag_text(*self)
    }

    fn to_text(&self) -> (r: String) {
        match self {
            Some(b) => if *b {
                String::from_str("true")
            } else {
                String::from_str("false")
            },
            None => String::new(),
        }
    }
}

impl FieldText for Option<ColumnLength> {
    open spec fn text(&self) -> Seq<char> {
        opt_length_text(*self)
    }

    fn to_text(&self) -> (r: String) {
        match self {
            Some(l) => l.to_string(),
            None => String::new(),
        }
    }
}

// ---------------------------------------------------------------------------
// What the differ reports
// ---------------------------------------------------------------------------

/// A field whose value went from `old` to `value`.
pub open spec fn modified(name: Seq<char>, value: Seq<char>, old: Seq<char>) -> ChangeView {
    ChangeView { name, change_type: ChangeType::Modify, value, old }
}

/// The change for a field compared across a matched pair: none when the texts agree.
pub open spec fn field_change(name: Seq<char>, a: Seq<char>, b: Seq<char>) -> Seq<ChangeView> {
    if a == b {
        Seq::empty()
    } else {
        seq![modified(name, a, b)]
    }
}

/// A field of an element present on one side only: an addition carries the value in
/// `value`, a removal in `old`, and the other side is empty.
pub open spec fn materialized(name: Seq<char>, kind: ChangeType, v: Seq<char>) -> ChangeView {
    if kind == ChangeType::Remove {
        ChangeView { name, change_type: kind, value: Seq::empty(), old: v }
    } else {
        ChangeView { name, change_type: kind, value: v, old: Seq::empty() }
    }
}

pub open spec fn opt_materialized(name: Seq<char>, kind: ChangeType, o: Option<String>) -> Seq<ChangeView> {
    match o {
        Some(s) => seq![materialized(name, kind, s@)],
        None => Seq::empty(),
    }
}

/// A flag is reported only when it is set to true.
pub open spec fn flag_materialized(name: Seq<char>, kind: ChangeType, o: Option<bool>) -> Seq<ChangeView> {
    if o == Some(true) {
        seq![materialized(name, kind, "true"@)]
    } else {
        Seq::empty()
    }
}

pub open spec fn column_field_changes(a: ERDColumn, b: ERDColumn) -> Seq<ChangeView> {
    field_change("name"@, a.element.name@, b.element.name@)
        + field_change("documentation"@, opt_text(a.element.documentation), opt_text(b.element.documentation))
        + field_change("type"@, a.column_type@, b.column_type@)
        + field_change("primaryKey"@, flag_text(a.primary_key), flag_text(b.primary_key))
        + field_change("foreignKey"@, flag_text(a.foreign_key), flag_text(b.foreign_key))
        + field_change("nullable"@, flag_text(a.nullable), flag_text(b.nullable))
        + field_change("unique"@, flag_text(a.unique), flag_text(b.unique))
        + field_change("length"@, opt_length_text(a.length), opt_length_text(b.length))
}

/// The differences between two versions of a column; none when no field changed.
pub open spec fn column_diff(a: ERDColumn, b: ERDColumn) -> Option<ColumnChangeView> {
    let changes = column_field_changes(a, b);
    if changes.len() == 0 {
        None
    } else {
        Some(ColumnChangeView {
            id: a.element._id@,
            name: a.element.name@,
            change_type: ChangeType::Modify,
            changes,
        })
    }
}

/// A column present on one side only, with every populated field.
pub open spec fn whole_column(c: ERDColumn, kind: ChangeType) -> ColumnChangeView {
    ColumnChangeView {
        id: c.element._id@,
        name: c.element.name@,
        change_type: kind,
        changes: seq![materialized("type"@, kind, c.column_type@)]
            + opt_materialized("documentation"@, kind, c.element.documentation)
            + match c.length {
                Some(l) => seq![materialized("length"@, kind, length_text(l))],
                None => Seq::<ChangeView>::empty(),
            }
            + flag_materialized("primaryKey"@, kind, c.primary_key)
            + flag_materialized("foreignKey"@, kind, c.foreign_key),
    }
}

/// The columns of `ma[..n]`: the differences of those matched in `mb`, and the
/// additions of those missing from it.
pub open spec fn matched_or_added_columns(ma: Seq<ERDColumn>, mb: Seq<ERDColumn>, n: int) -> Seq<ColumnChangeView>
    decreases n,
{
    if n <= 0 {
        Seq::empty()
    } else {
        let prev = matched_or_added_columns(ma, mb, n - 1);
        let x = ma[n - 1];
        let ids = column_ids(mb);
        if ids.contains(x.element._id@) {
            match column_diff(x, mb[position(ids, x.element._id@)]) {
                Some(c) => prev.push(c),
                None => prev,
            }
        } else {
            prev.push(whole_column(x, ChangeType::Add))
        }
    }
}

/// The removals of the columns of `mb[..n]` that `ma` lacks.
pub open spec fn removed_columns(mb: Seq<ERDColumn>, ma: Seq<ERDColumn>, n: int) -> Seq<ColumnChangeView>
    decreases n,
{
    if n <= 0 {
        Seq::empty()
    } else {
        let prev = removed_columns(mb, ma, n - 1);
        let y = mb[n - 1];
        if column_ids(ma).contains(y.element._id@) {
            prev
        } else {
            prev.push(whole_column(y, ChangeType::Remove))
        }
    }
}

/// The column changes between two versions of an entity.
pub open spec fn column_changes(a: ERDEntity, b: ERDEntity) -> Seq<ColumnChangeView> {
    let ma = column_map(a);
    let mb = column_map(b);
    matched_or_added_columns(ma, mb, ma.len() as int) + removed_columns(mb, ma, mb.len() as int)
}

/// The slot for an end-specific field: filled only when the two texts differ.
pub open spec fn slot_change(name: Seq<char>, a: Seq<char>, b: Seq<char>) -> Option<ChangeView> {
    if a == b {
        None
    } else {
        Some(modified(name, a, b))
    }
}

/// The differences between two versions of a relationship; none when nothing changed.
pub open spec fn relationship_diff(a: ERDRelationship, b: ERDRelationship) -> Option<RelationshipChangeView> {
    let r = RelationshipChangeView {
        id: a._id@,
        name: a.end2.reference._ref@,
        change_type: ChangeType::Modify,
        end1_cardinality: slot_change("end1.cardinality"@, cardinality_text(a.end1), cardinality_text(b.end1)),
        end2_cardinality: slot_change("end2.cardinality"@, cardinality_text(a.end2), cardinality_text(b.end2)),
        end1_reference: slot_change("end1.reference"@, a.end1.reference._ref@, b.end1.reference._ref@),
        end2_reference: slot_change("end2.reference"@, a.end2.reference._ref@, b.end2.reference._ref@),
        changes: field_change("documentation"@, opt_text(a.documentation), opt_text(b.documentation)),
    };
    if r.end1_cardinality is None && r.end2_cardinality is None && r.end1_reference is None
        && r.end2_reference is None && r.changes.len() == 0 {
        None
    } else {
        Some(r)
    }
}

/// A relationship present on one side only: both ends, and the documentation if any.
pub open spec fn whole_relationship(r: ERDRelationship, kind: ChangeType) -> RelationshipChangeView {
    RelationshipChangeView {
        id: r._id@,
        name: r.end2.reference._ref@,
        change_type: kind,
        end1_cardinality: Some(materialized("end1.cardinality"@, kind, cardinality_text(r.end1))),
        end2_cardinality: Some(materialized("end2.cardinality"@, kind, cardinality_text(r.end2))),
        end1_reference: Some(materialized("end1.reference"@, kind, r.end1.reference._ref@)),
        end2_reference: Some(materialized("end2.reference"@, kind, r.end2.reference._ref@)),
        changes: opt_materialized("documentation"@, kind, r.documentation),
    }
}

/// The relationships of `ma[..n]`: the differences of those matched in `mb`, and the
/// additions of those missing from it.
pub open spec fn matched_or_added_relationships(
    ma: Seq<ERDRelationship>,
    mb: Seq<ERDRelationship>,
    n: int,
) -> Seq<RelationshipChangeView>
    decreases n,
{
    if n <= 0 {
        Seq::empty()
    } else {
        let prev = matched_or_added_relationships(ma, mb, n - 1);
        let x = ma[n - 1];
        let ids = relationship_ids(mb);
        if ids.contains(x._id@) {
            match relationship_diff(x, mb[position(ids, x._id@)]) {
                Some(c) => prev.push(c),
                None => prev,
            }
        } else {
            prev.push(whole_relationship(x, ChangeType::Add))
        }
    }
}

/// The removals of the relationships of `mb[..n]` that `ma` lacks.
pub open spec fn removed_relationships(mb: Seq<ERDRelationship>, ma: Seq<ERDRelationship>, n: int) -> Seq<
    RelationshipChangeView,
>
    decreases n,
{
    if n <= 0 {
        Seq::empty()
    } else {
        let prev = removed_relationships(mb, ma, n - 1);
        let y = mb[n - 1];
        if relationship_ids(ma).contains(y._id@) {
            prev
        } else {
            prev.push(whole_relationship(y, ChangeType::Remove))
        }
    }
}

/// The relationship changes between two versions of an entity.
pub open spec fn relationship_changes(a: ERDEntity, b: ERDEntity) -> Seq<RelationshipChangeView> {
    let ma = relationship_map(a);
    let mb = relationship_map(b);
    matched_or_added_relationships(ma, mb, ma.len() as int) + removed_relationships(mb, ma, mb.len() as int)
}

/// The differences between two versions of an entity; none when nothing changed.
pub open spec fn table_diff(a: ERDEntity, b: ERDEntity) -> Option<TableChangeView> {
    let changes = field_change("name"@, a.element.name@, b.element.name@)
        + field_change("documentation"@, opt_text(a.element.documentation), opt_text(b.element.documentation));
    let columns = column_changes(a, b);
    let relationships = relationship_changes(a, b);
    if changes.len() + columns.len() + relationships.len() == 0 {
        None
    } else {
        Some(TableChangeView {
            id: a.element._id@,
            change_type: ChangeType::Modify,
            name: a.element.name@,
            columns,
            relationships,
            changes,
        })
    }
}

/// An entity present on one side only, with all of its columns and relationships.
pub open spec fn whole_table(e: ERDEntity, kind: ChangeType) -> TableChangeView {
    TableChangeView {
        id: e.element._id@,
        change_type: kind,
        name: e.element.name@,
        columns: e.columns@.map_values(|c: ERDColumn| whole_column(c, kind)),
        relationships: entity_relationships(e).map_values(|r: ERDRelationship| whole_relationship(r, kind)),
        changes: opt_materialized("documentation"@, kind, e.element.documentation),
    }
}

/// The entities of `a[..n]`: the differences of those matched in `b`, and the additions
/// of those missing from it.
pub open spec fn matched_or_added_tables(a: Seq<ERDEntity>, b: Seq<ERDEntity>, n: int) -> Seq<TableChangeView>
    decreases n,
{
    if n <= 0 {
        Seq::empty()
    } else {
        let prev = matched_or_added_tables(a, b, n - 1);
        let x = a[n - 1];
        let ids = entity_ids(b);
        if ids.contains(x.element._id@) {
            match table_diff(x, b[position(ids, x.element._id@)]) {
                Some(t) => prev.push(t),
                None => prev,
            }
        } else {
            prev.push(whole_table(x, ChangeType::Add))
        }
    }
}

/// The removals of the entities of `b[..n]` that `a` lacks.
pub open spec fn removed_tables(b: Seq<ERDEntity>, a: Seq<ERDEntity>, n: int) -> Seq<TableChangeView>
    decreases n,
{
    if n <= 0 {
        Seq::empty()
    } else {
        let prev = removed_tables(b, a, n - 1);
        let y = b[n - 1];
        if entity_ids(a).contains(y.element._id@) {
            prev
        } else {
            prev.push(whole_table(y, ChangeType::Remove))
        }
    }
}

/// The entity changes between two documents, before ordering.
pub open spec fn table_changes(a: Seq<ERDEntity>, b: Seq<ERDEntity>) -> Seq<TableChangeView> {
    matched_or_added_tables(a, b, a.len() as int) + removed_tables(b, a, b.len() as int)
}

// ---------------------------------------------------------------------------
// Lemmas on keyed collections
// ---------------------------------------------------------------------------

/// In a list without repeated identifiers, an identifier's position is where it stands.
pub proof fn lemma_position(ids: Seq<Seq<char>>, k: int)
    requires
        unique_ids(ids),
        0 <= k < ids.len(),
    ensures
        ids.contains(ids[k]),
        position(ids, ids[k]) == k,
{
    let p = position(ids, ids[k]);
    assert(0 <= p < ids.len() && ids[p] == ids[k]);
}

pub proof fn lemma_column_map_unique(e: ERDEntity)
    ensures
        unique_ids(column_ids(column_map(e))),
{
    let s = e.columns@;
    let f = |c: ERDColumn| c.element._id@;
    crate::types::lemma_latest_unique(s, column_ids(s), f, s.len() as int);
    assert(column_ids(column_map(e)) =~= column_map(e).map_values(f));
}

pub proof fn lemma_relationship_map_unique(e: ERDEntity)
    ensures
        unique_ids(relationship_ids(relationship_map(e))),
{
    let s = entity_relationships(e);
    let f = |r: ERDRelationship| r._id@;
    crate::types::lemma_latest_unique(s, relationship_ids(s), f, s.len() as int);
    assert(relationship_ids(relationship_map(e)) =~= relationship_map(e).map_values(f));
}

// ---------------------------------------------------------------------------
// The differ
// ---------------------------------------------------------------------------

fn new_change(name: &str, change_type: ChangeType, value: String, old: String) -> (r: Change)
    ensures
        r@ == (ChangeView { name: name@, change_type, value: value@, old: old@ }),
{
    Change { name: String::from_str(name), change_type, value, old }
}

fn materialize(name: &str, kind: ChangeType, v: String) -> (r: Change)
    ensures
        r@ == materialized(name@, kind, v@),
{
    if kind == ChangeType::Remove {
        new_change(name, kind, String::new(), v)
    } else {
        new_change(name, kind, v, String::new())
    }
}

/// Appends the change of field `name` to `changes` when the texts of `a` and `b` differ.
fn record_change<T: FieldText>(changes: &mut Vec<Change>, name: &str, a: &T, b: &T)
    ensures
        changes_view(final(changes)@) == changes_view(old(changes)@) + field_change(name@, a.text(), b.text()),
{
    let va = a.to_text();
    let vb = b.to_text();
    if va == vb {
        assert(changes_view(old(changes)@) + field_change(name@, a.text(), b.text())
            =~= changes_view(old(changes)@));
        return;
    }
    let c = new_change(name, ChangeType::Modify, va, vb);
    changes.push(c);
    assert(changes_view(final(changes)@) =~= changes_view(old(changes)@) + field_change(name@, a.text(), b.text()));
}

/// Records in `cc` the change of field `name` when `a` and `b` read differently.
fn compare<T: FieldText>(cc: &mut ColumnChange, name: &str, a: &T, b: &T)
    ensures
        final(cc).id == old(cc).id,
        final(cc).name == old(cc).name,
        final(cc).change_type == old(cc).change_type,
        final(cc)@.changes == old(cc)@.changes + field_change(name@, a.text(), b.text()),
{
    record_change(&mut cc.changes, name, a, b);
}

fn diff_column(a: &ERDColumn, b: &ERDColumn) -> (r: Option<ColumnChange>)
    ensures
        r matches Some(c) ==> column_diff(*a, *b) == Some(c@),
        r is None ==> column_diff(*a, *b) is None,
{
    let mut cc = ColumnChange {
        id: a.element._id.clone(),
        name: a.element.name.clone(),
        change_type: ChangeType::Modify,
        changes: Vec::new(),
    };
    assert(cc@.changes =~= Seq::<ChangeView>::empty());
    compare(&mut cc, "name", &a.element.name, &b.element.name);
    compare(&mut cc, "documentation", &a.element.documentation, &b.element.documentation);
    compare(&mut cc, "type", &a.column_type, &b.column_type);
    compare(&mut cc, "primaryKey", &a.primary_key, &b.primary_key);
    compare(&mut cc, "foreignKey", &a.foreign_key, &b.foreign_key);
    compare(&mut cc, "nullable", &a.nullable, &b.nullable);
    compare(&mut cc, "unique", &a.unique, &b.unique);
    compare(&mut cc, "length", &a.length, &b.length);
    assert(cc@.changes =~= column_field_changes(*a, *b));
    if cc.changes.len() == 0 {
        return None;
    }
    Some(cc)
}

fn whole_column_change(c: &ERDColumn, change_type: ChangeType) -> (r: ColumnChange)
    ensures
        r@ == whole_column(*c, change_type),
{
    let mut cc = ColumnChange {
        id: c.element._id.clone(),
        name: c.element.name.clone(),
        change_type,
        changes: Vec::new(),
    };
    let ghost w = whole_column(*c, change_type);
    cc.changes.push(materialize("type", change_type, c.column_type.clone()));
    if let Some(d) = &c.element.documentation {
        cc.changes.push(materialize("documentation", change_type, d.clone()));
    }
    if let Some(l) = &c.length {
        cc.changes.push(materialize("length", change_type, l.to_string()));
    }
    if let Some(p) = c.primary_key {
        if p {
            cc.changes.push(materialize("primaryKey", change_type, String::from_str("true")));
        }
    }
    if let Some(f) = c.foreign_key {
        if f {
            cc.changes.push(materialize("foreignKey", change_type, String::from_str("true")));
        }
    }
    assert(cc@.changes =~= w.changes);
    cc
}

/// The position in `m` of the column with identifier `id`.
fn find_column(m: &Vec<&ERDColumn>, id: &String) -> (r: Option<usize>)
    ensures
        r matches Some(j) ==> j < m@.len() && m@[j as int].element._id@ == id@,
        r is None ==> forall|k: int| 0 <= k < m@.len() ==> m@[k].element._id@ != id@,
{
    let mut j: usize = 0;
    while j < m.len()
        invariant
            j <= m@.len(),
            forall|k: int| 0 <= k < j ==> m@[k].element._id@ != id@,
        decreases m@.len() - j,
    {
        if m[j].element._id == *id {
            return Some(j);
        }
        j = j + 1;
    }
    None
}

fn diff_columns(a: &ERDEntity, b: &ERDEntity) -> (r: Vec<ColumnChange>)
    ensures
        column_changes_view(r@) == column_changes(*a, *b),
{
    let a_columns = a.get_column_map();
    let b_columns = b.get_column_map();
    let ghost ma = column_map(*a);
    let ghost mb = column_map(*b);
    proof {
        lemma_column_map_unique(*a);
        lemma_column_map_unique(*b);
    }
    let mut changes: Vec<ColumnChange> = Vec::new();
    let mut i: usize = 0;
    while i < a_columns.len()
        invariant
            refs_to(a_columns@, ma),
            refs_to(b_columns@, mb),
            unique_ids(column_ids(ma)),
            unique_ids(column_ids(mb)),
            i <= ma.len(),
            column_changes_view(changes@) == matched_or_added_columns(ma, mb, i as int),
        decreases ma.len() - i,
    {
        let a_col = a_columns[i];
        assert(*a_col == ma[i as int]);
        let ghost prev = changes@;
        match find_column(&b_columns, &a_col.element._id) {
            Some(j) => {
                proof {
                    assert(column_ids(mb)[j as int] == a_col.element._id@);
                    lemma_position(column_ids(mb), j as int);
                }
                if let Some(cc) = diff_column(a_col, b_columns[j]) {
                    changes.push(cc);
                    assert(column_changes_view(changes@) =~= column_changes_view(prev).push(cc@));
                }
            },
            None => {
                assert forall|k: int| 0 <= k < mb.len() implies column_ids(mb)[k] != a_col.element._id@ by {
                    assert(*b_columns@[k] == mb[k]);
                }
                assert(!column_ids(mb).contains(a_col.element._id@));
                let cc = whole_column_change(a_col, ChangeType::Add);
                changes.push(cc);
                assert(column_changes_view(changes@) =~= column_changes_view(prev).push(cc@));
            },
        }
        i = i + 1;
    }
    let ghost left = changes@;
    let mut j: usize = 0;
    while j < b_columns.len()
        invariant
            refs_to(a_columns@, ma),
            refs_to(b_columns@, mb),
            j <= mb.len(),
            column_changes_view(left) == matched_or_added_columns(ma, mb, ma.len() as int),
            column_changes_view(changes@) == column_changes_view(left) + removed_columns(mb, ma, j as int),
        decreases mb.len() - j,
    {
        let b_col = b_columns[j];
        assert(*b_col == mb[j as int]);
        let ghost prev = changes@;
        match find_column(&a_columns, &b_col.element._id) {
            Some(k) => {
                assert(column_ids(ma)[k as int] == b_col.element._id@);
            },
            None => {
                assert forall|k: int| 0 <= k < ma.len() implies column_ids(ma)[k] != b_col.element._id@ by {
                    assert(*a_columns@[k] == ma[k]);
                }
                assert(!column_ids(ma).contains(b_col.element._id@));
                let cc = whole_column_change(b_col, ChangeType::Remove);
                changes.push(cc);
                assert(column_changes_view(changes@) =~= column_changes_view(prev).push(cc@));
            },
        }
        j = j + 1;
    }
    changes
}

fn slot(name: &str, a: String, b: String) -> (r: Option<Change>)
    ensures
        opt_change_view(r) == slot_change(name@, a@, b@),
{
    if a == b {
        None
    } else {
        Some(new_change(name, ChangeType::Modify, a, b))
    }
}

fn diff_relationship(a: &ERDRelationship, b: &ERDRelationship) -> (r: Option<RelationshipChange>)
    ensures
        r matches Some(c) ==> relationship_diff(*a, *b) == Some(c@),
        r is None ==> relationship_diff(*a, *b) is None,
{
    let mut r = RelationshipChange {
        id: a._id.clone(),
        name: a.end2.reference._ref.clone(),
        change_type: ChangeType::Modify,
        end1_cardinality: slot("end1.cardinality", a.end1.get_cardinality(), b.end1.get_cardinality()),
        end2_cardinality: slot("end2.cardinality", a.end2.get_cardinality(), b.end2.get_cardinality()),
        end1_reference: slot("end1.reference", a.end1.reference._ref.clone(), b.end1.reference._ref.clone()),
        end2_reference: slot("end2.reference", a.end2.reference._ref.clone(), b.end2.reference._ref.clone()),
        changes: Vec::new(),
    };
    assert(changes_view(r.changes@) =~= Seq::<ChangeView>::empty());
    record_change(&mut r.changes, "documentation", &a.documentation, &b.documentation);
    assert(changes_view(r.changes@) =~= field_change("documentation"@, opt_text(a.documentation), opt_text(b.documentation)));
    if r.end1_cardinality.is_none() && r.end2_cardinality.is_none() && r.end1_reference.is_none()
        && r.end2_reference.is_none() && r.changes.len() == 0 {
        return None;
    }
    Some(r)
}

fn whole_relationship_change(c: &ERDRelationship, change_type: ChangeType) -> (r: RelationshipChange)
    ensures
        r@ == whole_relationship(*c, change_type),
{
    let mut r = RelationshipChange {
        id: c._id.clone(),
        name: c.end2.reference._ref.clone(),
        change_type,
        end1_cardinality: Some(materialize("end1.cardinality", change_type, c.end1.get_cardinality())),
        end2_cardinality: Some(materialize("end2.cardinality", change_type, c.end2.get_cardinality())),
        end1_reference: Some(materialize("end1.reference", change_type, c.end1.reference._ref.clone())),
        end2_reference: Some(materialize("end2.reference", change_type, c.end2.reference._ref.clone())),
        changes: Vec::new(),
    };
    if let Some(d) = &c.documentation {
        r.changes.push(materialize("documentation", change_type, d.clone()));
    }
    assert(changes_view(r.changes@) =~= whole_relationship(*c, change_type).changes);
    r
}

/// The position in `m` of the relationship with identifier `id`.
fn find_relationship(m: &Vec<&ERDRelationship>, id: &String) -> (r: Option<usize>)
    ensures
        r matches Some(j) ==> j < m@.len() && m@[j as int]._id@ == id@,
        r is None ==> forall|k: int| 0 <= k < m@.len() ==> m@[k]._id@ != id@,
{
    let mut j: usize = 0;
    while j < m.len()
        invariant
            j <= m@.len(),
            forall|k: int| 0 <= k < j ==> m@[k]._id@ != id@,
        decreases m@.len() - j,
    {
        if m[j]._id == *id {
            return Some(j);
        }
        j = j + 1;
    }
    None
}

fn diff_relationships(a: &ERDEntity, b: &ERDEntity) -> (r: Vec<RelationshipChange>)
    ensures
        relationship_changes_view(r@) == relationship_changes(*a, *b),
{
    let a_rels = a.get_relationship_map();
    let b_rels = b.get_relationship_map();
    let ghost ma = relationship_map(*a);
    let ghost mb = relationship_map(*b);
    proof {
        lemma_relationship_map_unique(*a);
        lemma_relationship_map_unique(*b);
    }
    let mut changes: Vec<RelationshipChange> = Vec::new();
    let mut i: usize = 0;
    while i < a_rels.len()
        invariant
            refs_to(a_rels@, ma),
            refs_to(b_rels@, mb),
            unique_ids(relationship_ids(ma)),
            unique_ids(relationship_ids(mb)),
            i <= ma.len(),
            relationship_changes_view(changes@) == matched_or_added_relationships(ma, mb, i as int),
        decreases ma.len() - i,
    {
        let a_rel = a_rels[i];
        assert(*a_rel == ma[i as int]);
        let ghost prev = changes@;
        match find_relationship(&b_rels, &a_rel._id) {
            Some(j) => {
                proof {
                    assert(relationship_ids(mb)[j as int] == a_rel._id@);
                    lemma_position(relationship_ids(mb), j as int);
                }
                if let Some(rc) = diff_relationship(a_rel, b_rels[j]) {
                    changes.push(rc);
                    assert(relationship_changes_view(changes@) =~= relationship_changes_view(prev).push(rc@));
                }
            },
            None => {
                assert forall|k: int| 0 <= k < mb.len() implies relationship_ids(mb)[k] != a_rel._id@ by {
                    assert(*b_rels@[k] == mb[k]);
                }
                assert(!relationship_ids(mb).contains(a_rel._id@));
                let rc = whole_relationship_change(a_rel, ChangeType::Add);
                changes.push(rc);
                assert(relationship_changes_view(changes@) =~= relationship_changes_view(prev).push(rc@));
            },
        }
        i = i + 1;
    }
    let ghost left = changes@;
    let mut j: usize = 0;
    while j < b_rels.len()
        invariant
            refs_to(a_rels@, ma),
            refs_to(b_rels@, mb),
            j <= mb.len(),
            relationship_changes_view(left) == matched_or_added_relationships(ma, mb, ma.len() as int),
            relationship_changes_view(changes@) == relationship_changes_view(left) + removed_relationships(mb, ma, j as int),
        decreases mb.len() - j,
    {
        let b_rel = b_rels[j];
        assert(*b_rel == mb[j as int]);
        let ghost prev = changes@;
        match find_relationship(&a_rels, &b_rel._id) {
            Some(k) => {
                assert(relationship_ids(ma)[k as int] == b_rel._id@);
            },
            None => {
                assert forall|k: int| 0 <= k < ma.len() implies relationship_ids(ma)[k] != b_rel._id@ by {
                    assert(*a_rels@[k] == ma[k]);
                }
                assert(!relationship_ids(ma).contains(b_rel._id@));
                let rc = whole_relationship_change(b_rel, ChangeType::Remove);
                changes.push(rc);
                assert(relationship_changes_view(changes@) =~= relationship_changes_view(prev).push(rc@));
            },
        }
        j = j + 1;
    }
    changes
}

fn diff_entity(a: &ERDEntity, b: &ERDEntity) -> (r: Option<TableChange>)
    ensures
        r matches Some(t) ==> table_diff(*a, *b) == Some(t@),
        r is None ==> table_diff(*a, *b) is None,
{
    let mut tc = TableChange {
        id: a.element._id.clone(),
        name: a.element.name.clone(),
        change_type: ChangeType::Modify,
        changes: Vec::new(),
        columns: Vec::new(),
        relationships: Vec::new(),
    };
    assert(changes_view(tc.changes@) =~= Seq::<ChangeView>::empty());
    record_change(&mut tc.changes, "name", &a.element.name, &b.element.name);
    record_change(&mut tc.changes, "documentation", &a.element.documentation, &b.element.documentation);
    assert(changes_view(tc.changes@) =~= field_change("name"@, a.element.name@, b.element.name@)
        + field_change("documentation"@, opt_text(a.element.documentation), opt_text(b.element.documentation)));
    tc.columns = diff_columns(a, b);
    tc.relationships = diff_relationships(a, b);
    if tc.changes.len() == 0 && tc.columns.len() == 0 && tc.relationships.len() == 0 {
        return None;
    }
    Some(tc)
}

fn whole_table_change(e: &ERDEntity, change_type: ChangeType) -> (r: TableChange)
    ensures
        r@ == whole_table(*e, change_type),
{
    let mut tc = TableChange {
        id: e.element._id.clone(),
        name: e.element.name.clone(),
        change_type,
        changes: Vec::new(),
        columns: Vec::new(),
        relationships: Vec::new(),
    };
    if let Some(d) = &e.element.documentation {
        tc.changes.push(materialize("documentation", change_type, d.clone()));
    }
    assert(changes_view(tc.changes@) =~= opt_materialized("documentation"@, change_type, e.element.documentation));
    let ghost cols = e.columns@.map_values(|c: ERDColumn| whole_column(c, change_type));
    assert(column_changes_view(tc.columns@) =~= cols.take(0));
    let mut i: usize = 0;
    while i < e.columns.len()
        invariant
            i <= e.columns@.len(),
            cols == e.columns@.map_values(|c: ERDColumn| whole_column(c, change_type)),
            column_changes_view(tc.columns@) == cols.take(i as int),
            tc.id@ == e.element._id@,
            tc.name@ == e.element.name@,
            tc.change_type == change_type,
            tc.relationships@.len() == 0,
            changes_view(tc.changes@) == opt_materialized("documentation"@, change_type, e.element.documentation),
        decreases e.columns@.len() - i,
    {
        let ghost prev = tc.columns@;
        let cc = whole_column_change(&e.columns[i], change_type);
        tc.columns.push(cc);
        assert(column_changes_view(tc.columns@) =~= cols.take(i + 1)) by {
            assert(column_changes_view(tc.columns@) =~= column_changes_view(prev).push(cc@));
        }
        i = i + 1;
    }
    assert(cols.take(cols.len() as int) =~= cols);
    let rels = e.owned_relationships();
    let ghost g = entity_relationships(*e);
    let ghost rs = g.map_values(|r: ERDRelationship| whole_relationship(r, change_type));
    assert(relationship_changes_view(tc.relationships@) =~= rs.take(0));
    let mut j: usize = 0;
    while j < rels.len()
        invariant
            refs_to(rels@, g),
            j <= g.len(),
            rs == g.map_values(|r: ERDRelationship| whole_relationship(r, change_type)),
            relationship_changes_view(tc.relationships@) == rs.take(j as int),
            column_changes_view(tc.columns@) == e.columns@.map_values(|c: ERDColumn| whole_column(c, change_type)),
            tc.id@ == e.element._id@,
            tc.name@ == e.element.name@,
            tc.change_type == change_type,
            changes_view(tc.changes@) == opt_materialized("documentation"@, change_type, e.element.documentation),
        decreases g.len() - j,
    {
        let ghost prev = tc.relationships@;
        assert(*rels@[j as int] == g[j as int]);
        let rc = whole_relationship_change(rels[j], change_type);
        tc.relationships.push(rc);
        assert(relationship_changes_view(tc.relationships@) =~= rs.take(j + 1)) by {
            assert(relationship_changes_view(tc.relationships@) =~= relationship_changes_view(prev).push(rc@));
        }
        j = j + 1;
    }
    assert(rs.take(rs.len() as int) =~= rs);
    tc
}

/// Diffs document `project_a` (the working version) against `project_b` (the baseline),
/// each given as its entities keyed by identifier.
///
/// An entity found in both is compared field by field, with its columns and relationships;
/// it is reported only when something differs. An entity only in `project_a` is reported as
/// added, one only in `project_b` as removed, each with all of its populated fields. The
/// report is sorted by entity name, ascending and case-sensitive.
pub fn diff_tables(project_a: Vec<ERDEntity>, project_b: Vec<ERDEntity>) -> (r: Vec<TableChange>)
    requires
        unique_ids(entity_ids(project_a@)),
        unique_ids(entity_ids(project_b@)),
    ensures
        table_changes_view(r@) == sort_by_name(table_changes(project_a@, project_b@)),
        sorted_by_name(table_changes_view(r@)),
{
    let ghost a = project_a@;
    let ghost b = project_b@;
    let mut found: Vec<TableChange> = Vec::new();
    let mut i: usize = 0;
    while i < project_a.len()
        invariant
            a == project_a@,
            b == project_b@,
            unique_ids(entity_ids(b)),
            i <= a.len(),
            table_changes_view(found@) == matched_or_added_tables(a, b, i as int),
        decreases a.len() - i,
    {
        let ghost prev = found@;
        match find_entity(&project_b, &project_a[i].element._id) {
            Some(j) => {
                proof {
                    lemma_position(entity_ids(b), j as int);
                }
                if let Some(tc) = diff_entity(&project_a[i], &project_b[j]) {
                    found.push(tc);
                    assert(table_changes_view(found@) =~= table_changes_view(prev).push(tc@));
                }
            },
            None => {
                let tc = whole_table_change(&project_a[i], ChangeType::Add);
                found.push(tc);
                assert(table_changes_view(found@) =~= table_changes_view(prev).push(tc@));
            },
        }
        i = i + 1;
    }
    let ghost left = found@;
    let mut j: usize = 0;
    while j < project_b.len()
        invariant
            a == project_a@,
            b == project_b@,
            j <= b.len(),
            table_changes_view(left) == matched_or_added_tables(a, b, a.len() as int),
            table_changes_view(found@) == table_changes_view(left) + removed_tables(b, a, j as int),
        decreases b.len() - j,
    {
        let ghost prev = found@;
        if find_entity(&project_a, &project_b[j].element._id).is_none() {
            let tc = whole_table_change(&project_b[j], ChangeType::Remove);
            found.push(tc);
            assert(table_changes_view(found@) =~= table_changes_view(prev).push(tc@));
        }
        j = j + 1;
    }
    let r = sort_table_changes(found);
    proof {
        lemma_sort_by_name(table_changes(a, b));
    }
    r
}

} // verus!
