use mdj_diff::diff::{diff_tables, ChangeType, TableChange};
use mdj_diff::types::{
    entity_ids_unique,
    ColumnLength, ERDColumn, ERDDataModel, ERDDiagram, ERDEntity, ERDRelationship,
    ERDRelationshipEnd, Element, Node, Project, Ref, Tag,
};

fn r(s: &str) -> Ref {
    Ref { _ref: s.to_string() }
}

fn element(id: &str, name: &str, doc: Option<&str>) -> Element {
    Element {
        _id: id.to_string(),
        _parent: r("p"),
        name: name.to_string(),
        documentation: doc.map(|d| d.to_string()),
        tags: Vec::new(),
        owned_elements: None,
    }
}

fn column(id: &str, name: &str, ty: &str) -> ERDColumn {
    ERDColumn {
        element: element(id, name, None),
        column_type: ty.to_string(),
        reference_to: None,
        primary_key: None,
        foreign_key: None,
        nullable: None,
        unique: None,
        length: None,
    }
}

fn entity(id: &str, name: &str, columns: Vec<ERDColumn>) -> ERDEntity {
    ERDEntity { element: element(id, name, None), columns }
}

fn end(reference: &str, cardinality: &str) -> ERDRelationshipEnd {
    ERDRelationshipEnd {
        _id: format!("{}-end", reference),
        _parent: r("rel"),
        reference: r(reference),
        cardinality: cardinality.to_string(),
    }
}

fn relationship(id: &str, card1: &str, card2: &str) -> ERDRelationship {
    ERDRelationship {
        _id: id.to_string(),
        _parent: r("e1"),
        name: None,
        tags: Vec::new(),
        documentation: None,
        end1: end("e1", card1),
        end2: end("e2", card2),
    }
}

fn with_relationships(mut e: ERDEntity, rels: Vec<ERDRelationship>) -> ERDEntity {
    e.element.owned_elements = Some(rels.into_iter().map(Node::ERDRelationship).collect());
    e
}

fn names(out: &[TableChange]) -> Vec<String> {
    out.iter().map(|t| t.name.clone()).collect()
}

#[test]
fn entity_only_in_working_copy_is_added() {
    let out = diff_tables(vec![entity("e1", "User", vec![])], vec![]);
    assert_eq!(out.len(), 1);
    assert_eq!(out[0].id, "e1");
    assert_eq!(out[0].change_type, ChangeType::Add);
    assert!(out[0].changes.is_empty());
    assert!(out[0].columns.is_empty());
    assert!(out[0].relationships.is_empty());
}

#[test]
fn documentation_set_in_working_copy_is_modified() {
    let mut a = entity("e1", "User", vec![]);
    a.element.documentation = Some("v2".to_string());
    let b = entity("e1", "User", vec![]);
    let out = diff_tables(vec![a], vec![b]);
    assert_eq!(out.len(), 1);
    assert_eq!(out[0].change_type, ChangeType::Modify);
    assert_eq!(out[0].changes.len(), 1);
    let c = &out[0].changes[0];
    assert_eq!(c.name, "documentation");
    assert_eq!(c.change_type, ChangeType::Modify);
    assert_eq!(c.value, "v2");
    assert_eq!(c.old, "");
}

#[test]
fn added_primary_key_column_reports_flag() {
    let mut c1 = column("c1", "id", "INTEGER");
    c1.primary_key = Some(true);
    let a = entity("e1", "User", vec![c1]);
    let b = entity("e1", "User", vec![]);
    let out = diff_tables(vec![a], vec![b]);
    assert_eq!(out.len(), 1);
    assert_eq!(out[0].columns.len(), 1);
    let cc = &out[0].columns[0];
    assert_eq!(cc.id, "c1");
    assert_eq!(cc.change_type, ChangeType::Add);
    let pk = cc.changes.iter().find(|c| c.name == "primaryKey").expect("primaryKey change");
    assert_eq!(pk.value, "true");
    assert_eq!(pk.old, "");
}

#[test]
fn end1_cardinality_change_fills_only_its_slot() {
    let a = with_relationships(entity("e1", "User", vec![]), vec![relationship("r1", "many", "1")]);
    let b = with_relationships(entity("e1", "User", vec![]), vec![relationship("r1", "1", "1")]);
    let out = diff_tables(vec![a], vec![b]);
    assert_eq!(out.len(), 1);
    assert_eq!(out[0].relationships.len(), 1);
    let rc = &out[0].relationships[0];
    assert_eq!(rc.change_type, ChangeType::Modify);
    let c = rc.end1_cardinality.as_ref().expect("end1 cardinality");
    assert_eq!(c.name, "end1.cardinality");
    assert_eq!(c.value, "many");
    assert_eq!(c.old, "1");
    assert!(rc.end2_cardinality.is_none());
    assert!(rc.end1_reference.is_none());
    assert!(rc.end2_reference.is_none());
    assert!(rc.changes.is_empty());
    assert_eq!(rc.name, "e2");
}

#[test]
fn output_is_sorted_by_name() {
    let mut z = entity("z", "Zeta", vec![]);
    z.element.documentation = Some("new".to_string());
    let mut al = entity("a", "Alpha", vec![]);
    al.element.documentation = Some("new".to_string());
    let out = diff_tables(
        vec![z, al],
        vec![entity("z", "Zeta", vec![]), entity("a", "Alpha", vec![])],
    );
    assert_eq!(names(&out), vec!["Alpha".to_string(), "Zeta".to_string()]);
}

#[test]
fn sort_is_case_sensitive() {
    let out = diff_tables(
        vec![entity("1", "alpha", vec![]), entity("2", "Beta", vec![]), entity("3", "Alp", vec![])],
        vec![],
    );
    assert_eq!(names(&out), vec!["Alp".to_string(), "Beta".to_string(), "alpha".to_string()]);
}

#[test]
fn identical_documents_report_nothing() {
    let make = || {
        let mut c = column("c1", "id", "INTEGER");
        c.primary_key = Some(true);
        c.length = Some(ColumnLength::Num(11));
        vec![
            with_relationships(entity("e1", "User", vec![c]), vec![relationship("r1", "", "many")]),
            entity("e2", "Order", vec![column("c2", "total", "DECIMAL")]),
        ]
    };
    assert!(diff_tables(make(), make()).is_empty());
}

#[test]
fn swapping_documents_swaps_add_and_remove() {
    let a = vec![entity("e1", "User", vec![]), entity("e2", "Order", vec![])];
    let mut renamed = entity("e2", "Orders", vec![]);
    renamed.element.documentation = Some("d".to_string());
    let b = vec![renamed];
    let ab = diff_tables(a, b);
    let a2 = vec![entity("e1", "User", vec![]), entity("e2", "Order", vec![])];
    let mut renamed2 = entity("e2", "Orders", vec![]);
    renamed2.element.documentation = Some("d".to_string());
    let ba = diff_tables(vec![renamed2], a2);
    let user_ab = ab.iter().find(|t| t.id == "e1").unwrap();
    let user_ba = ba.iter().find(|t| t.id == "e1").unwrap();
    assert_eq!(user_ab.change_type, ChangeType::Add);
    assert_eq!(user_ba.change_type, ChangeType::Remove);
    let order_ab = ab.iter().find(|t| t.id == "e2").unwrap();
    let order_ba = ba.iter().find(|t| t.id == "e2").unwrap();
    assert_eq!(order_ab.change_type, ChangeType::Modify);
    assert_eq!(order_ba.change_type, ChangeType::Modify);
    assert_eq!(order_ab.changes.len(), order_ba.changes.len());
    for (x, y) in order_ab.changes.iter().zip(order_ba.changes.iter()) {
        assert_eq!(x.name, y.name);
        assert_eq!(x.value, y.old);
        assert_eq!(x.old, y.value);
    }
}

#[test]
fn unchanged_columns_and_relationships_are_not_reported() {
    let mut a = entity("e1", "User", vec![column("c1", "id", "INT"), column("c2", "name", "TEXT")]);
    a.element.name = "Users".to_string();
    let b = entity("e1", "User", vec![column("c1", "id", "INT"), column("c2", "name", "TEXT")]);
    let out = diff_tables(vec![a], vec![b]);
    assert_eq!(out.len(), 1);
    assert!(out[0].columns.is_empty());
    assert!(out[0].relationships.is_empty());
    assert_eq!(out[0].changes.len(), 1);
    assert_eq!(out[0].changes[0].name, "name");
    assert_eq!(out[0].changes[0].value, "Users");
    assert_eq!(out[0].changes[0].old, "User");
}

#[test]
fn added_entity_reports_true_flags_only() {
    let mut c = column("c1", "id", "INTEGER");
    c.primary_key = Some(true);
    c.foreign_key = Some(false);
    c.nullable = Some(true);
    c.element.documentation = Some("key".to_string());
    c.length = Some(ColumnLength::Str("max".to_string()));
    let mut e = entity("e1", "User", vec![c]);
    e.element.documentation = Some("users".to_string());
    let out = diff_tables(vec![e], vec![]);
    let t = &out[0];
    assert_eq!(t.change_type, ChangeType::Add);
    assert_eq!(t.changes.len(), 1);
    assert_eq!(t.changes[0].value, "users");
    assert_eq!(t.changes[0].old, "");
    let cc = &t.columns[0];
    let got: Vec<(&str, &str, &str)> =
        cc.changes.iter().map(|c| (c.name.as_str(), c.value.as_str(), c.old.as_str())).collect();
    assert_eq!(
        got,
        vec![
            ("type", "INTEGER", ""),
            ("documentation", "key", ""),
            ("length", "max", ""),
            ("primaryKey", "true", ""),
        ]
    );
    assert!(cc.changes.iter().all(|c| c.change_type == ChangeType::Add));
}

#[test]
fn removed_entity_carries_values_as_old() {
    let mut c = column("c1", "id", "INTEGER");
    c.foreign_key = Some(true);
    let e = with_relationships(entity("e9", "Gone", vec![c]), vec![relationship("r1", "", "many")]);
    let out = diff_tables(vec![], vec![e]);
    assert_eq!(out.len(), 1);
    let t = &out[0];
    assert_eq!(t.change_type, ChangeType::Remove);
    let cc = &t.columns[0];
    assert_eq!(cc.change_type, ChangeType::Remove);
    assert_eq!(cc.changes[0].name, "type");
    assert_eq!(cc.changes[0].value, "");
    assert_eq!(cc.changes[0].old, "INTEGER");
    assert_eq!(cc.changes[1].name, "foreignKey");
    assert_eq!(cc.changes[1].old, "true");
    let rc = &t.relationships[0];
    assert_eq!(rc.change_type, ChangeType::Remove);
    let e1 = rc.end1_cardinality.as_ref().unwrap();
    assert_eq!(e1.value, "");
    assert_eq!(e1.old, "1");
    assert_eq!(rc.end2_cardinality.as_ref().unwrap().old, "many");
    assert_eq!(rc.end2_reference.as_ref().unwrap().old, "e2");
}

#[test]
fn column_field_changes_use_text_forms() {
    let mut ca = column("c1", "id", "INT");
    ca.nullable = Some(false);
    ca.length = Some(ColumnLength::Num(255));
    ca.unique = Some(true);
    let mut cb = column("c1", "id", "BIGINT");
    cb.length = Some(ColumnLength::Str("255".to_string()));
    cb.unique = Some(true);
    let out = diff_tables(vec![entity("e1", "T", vec![ca])], vec![entity("e1", "T", vec![cb])]);
    let cc = &out[0].columns[0];
    assert_eq!(cc.change_type, ChangeType::Modify);
    let got: Vec<(&str, &str, &str)> =
        cc.changes.iter().map(|c| (c.name.as_str(), c.value.as_str(), c.old.as_str())).collect();
    assert_eq!(got, vec![("type", "INT", "BIGINT"), ("nullable", "false", "")]);
}

#[test]
fn absent_and_empty_documentation_read_the_same() {
    let mut a = entity("e1", "User", vec![]);
    a.element.documentation = Some(String::new());
    let out = diff_tables(vec![a], vec![entity("e1", "User", vec![])]);
    assert!(out.is_empty());
}

#[test]
fn relationship_added_and_removed() {
    let a = with_relationships(entity("e1", "User", vec![]), vec![relationship("r1", "1", "many")]);
    let b = with_relationships(entity("e1", "User", vec![]), vec![relationship("r2", "", "1")]);
    let out = diff_tables(vec![a], vec![b]);
    let rels = &out[0].relationships;
    assert_eq!(rels.len(), 2);
    assert_eq!(rels[0].id, "r1");
    assert_eq!(rels[0].change_type, ChangeType::Add);
    assert_eq!(rels[0].end2_cardinality.as_ref().unwrap().value, "many");
    assert_eq!(rels[1].id, "r2");
    assert_eq!(rels[1].change_type, ChangeType::Remove);
    assert_eq!(rels[1].end1_cardinality.as_ref().unwrap().old, "1");
}

#[test]
fn column_length_text() {
    assert_eq!(ColumnLength::Num(255).to_string(), "255");
    assert_eq!(ColumnLength::Num(0).to_string(), "0");
    assert_eq!(ColumnLength::Num(4294967295).to_string(), "4294967295");
    assert_eq!(ColumnLength::Str("max".to_string()).to_string(), "max");
}

#[test]
fn empty_cardinality_reads_as_one() {
    assert_eq!(end("e1", "").get_cardinality(), "1");
    assert_eq!(end("e1", "0..*").get_cardinality(), "0..*");
}

fn model(id: &str, owned: Option<Vec<Node>>) -> Node {
    let mut el = element(id, "Model", None);
    el.owned_elements = owned;
    Node::ERDDataModel(ERDDataModel { element: el })
}

#[test]
fn entity_map_keeps_last_entity_of_each_id() {
    let project = Project {
        _type: "Project".to_string(),
        _id: "p".to_string(),
        name: "P".to_string(),
        owned_elements: vec![
            model("m1", Some(vec![
                Node::ERDEntity(entity("e1", "First", vec![])),
                Node::ERDDiagram(ERDDiagram { default_diagram: true, element: element("d", "D", None) }),
                Node::ERDEntity(entity("e2", "Other", vec![])),
            ])),
            model("m2", None),
            model("m3", Some(vec![Node::ERDEntity(entity("e1", "Second", vec![]))])),
        ],
    };
    let m = project.get_entity_map();
    let got: Vec<(String, String)> =
        m.iter().map(|e| (e.element._id.clone(), e.element.name.clone())).collect();
    assert_eq!(
        got,
        vec![("e2".to_string(), "Other".to_string()), ("e1".to_string(), "Second".to_string())]
    );
}

#[test]
fn column_map_keeps_last_column_of_each_id() {
    let e = entity("e1", "T", vec![column("c1", "a", "INT"), column("c2", "b", "INT"), column("c1", "c", "TEXT")]);
    let m = e.get_column_map();
    let got: Vec<&str> = m.iter().map(|c| c.element.name.as_str()).collect();
    assert_eq!(got, vec!["b", "c"]);
}

#[test]
fn relationship_map_skips_other_nodes() {
    let mut e = entity("e1", "T", vec![]);
    e.element.owned_elements = Some(vec![
        Node::ERDRelationship(relationship("r1", "1", "1")),
        Node::ERDDiagram(ERDDiagram { default_diagram: false, element: element("d", "D", None) }),
        Node::ERDRelationship(relationship("r1", "many", "1")),
        Node::ERDRelationship(relationship("r2", "1", "1")),
    ]);
    let m = e.get_relationship_map();
    let got: Vec<(&str, &str)> = m.iter().map(|r| (r._id.as_str(), r.end1.cardinality.as_str())).collect();
    assert_eq!(got, vec![("r1", "many"), ("r2", "1")]);
}

#[test]
fn tag_map_keeps_last_tag_of_each_name() {
    let tag = |name: &str, value: &str| Tag {
        kind: "string".to_string(),
        value: Some(value.to_string()),
        element: element("t", name, None),
    };
    let mut e = entity("e1", "T", vec![]);
    e.element.tags = vec![tag("owner", "a"), tag("team", "x"), tag("owner", "b")];
    let node = Node::ERDEntity(e);
    let m = node.get_tag_map();
    let got: Vec<(&str, &str)> =
        m.iter().map(|t| (t.element.name.as_str(), t.value.as_deref().unwrap())).collect();
    assert_eq!(got, vec![("team", "x"), ("owner", "b")]);
}

#[test]
fn duplicate_entity_ids_are_detected() {
    assert!(entity_ids_unique(&vec![entity("e1", "A", vec![]), entity("e2", "B", vec![])]));
    assert!(!entity_ids_unique(&vec![entity("e1", "A", vec![]), entity("e1", "B", vec![])]));
    assert!(entity_ids_unique(&vec![]));
}
