//! The typed document model: a project tree of data models, entities, columns and
//! relationships, and the identity-keyed views of it that the differ works on.
use vstd::prelude::*;
use crate::text::decimal_string;

verus! {

/// A pointer to another element of the document, by identifier.
#[derive(Debug)]
pub struct Ref {
    pub _ref: String,
}

/// A key/value annotation attached to an element.
#[derive(Debug)]
pub struct Tag {
    pub kind: String,
    pub value: Option<String>,
    pub element: Element,
}

/// The attributes shared by the elements of the document.
#[derive(Debug)]
pub struct Element {
    pub _id: String,
    pub _parent: Ref,
    pub name: String,
    pub documentation: Option<String>,
    pub tags: Vec<Tag>,
    pub owned_elements: Option<Vec<Node>>,
}

/// A node of the document tree.
#[derive(Debug)]
pub enum Node {
    ERDDataModel(ERDDataModel),
    ERDDiagram(ERDDiagram),
    ERDEntity(ERDEntity),
    ERDRelationship(ERDRelationship),
}

/// A data model: owns the entities of the document.
#[derive(Debug)]
pub struct ERDDataModel {
    pub element: Element,
}

/// A diagram; the differ does not look at diagrams.
#[derive(Debug)]
pub struct ERDDiagram {
    pub default_diagram: bool,
    pub element: Element,
}

/// A table: its columns, and its relationships among `element.owned_elements`.
#[derive(Debug)]
pub struct ERDEntity {
    pub element: Element,
    pub columns: Vec<ERDColumn>,
}

/// A column of a table.
#[derive(Debug)]
pub struct ERDColumn {
    pub element: Element,
    pub column_type: String,
    pub reference_to: Option<Ref>,
    pub primary_key: Option<bool>,
    pub foreign_key: Option<bool>,
    pub nullable: Option<bool>,
    pub unique: Option<bool>,
    pub length: Option<ColumnLength>,
}

/// The length of a column, given as text ("max") or as a number.
#[derive(Debug)]
pub enum ColumnLength {
    Str(String),
    Num(u32),
}

/// An association between two entities.
#[derive(Debug)]
pub struct ERDRelationship {
    pub _id: String,
    pub _parent: Ref,
    pub name: Option<String>,
    pub tags: Vec<Tag>,
    pub documentation: Option<String>,
    pub end1: ERDRelationshipEnd,
    pub end2: ERDRelationshipEnd,
}

/// One end of a relationship: the entity it refers to and its cardinality.
#[derive(Debug)]
pub struct ERDRelationshipEnd {
    pub _id: String,
    pub _parent: Ref,
    pub reference: Ref,
    pub cardinality: String,
}

/// A whole document.
#[derive(Debug)]
pub struct Project {
    pub _type: String,
    pub _id: String,
    pub name: String,
    pub owned_elements: Vec<Node>,
}

/// The text of a column length.
pub open spec fn length_text(l: ColumnLength) -> Seq<char> {
    match l {
        ColumnLength::Str(s) => s@,
        ColumnLength::Num(n) => crate::text::decimal(n as nat),
    }
}

impl ColumnLength {
    /// The length as text: the text itself, or the number in decimal.
    pub fn to_string(&self) -> (r: String)
        ensures
            r@ == length_text(*self),
    {
        match self {
            ColumnLength::Str(s) => s.clone(),
            ColumnLength::Num(n) => decimal_string(*n),
        }
    }
}

/// The cardinality of a relationship end; an empty cardinality stands for "1".
pub open spec fn cardinality_text(e: ERDRelationshipEnd) -> Seq<char> {
    if e.cardinality@.len() == 0 {
        "1"@
    } else {
        e.cardinality@
    }
}

impl ERDRelationshipEnd {
    /// The cardinality, with the empty one read as "1".
    pub fn get_cardinality(&self) -> (r: String)
        ensures
            r@ == cardinality_text(*self),
    {
        if self.cardinality.as_str().unicode_len() == 0 {
            return String::from_str("1");
        }
        self.cardinality.clone()
    }
}

// ---------------------------------------------------------------------------
// Identity-keyed collections
// ---------------------------------------------------------------------------

/// No identifier occurs twice.
pub open spec fn unique_ids(ids: Seq<Seq<char>>) -> bool {
    forall|i: int, j: int| 0 <= i < ids.len() && 0 <= j < ids.len() && i != j ==> ids[i] != ids[j]
}

/// The element at `i` is the last one with its identifier.
pub open spec fn is_latest(ids: Seq<Seq<char>>, i: int) -> bool {
    forall|j: int| i < j < ids.len() ==> ids[j] != ids[i]
}

/// The elements among the first `n` of `s` that no later element of `s` overrides:
/// a later element with the same identifier replaces an earlier one.
pub open spec fn latest<T>(s: Seq<T>, ids: Seq<Seq<char>>, n: int) -> Seq<T>
    decreases n,
{
    if n <= 0 {
        Seq::empty()
    } else if is_latest(ids, n - 1) {
        latest(s, ids, n - 1).push(s[n - 1])
    } else {
        latest(s, ids, n - 1)
    }
}

/// The position of `id` in `ids`, where it occurs.
pub open spec fn position(ids: Seq<Seq<char>>, id: Seq<char>) -> int {
    choose|k: int| 0 <= k < ids.len() && ids[k] == id
}

pub open spec fn entity_ids(s: Seq<ERDEntity>) -> Seq<Seq<char>> {
    s.map_values(|e: ERDEntity| e.element._id@)
}

pub open spec fn column_ids(s: Seq<ERDColumn>) -> Seq<Seq<char>> {
    s.map_values(|c: ERDColumn| c.element._id@)
}

pub open spec fn relationship_ids(s: Seq<ERDRelationship>) -> Seq<Seq<char>> {
    s.map_values(|r: ERDRelationship| r._id@)
}

/// The entities that a data model owns, in document order.
pub open spec fn model_entities(nodes: Seq<Node>) -> Seq<ERDEntity>
    decreases nodes.len(),
{
    if nodes.len() == 0 {
        Seq::empty()
    } else {
        let rest = model_entities(nodes.drop_first());
        match nodes[0] {
            Node::ERDEntity(e) => seq![e] + rest,
            _ => rest,
        }
    }
}

/// The entities of all data models of a project, in document order.
pub open spec fn project_entities(nodes: Seq<Node>) -> Seq<ERDEntity>
    decreases nodes.len(),
{
    if nodes.len() == 0 {
        Seq::empty()
    } else {
        let rest = project_entities(nodes.drop_first());
        match nodes[0] {
            Node::ERDDataModel(m) => match m.element.owned_elements {
                Some(v) => model_entities(v@) + rest,
                None => rest,
            },
            _ => rest,
        }
    }
}

/// The relationships among a list of nodes, in document order.
pub open spec fn node_relationships(nodes: Seq<Node>) -> Seq<ERDRelationship>
    decreases nodes.len(),
{
    if nodes.len() == 0 {
        Seq::empty()
    } else {
        let rest = node_relationships(nodes.drop_first());
        match nodes[0] {
            Node::ERDRelationship(r) => seq![r] + rest,
            _ => rest,
        }
    }
}

/// Every relationship that an entity owns.
pub open spec fn entity_relationships(e: ERDEntity) -> Seq<ERDRelationship> {
    match e.element.owned_elements {
        Some(v) => node_relationships(v@),
        None => Seq::empty(),
    }
}

/// The entities of a project keyed by identifier: the last of each identifier wins.
pub open spec fn entity_map(p: Project) -> Seq<ERDEntity> {
    let s = project_entities(p.owned_elements@);
    latest(s, entity_ids(s), s.len() as int)
}

/// The columns of an entity keyed by identifier: the last of each identifier wins.
pub open spec fn column_map(e: ERDEntity) -> Seq<ERDColumn> {
    latest(e.columns@, column_ids(e.columns@), e.columns@.len() as int)
}

/// The relationships of an entity keyed by identifier: the last of each identifier wins.
pub open spec fn relationship_map(e: ERDEntity) -> Seq<ERDRelationship> {
    let s = entity_relationships(e);
    latest(s, relationship_ids(s), s.len() as int)
}

/// `x` is one of the first `n` elements of `s` that no later element overrides.
pub open spec fn kept_from<T>(s: Seq<T>, ids: Seq<Seq<char>>, n: int, x: T) -> bool {
    exists|i: int| 0 <= i < n && is_latest(ids, i) && x == #[trigger] s[i]
}

/// What `latest` keeps has no identifier twice.
pub proof fn lemma_latest_unique<T>(s: Seq<T>, ids: Seq<Seq<char>>, f: spec_fn(T) -> Seq<char>, n: int)
    requires
        0 <= n <= s.len(),
        ids.len() == s.len(),
        forall|i: int| 0 <= i < s.len() ==> ids[i] == #[trigger] f(s[i]),
    ensures
        unique_ids(latest(s, ids, n).map_values(f)),
        forall|k: int| 0 <= k < latest(s, ids, n).len()
            ==> kept_from(s, ids, n, #[trigger] latest(s, ids, n)[k]),
    decreases n,
{
    if n > 0 {
        lemma_latest_unique(s, ids, f, n - 1);
        let p = latest(s, ids, n - 1);
        if is_latest(ids, n - 1) {
            let q = p.push(s[n - 1]);
            assert(latest(s, ids, n) == q);
            assert forall|k: int| 0 <= k < q.len() implies kept_from(s, ids, n, #[trigger] q[k]) by {
                if k == p.len() {
                    assert(q[k] == s[n - 1]);
                } else {
                    assert(q[k] == p[k]);
                    assert(kept_from(s, ids, n - 1, p[k]));
                }
            }
            assert forall|i: int, j: int| 0 <= i < q.len() && 0 <= j < q.len() && i != j
                implies q.map_values(f)[i] != q.map_values(f)[j] by {
                if i < p.len() && j < p.len() {
                    assert(p.map_values(f)[i] != p.map_values(f)[j]);
                } else if i < p.len() {
                    assert(kept_from(s, ids, n - 1, p[i]));
                    let ii = choose|x: int| 0 <= x < n - 1 && is_latest(ids, x) && p[i] == #[trigger] s[x];
                    assert(ids[n - 1] != ids[ii]);
                } else if j < p.len() {
                    assert(kept_from(s, ids, n - 1, p[j]));
                    let jj = choose|x: int| 0 <= x < n - 1 && is_latest(ids, x) && p[j] == #[trigger] s[x];
                    assert(ids[n - 1] != ids[jj]);
                }
            }
        } else {
            assert(latest(s, ids, n) == p);
            assert forall|k: int| 0 <= k < p.len() implies kept_from(s, ids, n, #[trigger] p[k]) by {
                assert(kept_from(s, ids, n - 1, p[k]));
                let ii = choose|x: int| 0 <= x < n - 1 && is_latest(ids, x) && p[k] == #[trigger] s[x];
                assert(0 <= ii < n);
            }
        }
    }
}

/// A list of references that point, in order, at the values of `s`.
pub open spec fn refs_to<T>(r: Seq<&T>, s: Seq<T>) -> bool {
    r.len() == s.len() && forall|k: int| 0 <= k < r.len() ==> *#[trigger] r[k] == s[k]
}

/// Whether the column at `i` is the last one with its identifier.
fn column_is_latest(cols: &Vec<ERDColumn>, i: usize) -> (r: bool)
    requires
        i < cols@.len(),
    ensures
        r == is_latest(column_ids(cols@), i as int),
{
    let ghost ids = column_ids(cols@);
    let n = cols.len();
    let mut j: usize = i + 1;
    while j < n
        invariant
            n == cols@.len(),
            i < j <= n,
            ids == column_ids(cols@),
            forall|t: int| i < t < j ==> ids[t] != ids[i as int],
        decreases n - j,
    {
        if cols[j].element._id == cols[i].element._id {
            assert(ids[j as int] == ids[i as int]);
            return false;
        }
        j = j + 1;
    }
    true
}

/// Whether the relationship at `i` is the last one with its identifier.
fn relationship_is_latest(rels: &Vec<&ERDRelationship>, i: usize, Ghost(g): Ghost<Seq<ERDRelationship>>) -> (r: bool)
    requires
        i < rels@.len(),
        refs_to(rels@, g),
    ensures
        r == is_latest(relationship_ids(g), i as int),
{
    let ghost ids = relationship_ids(g);
    let n = rels.len();
    let mut j: usize = i + 1;
    while j < n
        invariant
            n == rels@.len(),
            refs_to(rels@, g),
            i < j <= n,
            ids == relationship_ids(g),
            forall|t: int| i < t < j ==> ids[t] != ids[i as int],
        decreases n - j,
    {
        assert(*rels@[j as int] == g[j as int]);
        assert(*rels@[i as int] == g[i as int]);
        if rels[j]._id == rels[i]._id {
            assert(ids[j as int] == ids[i as int]);
            return false;
        }
        j = j + 1;
    }
    true
}

impl ERDEntity {
    /// Every relationship that the entity owns, in document order.
    pub(crate) fn owned_relationships(&self) -> (r: Vec<&ERDRelationship>)
        ensures
            refs_to(r@, entity_relationships(*self)),
    {
        let mut all: Vec<&ERDRelationship> = Vec::new();
        let ghost mut g: Seq<ERDRelationship> = Seq::empty();
        if let Some(oe) = &self.element.owned_elements {
            let n = oe.len();
            let mut i: usize = 0;
            assert(oe@.skip(0) =~= oe@);
            while i < n
                invariant
                    n == oe@.len(),
                    i <= n,
                    refs_to(all@, g),
                    g + node_relationships(oe@.skip(i as int)) == node_relationships(oe@),
                decreases n - i,
            {
                assert(oe@.skip(i as int).drop_first() =~= oe@.skip(i + 1));
                if let Node::ERDRelationship(r) = &oe[i] {
                    all.push(r);
                    proof {
                        assert(g.push(*r) + node_relationships(oe@.skip(i + 1)) =~= g + node_relationships(oe@.skip(i as int)));
                        g = g.push(*r);
                    }
                }
                i = i + 1;
            }
            assert(g =~= node_relationships(oe@));
        }
        all
    }

    /// The columns keyed by identifier (a later column replaces an earlier one with the
    /// same identifier), in document order.
    pub fn get_column_map(&self) -> (r: Vec<&ERDColumn>)
        ensures
            refs_to(r@, column_map(*self)),
    {
        let ghost s = self.columns@;
        let ghost ids = column_ids(s);
        let mut out: Vec<&ERDColumn> = Vec::new();
        let n = self.columns.len();
        let mut i: usize = 0;
        while i < n
            invariant
                n == s.len(),
                s == self.columns@,
                ids == column_ids(s),
                i <= n,
                refs_to(out@, latest(s, ids, i as int)),
            decreases n - i,
        {
            if column_is_latest(&self.columns, i) {
                out.push(&self.columns[i]);
            }
            i = i + 1;
        }
        out
    }

    /// The relationships that the entity owns, keyed by identifier (a later one replaces an
    /// earlier one with the same identifier), in document order.
    pub fn get_relationship_map(&self) -> (r: Vec<&ERDRelationship>)
        ensures
            refs_to(r@, relationship_map(*self)),
    {
        let all = self.owned_relationships();
        let ghost g = entity_relationships(*self);
        let ghost ids = relationship_ids(g);
        let mut out: Vec<&ERDRelationship> = Vec::new();
        let n = all.len();
        let mut i: usize = 0;
        while i < n
            invariant
                n == g.len(),
                refs_to(all@, g),
                ids == relationship_ids(g),
                i <= n,
                refs_to(out@, latest(g, ids, i as int)),
            decreases n - i,
        {
            if relationship_is_latest(&all, i, Ghost(g)) {
                out.push(all[i]);
            }
            i = i + 1;
        }
        out
    }
}

/// The position in `m` of the entity with identifier `id`.
pub(crate) fn find_entity(m: &Vec<ERDEntity>, id: &String) -> (r: Option<usize>)
    ensures
        r matches Some(j) ==> j < m@.len() && entity_ids(m@)[j as int] == id@,
        r is None ==> !entity_ids(m@).contains(id@),
{
    let mut j: usize = 0;
    while j < m.len()
        invariant
            j <= m@.len(),
            forall|k: int| 0 <= k < j ==> entity_ids(m@)[k] != id@,
        decreases m@.len() - j,
    {
        if m[j].element._id == *id {
            return Some(j);
        }
        j = j + 1;
    }
    None
}

/// The tags of an element keyed by name: the last of each name wins.
pub open spec fn tag_map(tags: Seq<Tag>) -> Seq<Tag> {
    latest(tags, tag_names(tags), tags.len() as int)
}

pub open spec fn tag_names(s: Seq<Tag>) -> Seq<Seq<char>> {
    s.map_values(|t: Tag| t.element.name@)
}

/// The tags that a node carries.
pub open spec fn node_tags(n: Node) -> Seq<Tag> {
    match n {
        Node::ERDDataModel(e) => e.element.tags@,
        Node::ERDDiagram(e) => e.element.tags@,
        Node::ERDEntity(e) => e.element.tags@,
        Node::ERDRelationship(e) => e.tags@,
    }
}

impl Node {
    /// The node's tags keyed by name (a later tag replaces an earlier one of the same
    /// name), in document order.
    pub fn get_tag_map(&self) -> (r: Vec<&Tag>)
        ensures
            refs_to(r@, tag_map(node_tags(*self))),
    {
        let tags = match self {
            Node::ERDDataModel(e) => &e.element.tags,
            Node::ERDDiagram(e) => &e.element.tags,
            Node::ERDEntity(e) => &e.element.tags,
            Node::ERDRelationship(e) => &e.tags,
        };
        let ghost s = tags@;
        let ghost ids = tag_names(s);
        let n = tags.len();
        let mut out: Vec<&Tag> = Vec::new();
        let mut i: usize = 0;
        while i < n
            invariant
                n == s.len(),
                s == tags@,
                ids == tag_names(s),
                i <= n,
                refs_to(out@, latest(s, ids, i as int)),
            decreases n - i,
        {
            let mut keep = true;
            let mut j: usize = i + 1;
            while j < n
                invariant
                    n == s.len(),
                    s == tags@,
                    ids == tag_names(s),
                    i < j <= n,
                    keep == (forall|t: int| i < t < j ==> ids[t] != ids[i as int]),
                decreases n - j,
            {
                if tags[j].element.name == tags[i].element.name {
                    assert(ids[j as int] == ids[i as int]);
                    keep = false;
                }
                j = j + 1;
            }
            if keep {
                out.push(&tags[i]);
            }
            i = i + 1;
        }
        out
    }
}

impl Project {
    /// The entities of all data models, keyed by identifier: a later entity replaces an
    /// earlier one with the same identifier. A data model that owns nothing adds nothing.
    pub fn get_entity_map(self) -> (r: Vec<ERDEntity>)
        ensures
            r@ == entity_map(self),
            unique_ids(entity_ids(r@)),
    {
        let ghost top = self.owned_elements@;
        let mut nodes = self.owned_elements;
        let mut all: Vec<ERDEntity> = Vec::new();
        assert(all@ + project_entities(nodes@) =~= project_entities(top));
        while nodes.len() > 0
            invariant
                all@ + project_entities(nodes@) == project_entities(top),
            decreases nodes@.len(),
        {
            let ghost nv = nodes@;
            let node = nodes.remove(0);
            assert(nodes@ =~= nv.drop_first());
            match node {
                Node::ERDDataModel(m) => {
                    if let Some(mut inner) = m.element.owned_elements {
                        let ghost base = all@;
                        let ghost iv = inner@;
                        assert(all@ + model_entities(inner@) =~= base + model_entities(iv));
                        while inner.len() > 0
                            invariant
                                all@ + model_entities(inner@) == base + model_entities(iv),
                            decreases inner@.len(),
                        {
                            let ghost jv = inner@;
                            let x = inner.remove(0);
                            assert(inner@ =~= jv.drop_first());
                            if let Node::ERDEntity(e) = x {
                                assert(all@.push(e) + model_entities(inner@) =~= all@ + model_entities(jv));
                                all.push(e);
                            } else {
                                assert(model_entities(inner@) == model_entities(jv));
                            }
                        }
                        assert(all@ =~= base + model_entities(iv));
                        assert(all@ + project_entities(nodes@) =~= base + project_entities(nv));
                    }
                },
                _ => {},
            }
        }
        assert(all@ =~= project_entities(top));
        let ghost s = all@;
        let ghost ids = entity_ids(s);
        let mut rest = all;
        let mut out: Vec<ERDEntity> = Vec::new();
        let ghost mut i: int = 0;
        assert(s.skip(0) =~= s);
        while rest.len() > 0
            invariant
                0 <= i <= s.len(),
                ids == entity_ids(s),
                rest@ == s.skip(i),
                out@ == latest(s, ids, i),
            decreases rest@.len(),
        {
            let ghost rv = rest@;
            let x = rest.remove(0);
            assert(rest@ =~= s.skip(i + 1));
            assert(x == s[i]);
            let later = find_entity(&rest, &x.element._id);
            proof {
                if later is None {
                    assert forall|t: int| i < t < ids.len() implies ids[t] != ids[i] by {
                        assert(entity_ids(rest@)[t - i - 1] == ids[t]);
                    }
                } else {
                    let k = later->0 as int;
                    assert(ids[i + 1 + k] == entity_ids(rest@)[k]);
                }
            }
            if later.is_none() {
                out.push(x);
            }
            proof {
                i = i + 1;
            }
        }
        assert(s.skip(i).len() == 0);
        proof {
            let f = |e: ERDEntity| e.element._id@;
            lemma_latest_unique(s, ids, f, s.len() as int);
            assert(entity_ids(out@) =~= out@.map_values(f));
        }
        out
    }
}

/// Whether no two entities share an identifier.
pub fn entity_ids_unique(v: &Vec<ERDEntity>) -> (r: bool)
    ensures
        r == unique_ids(entity_ids(v@)),
{
    let ghost ids = entity_ids(v@);
    let n = v.len();
    let mut i: usize = 0;
    while i < n
        invariant
            n == v@.len(),
            ids == entity_ids(v@),
            i <= n,
            forall|x: int, y: int| 0 <= x < i && 0 <= y < n && x != y ==> ids[x] != ids[y],
        decreases n - i,
    {
        let mut j: usize = 0;
        while j < n
            invariant
                n == v@.len(),
                ids == entity_ids(v@),
                i < n,
                j <= n,
                forall|x: int, y: int| 0 <= x < i && 0 <= y < n && x != y ==> ids[x] != ids[y],
                forall|y: int| 0 <= y < j && y != i ==> ids[i as int] != ids[y],
            decreases n - j,
        {
            if j != i && v[i].element._id == v[j].element._id {
                assert(ids[i as int] == ids[j as int]);
                return false;
            }
            j = j + 1;
        }
        i = i + 1;
    }
    true
}

} // verus!
