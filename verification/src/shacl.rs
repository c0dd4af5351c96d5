//! SHACL node shapes read from the triples of a document, and the
//! completion snippets made from them.
use crate::green::{self, ClassProvider};
use crate::token::Span;
use crate::completion::{
    CompletionKind, SimpleCompletion, SimpleCompletionV, TextEdit, TextEditV, TextRange,
};
use crate::model::expand::{opt_str, shorten_from};
use crate::model::{Turtle, TurtleV};
use crate::triples::builder::quads_view;
use crate::triples::{decimal, digit_char, term_v, MyQuad, MyQuadV, MyTerm, MyTermV, TermKind};
use vstd::prelude::*;
use vstd::string::StringExecFns;

verus! {

/// The type of the values of a property: a datatype or a class.
#[derive(Clone, Debug)]
pub enum PropertyType {
    Primitive(String),
    Clazz(String),
}

pub enum PropertyTypeV {
    Primitive(Seq<char>),
    Clazz(Seq<char>),
}

impl View for PropertyType {
    type V = PropertyTypeV;

    open spec fn view(&self) -> PropertyTypeV {
        match self {
            PropertyType::Primitive(s) => PropertyTypeV::Primitive(s@),
            PropertyType::Clazz(s) => PropertyTypeV::Clazz(s@),
        }
    }
}

/// A property shape: its name, path, value type and cardinality.
#[derive(Clone, Debug)]
pub struct Property {
    pub name: Option<String>,
    pub path: String,
    pub ty: Option<PropertyType>,
    pub min_count: Option<usize>,
    pub max_count: Option<usize>,
}

pub struct PropertyV {
    pub name: Option<Seq<char>>,
    pub path: Seq<char>,
    pub ty: Option<PropertyTypeV>,
    pub min_count: Option<usize>,
    pub max_count: Option<usize>,
}

impl View for Property {
    type V = PropertyV;

    open spec fn view(&self) -> PropertyV {
        PropertyV {
            name: opt_str(self.name),
            path: self.path@,
            ty: match self.ty {
                Some(t) => Some(t@),
                None => None,
            },
            min_count: self.min_count,
            max_count: self.max_count,
        }
    }
}

/// A node shape: its name, target class, node, properties and targets.
#[derive(Clone, Debug)]
pub struct Shape {
    pub name: Option<String>,
    pub clazz: Option<String>,
    pub node: String,
    pub properties: Vec<Property>,
    pub target_objects_of: Option<String>,
    pub target_subjects_of: Option<String>,
}

pub struct ShapeV {
    pub name: Option<Seq<char>>,
    pub clazz: Option<Seq<char>>,
    pub node: Seq<char>,
    pub properties: Seq<PropertyV>,
    pub target_objects_of: Option<Seq<char>>,
    pub target_subjects_of: Option<Seq<char>>,
}

impl View for Shape {
    type V = ShapeV;

    open spec fn view(&self) -> ShapeV {
        ShapeV {
            name: opt_str(self.name),
            clazz: opt_str(self.clazz),
            node: self.node@,
            properties: self.properties@.map_values(|p: Property| p@),
            target_objects_of: opt_str(self.target_objects_of),
            target_subjects_of: opt_str(self.target_subjects_of),
        }
    }
}

/// An IRI of the SHACL vocabulary.
pub open spec fn sh(local: Seq<char>) -> Seq<char> {
    "http://www.w3.org/ns/shacl#"@ + local
}

pub open spec fn rdf_type() -> Seq<char> {
    "http://www.w3.org/1999/02/22-rdf-syntax-ns#type"@
}

/// Two terms are the same RDF term: same kind, same text.
pub open spec fn same_term(a: MyTermV, b: MyTermV) -> bool {
    a.ty == b.ty && a.value == b.value
}

/// The quad has subject `id` and one of the IRIs `preds` as predicate.
pub open spec fn quad_matches(q: MyQuadV, id: MyTermV, preds: Seq<Seq<char>>) -> bool {
    same_term(q.subject, id) && q.predicate.ty == TermKind::NamedNode && preds.contains(
        q.predicate.value,
    )
}

/// The first quad from position `i` on that matches.
pub open spec fn first_match(qs: Seq<MyQuadV>, id: MyTermV, preds: Seq<Seq<char>>, i: int) -> Option<
    int,
>
    decreases qs.len() - i,
{
    if !(0 <= i < qs.len()) {
        None
    } else if quad_matches(qs[i], id, preds) {
        Some(i)
    } else {
        first_match(qs, id, preds, i + 1)
    }
}

/// The lexical form of a literal term.
pub open spec fn lexical_form(t: MyTermV) -> Option<Seq<char>> {
    if t.ty == TermKind::Literal {
        Some(t.value)
    } else {
        None
    }
}

/// The IRI of a named node term.
pub open spec fn iri_of(t: MyTermV) -> Option<Seq<char>> {
    if t.ty == TermKind::NamedNode {
        Some(t.value)
    } else {
        None
    }
}

/// The lexical form of the object of the first matching quad.
pub open spec fn first_lexical(qs: Seq<MyQuadV>, id: MyTermV, preds: Seq<Seq<char>>) -> Option<
    Seq<char>,
> {
    match first_match(qs, id, preds, 0) {
        Some(i) => lexical_form(qs[i].object),
        None => None,
    }
}

/// The IRI of the object of the first matching quad.
pub open spec fn first_iri(qs: Seq<MyQuadV>, id: MyTermV, preds: Seq<Seq<char>>) -> Option<
    Seq<char>,
> {
    match first_match(qs, id, preds, 0) {
        Some(i) => iri_of(qs[i].object),
        None => None,
    }
}

pub open spec fn digit_value(c: char) -> nat {
    (c as u32 - '0' as u32) as nat
}

pub open spec fn all_digits(s: Seq<char>) -> bool {
    forall|i: int| 0 <= i < s.len() ==> '0' <= #[trigger] s[i] <= '9'
}

/// The number that the decimal digits `s` write.
pub open spec fn digits_value(s: Seq<char>) -> nat
    decreases s.len(),
{
    if s.len() == 0 {
        0
    } else {
        digits_value(s.drop_last()) * 10 + digit_value(s.last())
    }
}

/// A count as Rust reads a `usize` from text: an optional `+` and at least
/// one decimal digit, the value fitting in a `usize`.
pub open spec fn parse_count(s: Seq<char>) -> Option<usize> {
    let d = if s.len() > 0 && s[0] == '+' {
        s.skip(1)
    } else {
        s
    };
    if d.len() > 0 && all_digits(d) && digits_value(d) <= usize::MAX {
        Some(digits_value(d) as usize)
    } else {
        None
    }
}

pub open spec fn opt_count(o: Option<Seq<char>>) -> Option<usize> {
    match o {
        Some(s) => parse_count(s),
        None => None,
    }
}

/// The property shape `id`, if it has a path.
pub open spec fn parse_property_spec(qs: Seq<MyQuadV>, id: MyTermV) -> Option<PropertyV> {
    match first_iri(qs, id, seq![sh("path"@)]) {
        None => None,
        Some(path) => {
            let primitive = first_iri(qs, id, seq![sh("datatype"@)]);
            let clazz = first_iri(qs, id, seq![sh("class"@), sh("node"@)]);
            Some(
                PropertyV {
                    name: first_lexical(qs, id, seq![sh("name"@)]),
                    path,
                    ty: match primitive {
                        Some(p) => Some(PropertyTypeV::Primitive(p)),
                        None => match clazz {
                            Some(c) => Some(PropertyTypeV::Clazz(c)),
                            None => None,
                        },
                    },
                    min_count: opt_count(first_lexical(qs, id, seq![sh("minCount"@)])),
                    max_count: opt_count(first_lexical(qs, id, seq![sh("maxCount"@)])),
                },
            )
        },
    }
}

proof fn lemma_first_match_at(qs: Seq<MyQuadV>, id: MyTermV, preds: Seq<Seq<char>>, i: int, k: int)
    requires
        0 <= i <= k < qs.len(),
        quad_matches(qs[k], id, preds),
        forall|m: int| i <= m < k ==> !quad_matches(#[trigger] qs[m], id, preds),
    ensures
        first_match(qs, id, preds, i) == Some(k),
    decreases k - i,
{
    if i < k {
        lemma_first_match_at(qs, id, preds, i + 1, k);
    }
}

proof fn lemma_first_match_none(qs: Seq<MyQuadV>, id: MyTermV, preds: Seq<Seq<char>>, i: int)
    requires
        0 <= i,
        forall|m: int| i <= m < qs.len() ==> !quad_matches(#[trigger] qs[m], id, preds),
    ensures
        first_match(qs, id, preds, i) is None,
    decreases qs.len() - i,
{
    if i < qs.len() {
        lemma_first_match_none(qs, id, preds, i + 1);
    }
}

/// The quad states `pred` of the node `id`.
pub open spec fn states(q: MyQuadV, id: MyTermV, pred: Seq<char>) -> bool {
    same_term(q.subject, id) && q.predicate.ty == TermKind::NamedNode && q.predicate.value == pred
}

/// A property shape with a path and no `sh:datatype` has as its type the
/// class that its first `sh:class` or `sh:node` statement names, where that
/// names an IRI: the values of the property are instances of that class, or
/// nodes of that shape.
pub proof fn lemma_property_class_or_node(qs: Seq<MyQuadV>, id: MyTermV, k: int)
    requires
        0 <= k < qs.len(),
        states(qs[k], id, sh("class"@)) || states(qs[k], id, sh("node"@)),
        qs[k].object.ty == TermKind::NamedNode,
        forall|m: int|
            0 <= m < k ==> !states(#[trigger] qs[m], id, sh("class"@)) && !states(
                qs[m],
                id,
                sh("node"@),
            ),
        forall|m: int| 0 <= m < qs.len() ==> !states(#[trigger] qs[m], id, sh("datatype"@)),
        parse_property_spec(qs, id) is Some,
    ensures
        parse_property_spec(qs, id)->0.ty == Some(PropertyTypeV::Clazz(qs[k].object.value)),
{
    let cn = seq![sh("class"@), sh("node"@)];
    let dt = seq![sh("datatype"@)];
    assert(cn[0] == sh("class"@) && cn[1] == sh("node"@));
    assert(quad_matches(qs[k], id, cn)) by {
        if qs[k].predicate.value == sh("class"@) {
            assert(cn[0] == qs[k].predicate.value);
        } else {
            assert(cn[1] == qs[k].predicate.value);
        }
    }
    assert forall|m: int| 0 <= m < k implies !quad_matches(#[trigger] qs[m], id, cn) by {
        if quad_matches(qs[m], id, cn) {
            let x = choose|x: int| 0 <= x < cn.len() && cn[x] == qs[m].predicate.value;
            assert(states(qs[m], id, cn[x]));
        }
    }
    lemma_first_match_at(qs, id, cn, 0, k);
    assert forall|m: int| 0 <= m < qs.len() implies !quad_matches(#[trigger] qs[m], id, dt) by {
        if quad_matches(qs[m], id, dt) {
            let x = choose|x: int| 0 <= x < dt.len() && dt[x] == qs[m].predicate.value;
            assert(x == 0);
            assert(states(qs[m], id, sh("datatype"@)));
        }
    }
    lemma_first_match_none(qs, id, dt, 0);
}

/// A property shape with a path whose first `sh:datatype` statement names
/// an IRI has that datatype as its type.
pub proof fn lemma_property_datatype(qs: Seq<MyQuadV>, id: MyTermV, k: int)
    requires
        0 <= k < qs.len(),
        states(qs[k], id, sh("datatype"@)),
        qs[k].object.ty == TermKind::NamedNode,
        forall|m: int| 0 <= m < k ==> !states(#[trigger] qs[m], id, sh("datatype"@)),
        parse_property_spec(qs, id) is Some,
    ensures
        parse_property_spec(qs, id)->0.ty == Some(PropertyTypeV::Primitive(qs[k].object.value)),
{
    let dt = seq![sh("datatype"@)];
    assert(dt[0] == sh("datatype"@));
    assert(quad_matches(qs[k], id, dt));
    assert forall|m: int| 0 <= m < k implies !quad_matches(#[trigger] qs[m], id, dt) by {
        if quad_matches(qs[m], id, dt) {
            let x = choose|x: int| 0 <= x < dt.len() && dt[x] == qs[m].predicate.value;
            assert(states(qs[m], id, dt[x]));
        }
    }
    lemma_first_match_at(qs, id, dt, 0, k);
}

proof fn lemma_first_stating(qs: Seq<MyQuadV>, id: MyTermV, pred: Seq<char>, k: int)
    requires
        0 <= k < qs.len(),
        states(qs[k], id, pred),
        forall|m: int| 0 <= m < k ==> !states(#[trigger] qs[m], id, pred),
    ensures
        first_match(qs, id, seq![pred], 0) == Some(k),
{
    let ps = seq![pred];
    assert(ps[0] == pred);
    assert(quad_matches(qs[k], id, ps));
    assert forall|m: int| 0 <= m < k implies !quad_matches(#[trigger] qs[m], id, ps) by {
        if quad_matches(qs[m], id, ps) {
            let x = choose|x: int| 0 <= x < ps.len() && ps[x] == qs[m].predicate.value;
            assert(states(qs[m], id, ps[x]));
        }
    }
    lemma_first_match_at(qs, id, ps, 0, k);
}

/// A property shape is read from its first `sh:path` statement: where that
/// names an IRI the property exists with that path, and where the node has
/// no `sh:path` statement there is no property.
pub proof fn lemma_property_path(qs: Seq<MyQuadV>, id: MyTermV)
    ensures
        forall|k: int|
            0 <= k < qs.len() && states(#[trigger] qs[k], id, sh("path"@)) && qs[k].object.ty
                == TermKind::NamedNode && (forall|m: int|
                0 <= m < k ==> !states(#[trigger] qs[m], id, sh("path"@))) ==> (parse_property_spec(
                qs,
                id,
            ) matches Some(p) && p.path == qs[k].object.value),
        (forall|m: int| 0 <= m < qs.len() ==> !states(#[trigger] qs[m], id, sh("path"@)))
            ==> parse_property_spec(qs, id) is None,
{
    assert forall|k: int|
        0 <= k < qs.len() && states(#[trigger] qs[k], id, sh("path"@)) && qs[k].object.ty
            == TermKind::NamedNode && (forall|m: int|
            0 <= m < k ==> !states(#[trigger] qs[m], id, sh("path"@))) implies (parse_property_spec(
        qs,
        id,
    ) matches Some(p) && p.path == qs[k].object.value) by {
        lemma_first_stating(qs, id, sh("path"@), k);
    }
    if forall|m: int| 0 <= m < qs.len() ==> !states(#[trigger] qs[m], id, sh("path"@)) {
        let ps = seq![sh("path"@)];
        assert forall|m: int| 0 <= m < qs.len() implies !quad_matches(#[trigger] qs[m], id, ps) by {
            if quad_matches(qs[m], id, ps) {
                let x = choose|x: int| 0 <= x < ps.len() && ps[x] == qs[m].predicate.value;
                assert(x == 0);
                assert(states(qs[m], id, sh("path"@)));
            }
        }
        lemma_first_match_none(qs, id, ps, 0);
    }
}

/// A property's name, minimum and maximum count come from its first
/// `sh:name`, `sh:minCount` and `sh:maxCount` statements: the name is the
/// text of a literal, and a count the number a literal writes.
pub proof fn lemma_property_name_and_counts(qs: Seq<MyQuadV>, id: MyTermV, k: int, pred: Seq<char>)
    requires
        0 <= k < qs.len(),
        pred == sh("name"@) || pred == sh("minCount"@) || pred == sh("maxCount"@),
        states(qs[k], id, pred),
        qs[k].object.ty == TermKind::Literal,
        forall|m: int| 0 <= m < k ==> !states(#[trigger] qs[m], id, pred),
        parse_property_spec(qs, id) is Some,
    ensures
        pred == sh("name"@) ==> parse_property_spec(qs, id)->0.name == Some(qs[k].object.value),
        pred == sh("minCount"@) ==> parse_property_spec(qs, id)->0.min_count == parse_count(
            qs[k].object.value,
        ),
        pred == sh("maxCount"@) ==> parse_property_spec(qs, id)->0.max_count == parse_count(
            qs[k].object.value,
        ),
{
    lemma_first_stating(qs, id, pred, k);
}

/// The property shapes of `id` from quad `i` on, in quad order; those
/// without a path are left out.
pub open spec fn shape_properties(qs: Seq<MyQuadV>, id: MyTermV, i: int) -> Seq<PropertyV>
    decreases qs.len() - i,
{
    if !(0 <= i < qs.len()) {
        Seq::empty()
    } else {
        let rest = shape_properties(qs, id, i + 1);
        if quad_matches(qs[i], id, seq![sh("property"@)]) {
            match parse_property_spec(qs, qs[i].object) {
                Some(p) => seq![p] + rest,
                None => rest,
            }
        } else {
            rest
        }
    }
}

/// The text of a term that names a node: an IRI or a blank node label.
pub open spec fn node_name(t: MyTermV) -> Option<Seq<char>> {
    if t.ty == TermKind::NamedNode || t.ty == TermKind::BlankNode {
        Some(t.value)
    } else {
        None
    }
}

/// The node shape `id`.
pub open spec fn parse_shape_spec(qs: Seq<MyQuadV>, id: MyTermV) -> ShapeV {
    ShapeV {
        node: match node_name(id) {
            Some(n) => n,
            None => "Unnamed node???"@,
        },
        name: first_lexical(qs, id, seq![sh("name"@)]),
        target_subjects_of: first_lexical(qs, id, seq![sh("targetSubjectsOf"@)]),
        target_objects_of: first_lexical(qs, id, seq![sh("targetObjectsOf"@)]),
        clazz: first_iri(qs, id, seq![sh("targetClass"@)]),
        properties: shape_properties(qs, id, 0),
    }
}

/// A node shape's target class is what its first `sh:targetClass`
/// statement names, where that is an IRI; its node is the IRI or label of the
/// shape's own node.
pub proof fn lemma_shape_target_class(qs: Seq<MyQuadV>, id: MyTermV, k: int)
    requires
        0 <= k < qs.len(),
        states(qs[k], id, sh("targetClass"@)),
        qs[k].object.ty == TermKind::NamedNode,
        forall|m: int| 0 <= m < k ==> !states(#[trigger] qs[m], id, sh("targetClass"@)),
    ensures
        parse_shape_spec(qs, id).clazz == Some(qs[k].object.value),
        (id.ty == TermKind::NamedNode || id.ty == TermKind::BlankNode) ==> parse_shape_spec(
            qs,
            id,
        ).node == id.value,
{
    lemma_first_stating(qs, id, sh("targetClass"@), k);
}

/// The quad says that its subject is a `sh:NodeShape`.
pub open spec fn is_node_shape_quad(q: MyQuadV) -> bool {
    q.predicate.ty == TermKind::NamedNode && q.predicate.value == rdf_type() && q.object.ty
        == TermKind::NamedNode && q.object.value == sh("NodeShape"@)
}

/// The node shapes declared from quad `i` on, in quad order.
pub open spec fn shapes_from(qs: Seq<MyQuadV>, i: int) -> Seq<ShapeV>
    decreases qs.len() - i,
{
    if !(0 <= i < qs.len()) {
        Seq::empty()
    } else {
        let rest = shapes_from(qs, i + 1);
        if is_node_shape_quad(qs[i]) {
            seq![parse_shape_spec(qs, qs[i].subject)] + rest
        } else {
            rest
        }
    }
}

pub open spec fn strs(v: Seq<String>) -> Seq<Seq<char>> {
    v.map_values(|s: String| s@)
}

/// The SHACL IRI with local name `local`.
fn sh_iri(local: &str) -> (r: String)
    ensures
        r@ == sh(local@),
{
    let mut r = String::from_str("http://www.w3.org/ns/shacl#");
    r.append(local);
    r
}

fn same_term_exec(a: &MyTerm, b: &MyTerm) -> (r: bool)
    ensures
        r == same_term(a@, b@),
{
    a.ty == b.ty && a.value == b.value
}

fn contains_string(v: &Vec<String>, s: &String) -> (r: bool)
    ensures
        r == strs(v@).contains(s@),
{
    let mut i: usize = 0;
    while i < v.len()
        invariant
            0 <= i <= v.len(),
            forall|k: int| 0 <= k < i ==> v@[k]@ != s@,
        decreases v.len() - i,
    {
        if v[i] == *s {
            assert(strs(v@)[i as int] == s@);
            return true;
        }
        i = i + 1;
    }
    proof {
        if strs(v@).contains(s@) {
            let k = choose|k: int| 0 <= k < strs(v@).len() && strs(v@)[k] == s@;
            assert(v@[k]@ == s@);
        }
    }
    false
}

proof fn lemma_first_match(qs: Seq<MyQuadV>, id: MyTermV, preds: Seq<Seq<char>>, i: int)
    ensures
        first_match(qs, id, preds, i) matches Some(k) ==> i <= k < qs.len() && quad_matches(
            qs[k],
            id,
            preds,
        ),
    decreases qs.len() - i,
{
    if 0 <= i < qs.len() && !quad_matches(qs[i], id, preds) {
        lemma_first_match(qs, id, preds, i + 1);
    }
}

/// The position of the first quad with subject `id` and a predicate among
/// `preds`.
fn find_first(data: &Vec<MyQuad>, id: &MyTerm, preds: &Vec<String>) -> (r: Option<usize>)
    ensures
        match r {
            Some(i) => first_match(quads_view(data@), id@, strs(preds@), 0) == Some(i as int) && i
                < data@.len(),
            None => first_match(quads_view(data@), id@, strs(preds@), 0) is None,
        },
{
    proof {
        lemma_first_match(quads_view(data@), id@, strs(preds@), 0);
    }
    let ghost qs = quads_view(data@);
    let mut i: usize = 0;
    while i < data.len()
        invariant
            0 <= i <= data.len(),
            qs == quads_view(data@),
            first_match(qs, id@, strs(preds@), 0) == first_match(qs, id@, strs(preds@), i as int),
        decreases data.len() - i,
    {
        let q = &data[i];
        if same_term_exec(&q.subject, id) && q.predicate.ty == TermKind::NamedNode
            && contains_string(preds, &q.predicate.value) {
            return Some(i);
        }
        i = i + 1;
    }
    None
}

fn one(s: String) -> (r: Vec<String>)
    ensures
        strs(r@) == seq![s@],
{
    let mut v = Vec::new();
    v.push(s);
    assert(strs(v@) =~= seq![s@]);
    v
}

/// The lexical form of the object of the first quad with subject `id` and
/// predicate among `preds`.
fn first_lexical_exec(data: &Vec<MyQuad>, id: &MyTerm, preds: &Vec<String>) -> (r: Option<String>)
    ensures
        opt_str(r) == first_lexical(quads_view(data@), id@, strs(preds@)),
{
    match find_first(data, id, preds) {
        Some(i) => {
            let o = &data[i].object;
            if o.ty == TermKind::Literal {
                Some(o.value.clone())
            } else {
                None
            }
        },
        None => None,
    }
}

/// The IRI of the object of the first quad with subject `id` and predicate
/// among `preds`.
fn first_iri_exec(data: &Vec<MyQuad>, id: &MyTerm, preds: &Vec<String>) -> (r: Option<String>)
    ensures
        opt_str(r) == first_iri(quads_view(data@), id@, strs(preds@)),
{
    match find_first(data, id, preds) {
        Some(i) => {
            let o = &data[i].object;
            if o.ty == TermKind::NamedNode {
                Some(o.value.clone())
            } else {
                None
            }
        },
        None => None,
    }
}

proof fn lemma_digits_step(s: Seq<char>, i: int)
    requires
        0 <= i < s.len(),
    ensures
        digits_value(s.take(i + 1)) == digits_value(s.take(i)) * 10 + digit_value(s[i]),
{
    assert(s.take(i + 1).drop_last() =~= s.take(i));
}

proof fn lemma_digits_mono(s: Seq<char>, i: int)
    requires
        0 <= i <= s.len(),
    ensures
        digits_value(s.take(i)) <= digits_value(s),
    decreases s.len() - i,
{
    if i < s.len() {
        lemma_digits_step(s, i);
        lemma_digits_mono(s, i + 1);
        assert(s.take(s.len() as int) =~= s);
    } else {
        assert(s.take(i) =~= s);
    }
}

/// Reads a count as Rust reads a `usize`: an optional `+` and decimal
/// digits, the value fitting in a `usize`.
pub fn parse_usize(text: &str) -> (r: Option<usize>)
    ensures
        r == parse_count(text@),
{
    let cs = crate::text::chars_of(text);
    let mut i: usize = 0;
    if cs.len() > 0 && cs[0] == '+' {
        i = 1;
    }
    let ghost d = if text@.len() > 0 && text@[0] == '+' {
        text@.skip(1)
    } else {
        text@
    };
    let start = i;
    if start == cs.len() {
        return None;
    }
    assert(d =~= cs@.skip(start as int));
    assert(d.take(0) =~= Seq::<char>::empty());
    let mut acc: usize = 0;
    while i < cs.len()
        invariant
            cs@ == text@,
            start <= i <= cs.len(),
            start < cs.len(),
            d == cs@.skip(start as int),
            d == (if text@.len() > 0 && text@[0] == '+' {
                text@.skip(1)
            } else {
                text@
            }),
            all_digits(d.take(i - start)),
            acc == digits_value(d.take(i - start)),
        decreases cs.len() - i,
    {
        let c = cs[i];
        if !('0' <= c && c <= '9') {
            assert(d[i - start] == c);
            return None;
        }
        let v = (c as u32 - '0' as u32) as usize;
        proof {
            lemma_digits_step(d, i - start);
            assert(d[i - start] == c);
        }
        if acc > (usize::MAX - v) / 10 {
            proof {
                assert(acc * 10 + v > usize::MAX) by (nonlinear_arith)
                    requires
                        acc > (usize::MAX - v) / 10,
                        v <= 9,
                ;
                lemma_digits_mono(d, i - start + 1);
            }
            return None;
        }
        assert(acc * 10 + v <= usize::MAX) by (nonlinear_arith)
            requires
                acc <= (usize::MAX - v) / 10,
                v <= 9,
        ;
        acc = acc * 10 + v;
        proof {
            assert forall|k: int| 0 <= k < i + 1 - start implies '0' <= #[trigger] d.take(
                i + 1 - start,
            )[k] <= '9' by {
                if k < i - start {
                    assert(d.take(i + 1 - start)[k] == d.take(i - start)[k]);
                }
            }
        }
        i = i + 1;
    }
    assert(d.take(i - start) =~= d);
    Some(acc)
}

/// The property shape `id`, if it has a path.
pub fn parse_property(data: &Vec<MyQuad>, id: &MyTerm) -> (r: Option<Property>)
    ensures
        match r {
            Some(p) => parse_property_spec(quads_view(data@), id@) == Some(p@),
            None => parse_property_spec(quads_view(data@), id@) is None,
        },
{
    let name = first_lexical_exec(data, id, &one(sh_iri("name")));
    let path = match first_iri_exec(data, id, &one(sh_iri("path"))) {
        Some(p) => p,
        None => return None,
    };
    let primitive = first_iri_exec(data, id, &one(sh_iri("datatype")));
    let mut cn: Vec<String> = Vec::new();
    cn.push(sh_iri("class"));
    cn.push(sh_iri("node"));
    assert(strs(cn@) =~= seq![sh("class"@), sh("node"@)]);
    let clazz = first_iri_exec(data, id, &cn);
    let min_count = match first_lexical_exec(data, id, &one(sh_iri("minCount"))) {
        Some(s) => parse_usize(s.as_str()),
        None => None,
    };
    let max_count = match first_lexical_exec(data, id, &one(sh_iri("maxCount"))) {
        Some(s) => parse_usize(s.as_str()),
        None => None,
    };
    let ty = match primitive {
        Some(p) => Some(PropertyType::Primitive(p)),
        None => match clazz {
            Some(c) => Some(PropertyType::Clazz(c)),
            None => None,
        },
    };
    Some(Property { name, path, ty, min_count, max_count })
}

/// The node shape `id`.
pub fn parse_shape(data: &Vec<MyQuad>, id: &MyTerm) -> (r: Option<Shape>)
    ensures
        r matches Some(s) && s@ == parse_shape_spec(quads_view(data@), id@),
{
    let node = if id.ty == TermKind::NamedNode || id.ty == TermKind::BlankNode {
        id.value.clone()
    } else {
        String::from_str("Unnamed node???")
    };
    let name = first_lexical_exec(data, id, &one(sh_iri("name")));
    let target_subjects_of = first_lexical_exec(data, id, &one(sh_iri("targetSubjectsOf")));
    let target_objects_of = first_lexical_exec(data, id, &one(sh_iri("targetObjectsOf")));
    let clazz = first_iri_exec(data, id, &one(sh_iri("targetClass")));
    let prop = one(sh_iri("property"));
    let ghost qs = quads_view(data@);
    let mut properties: Vec<Property> = Vec::new();
    let mut i: usize = data.len();
    assert(shape_properties(qs, id@, i as int) == Seq::<PropertyV>::empty());
    while i > 0
        invariant
            0 <= i <= data.len(),
            qs == quads_view(data@),
            strs(prop@) == seq![sh("property"@)],
            properties@.map_values(|p: Property| p@) == shape_properties(qs, id@, i as int),
        decreases i,
    {
        i = i - 1;
        let q = &data[i];
        let ghost before = properties@;
        if same_term_exec(&q.subject, id) && q.predicate.ty == TermKind::NamedNode
            && contains_string(&prop, &q.predicate.value) {
            match parse_property(data, &q.object) {
                Some(p) => {
                    properties.insert(0, p);
                    assert(properties@.map_values(|p: Property| p@) =~= seq![p@]
                        + before.map_values(|p: Property| p@));
                },
                None => {},
            }
        }
    }
    Some(Shape { name, clazz, node, properties, target_objects_of, target_subjects_of })
}

/// The node shapes declared in `triples`, in the order of their `rdf:type`
/// triples.
pub fn parse_shapes(triples: &crate::triples::Triples) -> (r: Vec<Shape>)
    ensures
        r@.map_values(|s: Shape| s@) == shapes_from(quads_view(triples.triples@), 0),
{
    let data = &triples.triples;
    let ghost qs = quads_view(data@);
    let ty = String::from_str("http://www.w3.org/1999/02/22-rdf-syntax-ns#type");
    let ns = sh_iri("NodeShape");
    let mut shapes: Vec<Shape> = Vec::new();
    let mut i: usize = data.len();
    assert(shapes_from(qs, i as int) == Seq::<ShapeV>::empty());
    while i > 0
        invariant
            0 <= i <= data.len(),
            qs == quads_view(data@),
            ty@ == rdf_type(),
            ns@ == sh("NodeShape"@),
            shapes@.map_values(|s: Shape| s@) == shapes_from(qs, i as int),
        decreases i,
    {
        i = i - 1;
        let q = &data[i];
        let ghost before = shapes@;
        if q.predicate.ty == TermKind::NamedNode && q.predicate.value == ty && q.object.ty
            == TermKind::NamedNode && q.object.value == ns {
            match parse_shape(data, &q.subject) {
                Some(s) => {
                    shapes.insert(0, s);
                    assert(shapes@.map_values(|s: Shape| s@) =~= seq![s@] + before.map_values(
                        |s: Shape| s@,
                    ));
                },
                None => {},
            }
        }
    }
    shapes
}

/// The shape's name: its target class, or else its node.
pub open spec fn shape_name(s: ShapeV) -> Seq<char> {
    match s.clazz {
        Some(c) => c,
        None => s.node,
    }
}

/// A property is required when its minimum count is above zero.
pub open spec fn required(p: PropertyV) -> bool {
    match p.min_count {
        Some(c) => c > 0,
        None => false,
    }
}

/// A property made for no place in the source.
pub open spec fn named_term(iri: Seq<char>) -> MyTermV {
    term_v(iri, TermKind::NamedNode, Span { start: 0, end: 0 })
}

/// The range of property shape `p` when the class its values have, if it
/// names one or none, got id `id`: a datatype is a primitive.
pub open spec fn range_of(p: PropertyV, id: usize) -> green::RangeV {
    match p.ty {
        Some(PropertyTypeV::Primitive(_)) => green::RangeV::Primitive("Some primitive"@),
        _ => green::RangeV::Class(id),
    }
}

/// Property shape `p` on the class with id `domain`, its values' class
/// having id `id`.
pub open spec fn property_of(p: PropertyV, domain: usize, id: usize) -> green::PropertyV {
    green::PropertyV {
        range: range_of(p, id),
        domain,
        property: named_term(p.path),
        required: required(p),
    }
}

/// How many properties a shape gives: one per property shape and one per
/// target.
pub open spec fn properties_count(s: ShapeV) -> nat {
    s.properties.len() + (if s.target_objects_of is Some {
        1nat
    } else {
        0nat
    }) + (if s.target_subjects_of is Some {
        1nat
    } else {
        0nat
    })
}

/// The properties shape `s` gives when its class has id `domain`, the value
/// classes of its property shapes ids `ranges`, the subjects of
/// `target_objects_of` class `origin` and the objects of
/// `target_subjects_of` class `target`: one per property shape, in order,
/// then one per target.
pub open spec fn properties_given(
    s: ShapeV,
    domain: usize,
    ranges: Seq<usize>,
    origin: usize,
    target: usize,
) -> Seq<green::PropertyV> {
    Seq::new(s.properties.len(), |i: int| property_of(s.properties[i], domain, ranges[i]))
        + match s.target_objects_of {
        Some(t) => seq![
            green::PropertyV {
                range: green::RangeV::Class(domain),
                domain: origin,
                property: named_term(t),
                required: false,
            },
        ],
        None => Seq::empty(),
    } + match s.target_subjects_of {
        Some(t) => seq![
            green::PropertyV {
                range: green::RangeV::Class(target),
                domain,
                property: named_term(t),
                required: false,
            },
        ],
        None => Seq::empty(),
    }
}

/// The ids `ranges` are those `p` gives the classes that the property
/// shapes of `s` name.
pub open spec fn ranges_fit<P: ClassProvider>(s: ShapeV, ranges: Seq<usize>, p: P, n: int) -> bool {
    &&& ranges.len() == n
    &&& forall|i: int|
        0 <= i < n ==> match #[trigger] s.properties[i].ty {
            Some(PropertyTypeV::Clazz(c)) => p.knows(c) && ranges[i] == p.id_of(c),
            _ => true,
        }
}

/// The ids in `ranges` of the untyped property shapes among the first `n`,
/// in order.
pub open spec fn untyped_ids(props: Seq<PropertyV>, ranges: Seq<usize>, n: int) -> Seq<usize>
    decreases n,
{
    if n <= 0 {
        Seq::empty()
    } else {
        untyped_ids(props, ranges, n - 1) + if props[n - 1].ty is None {
            seq![ranges[n - 1]]
        } else {
            Seq::<usize>::empty()
        }
    }
}

/// The ids a shape takes as fresh classes, in the order it asks for them:
/// those of its untyped property shapes, then `origin` and `target` for its
/// targets.
pub open spec fn fresh_ids(s: ShapeV, ranges: Seq<usize>, origin: usize, target: usize) -> Seq<
    usize,
> {
    untyped_ids(s.properties, ranges, s.properties.len() as int) + (if s.target_objects_of is Some {
        seq![origin]
    } else {
        Seq::<usize>::empty()
    }) + (if s.target_subjects_of is Some {
        seq![target]
    } else {
        Seq::<usize>::empty()
    })
}

/// The ids `f` are distinct, were not given by `a`, were given by `b`, and
/// are the id of no name that `b` knows.
pub open spec fn fresh_in<P: ClassProvider>(f: Seq<usize>, a: P, b: P) -> bool {
    &&& forall|i: int, j: int| 0 <= i < j < f.len() ==> #[trigger] f[i] != #[trigger] f[j]
    &&& forall|i: int| 0 <= i < f.len() ==> !a.gave(#[trigger] f[i]) && b.gave(f[i])
    &&& forall|i: int, n: Seq<char>|
        0 <= i < f.len() && b.knows(n) ==> #[trigger] b.id_of(n) != #[trigger] f[i]
}

/// `r` is what shape `s` gives when it takes its ids from a provider that
/// was `a` before and is `b` after: its class has the id `b` gives the
/// shape's name (a target class being recorded as a subclass of the node),
/// class-valued property shapes have the ids `b` gives their classes, and
/// the other ids are fresh classes, distinct, given after `a`.
pub open spec fn shape_fits<P: ClassProvider>(s: ShapeV, r: Seq<green::PropertyV>, a: P, b: P) -> bool {
    &&& b.knows(shape_name(s))
    &&& (s.clazz matches Some(c) ==> b.knows(c) && b.knows(s.node) && b.has_subclass(
        b.id_of(c),
        b.id_of(s.node),
    ))
    &&& exists|ranges: Seq<usize>, origin: usize, target: usize|
        ranges_fit(s, ranges, b, s.properties.len() as int) && fresh_in(
            fresh_ids(s, ranges, origin, target),
            a,
            b,
        ) && r == properties_given(s, b.id_of(shape_name(s)), ranges, origin, target)
}

proof fn lemma_untyped_ids_prefix(props: Seq<PropertyV>, a: Seq<usize>, b: Seq<usize>, n: int)
    requires
        0 <= n <= a.len(),
        n <= b.len(),
        forall|k: int| 0 <= k < n ==> #[trigger] b[k] == a[k],
    ensures
        untyped_ids(props, b, n) == untyped_ids(props, a, n),
    decreases n,
{
    if n > 0 {
        lemma_untyped_ids_prefix(props, a, b, n - 1);
    }
}

/// Fresh ids stay fresh as the provider gives more.
pub proof fn lemma_fresh_kept<P: ClassProvider>(f: Seq<usize>, a: P, b: P, c: P)
    requires
        fresh_in(f, a, b),
        green::keeps(b, c),
    ensures
        fresh_in(f, a, c),
{
    assert forall|i: int| 0 <= i < f.len() implies !a.gave(#[trigger] f[i]) && c.gave(f[i]) by {
        assert(b.gave(f[i]));
    }
    assert forall|i: int, n: Seq<char>| 0 <= i < f.len() && c.knows(n) implies #[trigger] c.id_of(
        n,
    ) != #[trigger] f[i] by {
        assert(b.gave(f[i]));
        if b.knows(n) {
            assert(c.id_of(n) == b.id_of(n));
            assert(b.id_of(n) != f[i]);
        } else {
            assert(!b.gave(c.id_of(n)));
        }
    }
}

/// An id that `c` gives fresh after `b` extends the fresh ids.
pub proof fn lemma_fresh_push<P: ClassProvider>(f: Seq<usize>, a: P, b: P, c: P, x: usize)
    requires
        fresh_in(f, a, b),
        green::keeps(a, b),
        green::keeps(b, c),
        !b.gave(x),
        c.gave(x),
        forall|n: Seq<char>| c.knows(n) ==> #[trigger] c.id_of(n) != x,
    ensures
        fresh_in(f.push(x), a, c),
{
    lemma_fresh_kept(f, a, b, c);
    let g = f.push(x);
    assert forall|i: int, j: int| 0 <= i < j < g.len() implies #[trigger] g[i] != #[trigger] g[j] by {
        if j == f.len() {
            assert(g[i] == f[i] && b.gave(f[i]));
        } else {
            assert(g[i] == f[i] && g[j] == f[j]);
        }
    }
    assert forall|i: int| 0 <= i < g.len() implies !a.gave(#[trigger] g[i]) && c.gave(g[i]) by {
        if i < f.len() {
            assert(g[i] == f[i]);
        }
    }
    assert forall|i: int, n: Seq<char>| 0 <= i < g.len() && c.knows(n) implies #[trigger] c.id_of(
        n,
    ) != #[trigger] g[i] by {
        if i < f.len() {
            assert(g[i] == f[i]);
        }
    }
}

/// What a shape gives with the ids of a provider still holds once the
/// provider has given more, and with fresh ids counted from any earlier
/// provider.
pub proof fn lemma_shape_fits_kept<P: ClassProvider>(
    s: ShapeV,
    r: Seq<green::PropertyV>,
    a0: P,
    a: P,
    b: P,
    c: P,
)
    requires
        shape_fits(s, r, a, b),
        green::keeps(a0, a),
        green::keeps(b, c),
    ensures
        shape_fits(s, r, a0, c),
{
    let (ranges, origin, target) = choose|ranges: Seq<usize>, origin: usize, target: usize|
        ranges_fit(s, ranges, b, s.properties.len() as int) && fresh_in(
            fresh_ids(s, ranges, origin, target),
            a,
            b,
        ) && r == properties_given(s, b.id_of(shape_name(s)), ranges, origin, target);
    let f = fresh_ids(s, ranges, origin, target);
    assert(b.knows(shape_name(s)));
    assert forall|i: int| 0 <= i < s.properties.len() implies match #[trigger] s.properties[i].ty {
        Some(PropertyTypeV::Clazz(cl)) => c.knows(cl) && ranges[i] == c.id_of(cl),
        _ => true,
    } by {
        match s.properties[i].ty {
            Some(PropertyTypeV::Clazz(cl)) => {
                assert(b.knows(cl));
            },
            _ => {},
        }
    }
    match s.clazz {
        Some(cl) => {
            assert(b.knows(cl) && b.knows(s.node));
            assert(b.has_subclass(b.id_of(cl), b.id_of(s.node)));
        },
        None => {},
    }
    assert(ranges_fit(s, ranges, c, s.properties.len() as int));
    lemma_fresh_kept(f, a, b, c);
    assert forall|i: int| 0 <= i < f.len() implies !a0.gave(#[trigger] f[i]) && c.gave(f[i]) by {
        if a0.gave(f[i]) {
            assert(a.gave(f[i]));
        }
    }
    assert(fresh_in(f, a0, c));
}

/// How a property's path is written: prefixed where a declaration allows,
/// else in angle brackets.
pub open spec fn path_text(p: PropertyV, d: TurtleV) -> Seq<char> {
    match shorten_from(d, p.path, 0) {
        Some(s) => s,
        None => "<"@ + p.path + ">"@,
    }
}

/// The snippet part for a property: its path and placeholder number `k`,
/// with the property's name as the placeholder's default.
pub open spec fn edit_part(p: PropertyV, d: TurtleV, k: nat) -> Seq<char> {
    let placeholder = match p.name {
        Some(n) => "${"@ + decimal(k) + ":"@ + n + "}"@,
        None => "$"@ + decimal(k),
    };
    path_text(p, d) + " "@ + placeholder
}

pub open spec fn req_count(props: Seq<PropertyV>) -> nat
    decreases props.len(),
{
    if props.len() == 0 {
        0
    } else {
        req_count(props.drop_last()) + if required(props.last()) {
            1nat
        } else {
            0nat
        }
    }
}

/// The snippet parts of the required properties, numbered from one.
pub open spec fn req_parts(d: TurtleV, props: Seq<PropertyV>) -> Seq<Seq<char>>
    decreases props.len(),
{
    if props.len() == 0 {
        Seq::empty()
    } else {
        let rest = req_parts(d, props.drop_last());
        if required(props.last()) {
            rest.push(edit_part(props.last(), d, req_count(props)))
        } else {
            rest
        }
    }
}

/// The parts joined by `sep`.
pub open spec fn join(parts: Seq<Seq<char>>, sep: Seq<char>) -> Seq<char>
    decreases parts.len(),
{
    if parts.len() == 0 {
        Seq::empty()
    } else if parts.len() == 1 {
        parts[0]
    } else {
        join(parts.drop_last(), sep) + sep + parts.last()
    }
}

/// The completion for a property: its path, written as in the document,
/// at `range`.
pub open spec fn property_completion(p: PropertyV, d: TurtleV, range: TextRange) -> SimpleCompletionV {
    SimpleCompletionV {
        kind: CompletionKind::Property,
        label: path_text(p, d) + " (class property)"@,
        documentation: p.name,
        sort_text: None,
        filter_text: Some(path_text(p, d)),
        edits: seq![TextEditV { new_text: path_text(p, d), range }],
    }
}

impl Shape {
    /// The shape's name: its target class, or else its node.
    pub fn name(&self) -> (r: &str)
        ensures
            r@ == shape_name(self@),
    {
        match &self.clazz {
            Some(c) => c.as_str(),
            None => self.node.as_str(),
        }
    }

    /// The properties the shape gives with the ids given: the class has id
    /// `domain`, the value class of the `i`-th property shape has id
    /// `ranges[i]` (unused for a datatype), the subjects of
    /// `target_objects_of` have class `origin` and the objects of
    /// `target_subjects_of` class `target`.
    pub fn properties_with_ids(
        &self,
        domain: usize,
        ranges: &Vec<usize>,
        origin: usize,
        target: usize,
    ) -> (r: Vec<green::Property>)
        requires
            ranges@.len() == self.properties@.len(),
        ensures
            green::properties_view(r@) == properties_given(
self@, domain, ranges@, origin, target),
    {
        let ghost sv = self@;
        let mut props: Vec<green::Property> = Vec::new();
        let mut i: usize = 0;
        while i < self.properties.len()
            invariant
                0 <= i <= self.properties.len(),
                sv == self@,
                ranges@.len() == self.properties@.len(),
                green::properties_view(props@) =~= Seq::new(
                    i as nat,
                    |j: int| property_of(sv.properties[j], domain, ranges@[j]),
                ),
            decreases self.properties.len() - i,
        {
            let prop = &self.properties[i];
            assert(sv.properties[i as int] == prop@);
            let range = match &prop.ty {
                Some(PropertyType::Primitive(_)) => green::Range::Primitive("Some primitive"),
                _ => green::Range::Class(ranges[i]),
            };
            let required = match prop.min_count {
                Some(c) => c > 0,
                None => false,
            };
            let property = MyTerm::named_node(prop.path.as_str(), Span { start: 0, end: 0 });
            let entry = green::Property { range, domain, property, required };
            assert(entry@ == property_of(sv.properties[i as int], domain, ranges@[i as int]));
            let ghost before = props@;
            props.push(entry);
            assert(green::properties_view(props@) =~= green::properties_view(before).push(entry@));
            assert(green::properties_view(props@) =~= Seq::new(
                (i + 1) as nat,
                |j: int| property_of(sv.properties[j], domain, ranges@[j]),
            ));
            i = i + 1;
        }
        match &self.target_objects_of {
            Some(t) => {
                let property = MyTerm::named_node(t.as_str(), Span { start: 0, end: 0 });
                props.push(
                    green::Property {
                        range: green::Range::Class(domain),
                        domain: origin,
                        property,
                        required: false,
                    },
                );
            },
            None => {},
        }
        match &self.target_subjects_of {
            Some(t) => {
                let property = MyTerm::named_node(t.as_str(), Span { start: 0, end: 0 });
                props.push(
                    green::Property {
                        range: green::Range::Class(target),
                        domain,
                        property,
                        required: false,
                    },
                );
            },
            None => {},
        }
        assert(green::properties_view(props@) =~= properties_given(
sv, domain,
            ranges@,
            origin,
            target,
        ));
        props
    }

    /// The properties that the shape gives the instances of its class,
    /// with ids from `provider`: its class is the one named by the shape's
    /// name (a target class is first recorded as a subclass of the node),
    /// each property shape's class is asked for by name (or as a fresh class
    /// where it names none), and the targets get fresh classes.
    pub fn get_properties<P: ClassProvider>(&self, provider: &mut P) -> (r: Vec<green::Property>)
        ensures
            shape_fits(self@, green::properties_view(r@), *old(provider), *final(provider)),
            green::keeps(*old(provider), *final(provider)),
    {
        let ghost sv = self@;
        let ghost p0 = *provider;
        match &self.clazz {
            Some(claz) => {
                let claz_id = provider.named(claz.as_str());
                let node_id = provider.named(self.node.as_str());
                provider.add_subclass(claz_id, node_id);
            },
            None => {},
        }
        let domain = provider.named(self.name());
        let mut ranges: Vec<usize> = Vec::new();
        let mut i: usize = 0;
        while i < self.properties.len()
            invariant
                0 <= i <= self.properties.len(),
                sv == self@,
                p0 == *old(provider),
                green::keeps(p0, *provider),
                provider.knows(shape_name(sv)),
                domain == provider.id_of(shape_name(sv)),
                sv.clazz matches Some(c) ==> provider.knows(c) && provider.knows(sv.node)
                    && provider.has_subclass(provider.id_of(c), provider.id_of(sv.node)),
                ranges_fit(sv, ranges@, *provider, i as int),
                fresh_in(untyped_ids(sv.properties, ranges@, i as int), p0, *provider),
            decreases self.properties.len() - i,
        {
            let prop = &self.properties[i];
            assert(sv.properties[i as int] == prop@);
            let ghost p1 = *provider;
            let ghost f = untyped_ids(sv.properties, ranges@, i as int);
            let id = match &prop.ty {
                Some(PropertyType::Clazz(class)) => provider.named(class.as_str()),
                Some(PropertyType::Primitive(_)) => 0,
                None => provider.unnamed(None, "shacl"),
            };
            proof {
                assert(green::keeps(p1, *provider));
                green::lemma_keeps_trans(p0, p1, *provider);
            }
            let ghost before = ranges@;
            ranges.push(id);
            proof {
                assert(ranges@.take(i as int) =~= before);
                assert forall|k: int| 0 <= k < i implies #[trigger] ranges@[k] == before[k] by {}
                lemma_untyped_ids_prefix(sv.properties, before, ranges@, i as int);
                if prop.ty is None {
                    assert(untyped_ids(sv.properties, ranges@, i + 1) == f.push(id));
                    lemma_fresh_push(f, p0, p1, *provider, id);
                } else {
                    assert(untyped_ids(sv.properties, ranges@, i + 1) =~= f);
                    lemma_fresh_kept(f, p0, p1, *provider);
                }
            }
            i = i + 1;
        }
        let ghost f = untyped_ids(sv.properties, ranges@, i as int);
        let ghost p1 = *provider;
        let origin = match &self.target_objects_of {
            Some(_) => provider.unnamed(None, "target_objects_of"),
            None => 0,
        };
        let ghost f2 = if sv.target_objects_of is Some {
            f.push(origin)
        } else {
            f
        };
        proof {
            assert(green::keeps(p1, *provider));
            green::lemma_keeps_trans(p0, p1, *provider);
            if sv.target_objects_of is Some {
                lemma_fresh_push(f, p0, p1, *provider, origin);
            } else {
                lemma_fresh_kept(f, p0, p1, *provider);
            }
        }
        let ghost p2 = *provider;
        let target = match &self.target_subjects_of {
            Some(_) => provider.unnamed(None, "target_subjects_of"),
            None => 0,
        };
        proof {
            assert(green::keeps(p2, *provider));
            green::lemma_keeps_trans(p0, p2, *provider);
            if sv.target_subjects_of is Some {
                lemma_fresh_push(f2, p0, p2, *provider, target);
            } else {
                lemma_fresh_kept(f2, p0, p2, *provider);
            }
            let f3 = if sv.target_subjects_of is Some {
                f2.push(target)
            } else {
                f2
            };
            assert(fresh_ids(sv, ranges@, origin, target) =~= f3);
        }
        let r = self.properties_with_ids(domain, &ranges, origin, target);
        assert(ranges_fit(sv, ranges@, *provider, sv.properties.len() as int));
        r
    }
}

impl Property {
    /// The path as written in `turtle`: prefixed where a declaration allows.
    fn path_in(&self, turtle: &Turtle) -> (r: String)
        ensures
            r@ == path_text(self@, turtle@),
    {
        match turtle.shorten(self.path.as_str()) {
            Some(s) => s,
            None => {
                let mut r = String::from_str("<");
                r.append(self.path.as_str());
                r.append(">");
                r
            },
        }
    }

    /// The snippet part for this property, taking the next placeholder
    /// number.
    pub fn into_edit_part(&self, turtle: &Turtle, index: &mut usize) -> (r: String)
        requires
            *old(index) < usize::MAX,
        ensures
            *final(index) == *old(index) + 1,
            r@ == edit_part(self@, turtle@, (*old(index) + 1) as nat),
    {
        *index = *index + 1;
        let path = self.path_in(turtle);
        let n = crate::triples::decimal_string(*index);
        let mut r = path;
        r.append(" ");
        match &self.name {
            Some(name) => {
                r.append("${");
                r.append(n.as_str());
                r.append(":");
                r.append(name.as_str());
                r.append("}");
            },
            None => {
                r.append("$");
                r.append(n.as_str());
            },
        }
        r
    }

    /// A completion that writes the property's path at `range`.
    pub fn into_completion(&self, turtle: &Turtle, range: TextRange) -> (r: SimpleCompletion)
        ensures
            r@ == property_completion(self@, turtle@, range),
    {
        let path = self.path_in(turtle);
        let mut edits: Vec<TextEdit> = Vec::new();
        edits.push(TextEdit { new_text: path.clone(), range });
        let mut label = path.clone();
        label.append(" (class property)");
        let r = SimpleCompletion {
            kind: CompletionKind::Property,
            label,
            documentation: self.name.clone(),
            filter_text: Some(path),
            sort_text: None,
            edits,
        };
        assert(r@.edits =~= seq![r.edits@[0]@]);
        r
    }
}

/// The text of the snippet for a shape named `clazz_id`.
pub open spec fn snippet_text(s: ShapeV, d: TurtleV, clazz_id: Seq<char>) -> Seq<char> {
    clazz_id + ";\n    "@ + join(req_parts(d, s.properties), ";\n    "@) + "."@
}

/// The description of the snippet for a shape named `clazz_id`.
pub open spec fn snippet_doc(s: ShapeV, clazz_id: Seq<char>) -> Seq<char> {
    "Snippet for "@ + clazz_id + ", with "@ + decimal(req_count(s.properties))
        + " reqruied properties (out of "@ + decimal(s.properties.len()) + ")"@
}

impl Shape {
    /// A snippet completion that writes the shape's class, prefixed, with
    /// one placeholder line per required property; none where the class
    /// cannot be written prefixed.
    pub fn into_completion(&self, turtle: &Turtle, range: TextRange) -> (r: Option<
        SimpleCompletion,
    >)
        ensures
            match r {
                Some(c) => shape_completion(self@, turtle@, range) == Some(c@),
                None => shape_completion(self@, turtle@, range) is None,
            },
    {
        let ghost props = self@.properties;
        let mut index: usize = 0;
        let mut fields = String::new();
        let mut i: usize = 0;
        while i < self.properties.len()
            invariant
                0 <= i <= self.properties.len(),
                props == self@.properties,
                index == req_count(props.take(i as int)),
                index <= i,
                fields@ == join(req_parts(turtle@, props.take(i as int)), ";\n    "@),
            decreases self.properties.len() - i,
        {
            proof {
                assert(props.take(i + 1).drop_last() =~= props.take(i as int));
                assert(props.take(i + 1).last() == props[i as int]);
            }
            let p = &self.properties[i];
            let req = match p.min_count {
                Some(c) => c > 0,
                None => false,
            };
            if req {
                let ghost before = req_parts(turtle@, props.take(i as int));
                proof {
                    lemma_req_parts_len(turtle@, props.take(i as int));
                }
                let part = p.into_edit_part(turtle, &mut index);
                if index > 1 {
                    fields.append(";\n    ");
                }
                fields.append(part.as_str());
                proof {
                    assert(req_parts(turtle@, props.take(i + 1)) == before.push(part@));
                    assert(before.push(part@).drop_last() =~= before);
                    if before.len() == 0 {
                        assert(before.push(part@)[0] == part@);
                    }
                }
            }
            i = i + 1;
            proof {
                lemma_req_parts_len(turtle@, props.take(i as int));
            }
        }
        proof {
            assert(props.take(self.properties.len() as int) =~= props);
        }
        let clazz_id = turtle.shorten(self.name())?;
        let mut new_text = clazz_id.clone();
        new_text.append(";\n    ");
        new_text.append(fields.as_str());
        new_text.append(".");
        let mut edits: Vec<TextEdit> = Vec::new();
        edits.push(TextEdit { new_text, range });
        let mut description = String::from_str("Snippet for ");
        description.append(clazz_id.as_str());
        description.append(", with ");
        let rq = crate::triples::decimal_string(index);
        description.append(rq.as_str());
        description.append(" reqruied properties (out of ");
        let total = crate::triples::decimal_string(self.properties.len());
        description.append(total.as_str());
        description.append(")");
        let mut label = clazz_id.clone();
        label.append(" (snippet)");
        let r = SimpleCompletion {
            kind: CompletionKind::Snippet,
            label,
            filter_text: Some(clazz_id),
            sort_text: None,
            documentation: Some(description),
            edits,
        };
        assert(r@.edits =~= seq![r.edits@[0]@]);
        Some(r)
    }
}

proof fn lemma_req_parts_len(d: TurtleV, props: Seq<PropertyV>)
    ensures
        req_parts(d, props).len() == req_count(props),
    decreases props.len(),
{
    if props.len() > 0 {
        lemma_req_parts_len(d, props.drop_last());
    }
}

/// The state of the shape completion provider.
#[derive(Clone, Debug, Default)]
pub struct ShapeCompletionProviderState {}

/// The snippet completion for a shape, where its name can be written
/// prefixed.
pub open spec fn shape_completion(s: ShapeV, d: TurtleV, range: TextRange) -> Option<
    SimpleCompletionV,
> {
    match shorten_from(d, shape_name(s), 0) {
        None => None,
        Some(clazz_id) => Some(
            SimpleCompletionV {
                kind: CompletionKind::Snippet,
                label: clazz_id + " (snippet)"@,
                documentation: Some(snippet_doc(s, clazz_id)),
                sort_text: None,
                filter_text: Some(clazz_id),
                edits: seq![TextEditV { new_text: snippet_text(s, d, clazz_id), range }],
            },
        ),
    }
}

/// The snippet completions of the shapes from the `i`-th on whose name is
/// `class`, in order.
pub open spec fn snippets_from(
    shapes: Seq<ShapeV>,
    class: Seq<char>,
    d: TurtleV,
    range: TextRange,
    i: int,
) -> Seq<SimpleCompletionV>
    decreases shapes.len() - i,
{
    if !(0 <= i < shapes.len()) {
        Seq::empty()
    } else {
        let rest = snippets_from(shapes, class, d, range, i + 1);
        if shape_name(shapes[i]) == class {
            match shape_completion(shapes[i], d, range) {
                Some(c) => seq![c] + rest,
                None => rest,
            }
        } else {
            rest
        }
    }
}

pub(crate) fn str_eq(a: &str, b: &str) -> (r: bool)
    ensures
        r == (a@ == b@),
{
    let ac = crate::text::chars_of(a);
    let bc = crate::text::chars_of(b);
    if ac.len() != bc.len() {
        return false;
    }
    let mut i: usize = 0;
    while i < ac.len()
        invariant
            ac@ == a@,
            bc@ == b@,
            ac.len() == bc.len(),
            0 <= i <= ac.len(),
            forall|k: int| 0 <= k < i ==> ac@[k] == bc@[k],
        decreases ac.len() - i,
    {
        if ac[i] != bc[i] {
            return false;
        }
        i = i + 1;
    }
    assert(a@ =~= b@);
    true
}

pub open spec fn completions_view(v: Seq<SimpleCompletion>) -> Seq<SimpleCompletionV> {
    v.map_values(|c: SimpleCompletion| c@)
}

/// Adds to `completions` the snippet of each shape in `shapes` whose name
/// is `class`, in order (the shapes whose name cannot be written prefixed
/// give none).
pub fn find_snippets(
    shapes: &Vec<Shape>,
    class: &str,
    turtle: &Turtle,
    range: TextRange,
    completions: &mut Vec<SimpleCompletion>,
)
    ensures
        completions_view(final(completions)@) == completions_view(old(completions)@)
            + snippets_from(shapes@.map_values(|s: Shape| s@), class@, turtle@, range, 0),
{
    let ghost sv = shapes@.map_values(|s: Shape| s@);
    let ghost start = completions_view(completions@);
    let mut i: usize = 0;
    while i < shapes.len()
        invariant
            0 <= i <= shapes.len(),
            sv == shapes@.map_values(|s: Shape| s@),
            start == completions_view(old(completions)@),
            completions_view(completions@) + snippets_from(sv, class@, turtle@, range, i as int)
                == start + snippets_from(sv, class@, turtle@, range, 0),
        decreases shapes.len() - i,
    {
        let shape = &shapes[i];
        let ghost before = completions@;
        assert(sv[i as int] == shape@);
        if str_eq(shape.name(), class) {
            match shape.into_completion(turtle, range) {
                Some(c) => {
                    completions.push(c);
                    assert(completions_view(completions@) =~= completions_view(before).push(c@));
                    assert(completions_view(completions@) + snippets_from(
                        sv,
                        class@,
                        turtle@,
                        range,
                        i + 1,
                    ) =~= completions_view(before) + snippets_from(
                        sv,
                        class@,
                        turtle@,
                        range,
                        i as int,
                    ));
                },
                None => {},
            }
        }
        i = i + 1;
    }
    assert(completions_view(completions@) =~= completions_view(completions@) + snippets_from(
        sv,
        class@,
        turtle@,
        range,
        i as int,
    ));
}

proof fn lemma_digit_char(d: nat)
    requires
        d < 10,
    ensures
        '0' <= digit_char(d) <= '9',
        digit_value(digit_char(d)) == d,
{
}

proof fn lemma_decimal_digits(n: nat)
    ensures
        decimal(n).len() > 0,
        all_digits(decimal(n)),
        digits_value(decimal(n)) == n,
    decreases n,
{
    if n < 10 {
        lemma_digit_char(n);
        assert(decimal(n).drop_last() =~= Seq::<char>::empty());
        assert(decimal(n).last() == digit_char(n));
        assert(digits_value(decimal(n)) == digits_value(Seq::<char>::empty()) * 10 + digit_value(
            digit_char(n),
        ));
    } else {
        lemma_decimal_digits(n / 10);
        lemma_digit_char(n % 10);
        let s = decimal(n / 10);
        assert(decimal(n).drop_last() =~= s);
        assert(decimal(n).last() == digit_char(n % 10));
        assert(digits_value(decimal(n)) == digits_value(s) * 10 + digit_value(digit_char(n % 10)));
        assert((n / 10) * 10 + n % 10 == n) by (nonlinear_arith);
        assert forall|i: int| 0 <= i < decimal(n).len() implies '0' <= #[trigger] decimal(n)[i]
            <= '9' by {
            if i < s.len() {
                assert(decimal(n)[i] == s[i]);
            }
        }
    }
}

/// A count written in decimal reads back as the same count.
pub proof fn lemma_count_roundtrip(n: usize)
    ensures
        parse_count(decimal(n as nat)) == Some(n),
{
    lemma_decimal_digits(n as nat);
    let s = decimal(n as nat);
    assert('0' <= s[0] <= '9');
}

} // verus!
