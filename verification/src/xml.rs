//! The XML document an artifact is written in, as plain values.
//!
//! roxmltree parses the text; what the artifact loader reads of the result
//! is held here as a flat list of nodes in document order, each with its
//! id, its parent's id, whether it is an element, its local tag name and
//! its attributes in document order.
use vstd::prelude::*;

use crate::text::chars_eq;

verus! {

/// One attribute: its local name and its value.
#[derive(Debug, PartialEq, Eq)]
pub struct XmlAttribute {
    pub name: String,
    pub value: String,
}

/// One node of a parsed document.
#[derive(Debug, PartialEq, Eq)]
pub struct XmlNode {
    /// The node's id within its document.
    pub id: usize,
    /// The id of the node's parent; `None` only for the document root.
    pub parent: Option<usize>,
    pub is_element: bool,
    /// The local tag name; empty for a node that is not an element.
    pub name: String,
    pub attributes: Vec<XmlAttribute>,
}

/// The value of an [`XmlNode`].
pub struct XmlNodeView {
    pub id: usize,
    pub parent: Option<usize>,
    pub is_element: bool,
    pub name: Seq<char>,
    pub attributes: Seq<(Seq<char>, Seq<char>)>,
}

impl View for XmlNode {
    type V = XmlNodeView;

    open spec fn view(&self) -> XmlNodeView {
        XmlNodeView {
            id: self.id,
            parent: self.parent,
            is_element: self.is_element,
            name: self.name@,
            attributes: self.attributes@.map_values(|a: XmlAttribute| (a.name@, a.value@)),
        }
    }
}

pub open spec fn node_views(nodes: Seq<XmlNode>) -> Seq<XmlNodeView> {
    nodes.map_values(|n: XmlNode| n@)
}

/// The nodes roxmltree parses `text` into, in document order, or the text
/// of its parse error.
pub uninterp spec fn xml_document(text: Seq<char>) -> Result<Seq<XmlNodeView>, Seq<char>>;

pub open spec fn parsed_view(r: Result<Vec<XmlNode>, String>) -> Result<Seq<XmlNodeView>, Seq<char>> {
    match r {
        Ok(v) => Ok(node_views(v@)),
        Err(e) => Err(e@),
    }
}

/// `roxmltree::Document::parse`, with every node of the result (from
/// `Document::descendants`) copied out as an [`XmlNode`].
#[verifier::external_body]
pub(crate) fn parse_document(text: &str) -> (r: Result<Vec<XmlNode>, String>)
    ensures
        parsed_view(r) == xml_document(text@),
{
    let doc = roxmltree::Document::parse(text).map_err(|e| e.to_string())?;
    Ok(doc.descendants().map(|n| XmlNode {
        id: n.id().get_usize(),
        parent: n.parent().map(|p| p.id().get_usize()),
        is_element: n.is_element(),
        name: n.tag_name().name().to_string(),
        attributes: n.attributes().map(|a| XmlAttribute {
            name: a.name().to_string(),
            value: a.value().to_string(),
        }).collect(),
    }).collect())
}

// ---------------------------------------------------------------------------
// Reading the node list
// ---------------------------------------------------------------------------

/// The value of the first attribute named `name`, if any.
pub open spec fn attr_in(attrs: Seq<(Seq<char>, Seq<char>)>, name: Seq<char>) -> Option<Seq<char>>
    decreases attrs.len(),
{
    if attrs.len() == 0 {
        None
    } else if attrs[0].0 == name {
        Some(attrs[0].1)
    } else {
        attr_in(attrs.drop_first(), name)
    }
}

/// The value of attribute `name` of node `n`.
pub open spec fn attr(n: XmlNodeView, name: Seq<char>) -> Option<Seq<char>> {
    attr_in(n.attributes, name)
}

/// The positions, in document order, of the element children of the node
/// at position `k`.
pub open spec fn element_children(nodes: Seq<XmlNodeView>, k: int) -> Seq<int> {
    Seq::new(nodes.len(), |i: int| i).filter(
        |i: int| nodes[i].is_element && nodes[i].parent == Some(nodes[k].id),
    )
}

/// The position of the document's root element: the first element child
/// of the document root (the first node).
pub open spec fn root_element(nodes: Seq<XmlNodeView>) -> Option<int> {
    if nodes.len() > 0 && element_children(nodes, 0).len() > 0 {
        Some(element_children(nodes, 0)[0])
    } else {
        None
    }
}

/// The value of attribute `name` of `node`.
pub fn attribute<'a>(node: &'a XmlNode, name: &str) -> (r: Option<&'a str>)
    ensures
        match r {
            Some(v) => attr(node@, name@) == Some(v@),
            None => attr(node@, name@) is None,
        },
{
    let want = crate::text::chars_of(name);
    let ghost all = node@.attributes;
    let mut i: usize = 0;
    assert(all.subrange(0, all.len() as int) =~= all);
    while i < node.attributes.len()
        invariant
            i <= node.attributes@.len(),
            all == node@.attributes,
            want@ == name@,
            attr_in(all, name@) == attr_in(all.subrange(i as int, all.len() as int), name@),
        decreases node.attributes@.len() - i,
    {
        let ghost rest = all.subrange(i as int, all.len() as int);
        assert(rest.drop_first() =~= all.subrange(i + 1, all.len() as int));
        assert(rest[0] == (node.attributes@[i as int].name@, node.attributes@[i as int].value@));
        let a = &node.attributes[i];
        let have = crate::text::chars_of(a.name.as_str());
        if chars_eq(&have, &want) {
            return Some(a.value.as_str());
        }
        i = i + 1;
    }
    None
}

proof fn lemma_filter_step(nodes: Seq<XmlNodeView>, k: int, i: nat)
    requires
        0 <= k < nodes.len(),
        0 <= i < nodes.len(),
    ensures
        Seq::new(i + 1, |j: int| j).filter(
            |j: int| nodes[j].is_element && nodes[j].parent == Some(nodes[k].id),
        ) == if nodes[i as int].is_element && nodes[i as int].parent == Some(nodes[k].id) {
            Seq::new(i, |j: int| j).filter(
                |j: int| nodes[j].is_element && nodes[j].parent == Some(nodes[k].id),
            ).push(i as int)
        } else {
            Seq::new(i, |j: int| j).filter(
                |j: int| nodes[j].is_element && nodes[j].parent == Some(nodes[k].id),
            )
        },
{
    let s = Seq::new(i + 1, |j: int| j);
    assert(s.drop_last() =~= Seq::new(i, |j: int| j));
    reveal_with_fuel(Seq::filter, 1);
}

/// The positions of the element children of the node at position `k`.
pub fn children_of(nodes: &Vec<XmlNode>, k: usize) -> (r: Vec<usize>)
    requires
        k < nodes@.len(),
    ensures
        r@.map_values(|i: usize| i as int) == element_children(node_views(nodes@), k as int),
        forall|j: int| 0 <= j < r@.len() ==> #[trigger] r@[j] < nodes@.len(),
{
    let ghost v = node_views(nodes@);
    let want = nodes[k].id;
    let mut r: Vec<usize> = Vec::new();
    let mut i: usize = 0;
    while i < nodes.len()
        invariant
            i <= nodes@.len(),
            k < nodes@.len(),
            v == node_views(nodes@),
            want == v[k as int].id,
            r@.map_values(|x: usize| x as int) == Seq::new(i as nat, |j: int| j).filter(
                |j: int| v[j].is_element && v[j].parent == Some(v[k as int].id),
            ),
            forall|j: int| 0 <= j < r@.len() ==> #[trigger] r@[j] < i,
        decreases nodes@.len() - i,
    {
        proof {
            lemma_filter_step(v, k as int, i as nat);
        }
        let n = &nodes[i];
        let hit = n.is_element && match n.parent {
            Some(p) => p == want,
            None => false,
        };
        let ghost before = r@.map_values(|x: usize| x as int);
        if hit {
            r.push(i);
            assert(r@.map_values(|x: usize| x as int) =~= before.push(i as int));
        }
        i = i + 1;
    }
    assert(Seq::new(nodes@.len(), |j: int| j) =~= Seq::new(v.len(), |j: int| j));
    r
}

} // verus!
