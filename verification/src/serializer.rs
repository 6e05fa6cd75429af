//! The tree serializer: a recursive walk over the document tree that emits a
//! sequence of structural events for an output sink, handling traversal scope
//! and template-content substitution.
use vstd::prelude::*;
use crate::attributes::Attributes;
use crate::mapext::{entry_views, map_entries_clone};
use crate::names::{QualName, clone_qual, qual_view};

verus! {

/// Whether serialization emits the node's own tags or only its descendants.
#[derive(Clone, Copy, PartialEq, Eq, Structural, Debug)]
pub enum TraversalScope {
    IncludeNode,
    ChildrenOnly,
}

/// The payload of an element node: tag name, attribute store and, for a
/// `<template>` element, the separately rooted content subtree.
pub struct ElementData {
    /// The qualified tag name.
    pub name: QualName,
    /// The element's attributes.
    pub attributes: Attributes,
    /// A template element's inert content subtree, serialized in place of the
    /// element's direct children.
    pub template_contents: Option<Box<Node>>,
}

/// The closed set of node variants of the document tree.
pub enum NodeData {
    Element(ElementData),
    Text(String),
    Comment(String),
    Doctype(String),
    ProcessingInstruction(String, String),
    Document,
    DocumentFragment,
}

/// A node of the document tree, owning its children.
pub struct Node {
    pub data: NodeData,
    pub children: Vec<Node>,
}

/// A structural serialization event handed to the output sink. The sink is
/// responsible for escaping and byte-level formatting.
#[derive(Debug, Clone, PartialEq)]
pub enum SerEvent {
    /// A start tag with its re-qualified attribute list, in insertion order.
    StartElem(QualName, Vec<(QualName, String)>),
    /// An end tag.
    EndElem(QualName),
    /// A doctype, carrying its name only.
    Doctype(String),
    /// Raw, unescaped text.
    Text(String),
    /// A comment's raw content.
    Comment(String),
    /// A processing instruction: target and data.
    ProcessingInstruction(String, String),
}

/// The mathematical value of a serialization event.
pub enum EventView {
    StartElem(
        (Option<Seq<char>>, Seq<char>, Seq<char>),
        Seq<((Option<Seq<char>>, Seq<char>, Seq<char>), Seq<char>)>,
    ),
    EndElem((Option<Seq<char>>, Seq<char>, Seq<char>)),
    Doctype(Seq<char>),
    Text(Seq<char>),
    Comment(Seq<char>),
    ProcessingInstruction(Seq<char>, Seq<char>),
}

impl View for SerEvent {
    type V = EventView;

    open spec fn view(&self) -> EventView {
        match self {
            SerEvent::StartElem(q, attrs) => EventView::StartElem(
                qual_view(*q),
                qattr_views(attrs@),
            ),
            SerEvent::EndElem(q) => EventView::EndElem(qual_view(*q)),
            SerEvent::Doctype(s) => EventView::Doctype(s@),
            SerEvent::Text(s) => EventView::Text(s@),
            SerEvent::Comment(s) => EventView::Comment(s@),
            SerEvent::ProcessingInstruction(t, d) => EventView::ProcessingInstruction(t@, d@),
        }
    }
}

/// The views of a list of events.
pub open spec fn events_view(es: Seq<SerEvent>) -> Seq<EventView> {
    es.map_values(|e: SerEvent| e@)
}

/// The views of a re-qualified attribute list.
pub open spec fn qattr_views(ps: Seq<(QualName, String)>) -> Seq<
    ((Option<Seq<char>>, Seq<char>, Seq<char>), Seq<char>),
> {
    ps.map_values(|p: (QualName, String)| (qual_view(p.0), p.1@))
}

/// Each store entry re-qualified for the sink: ((prefix, namespace, local), value).
pub open spec fn requalify(
    es: Seq<((Seq<char>, Seq<char>), (Option<Seq<char>>, Seq<char>))>,
) -> Seq<((Option<Seq<char>>, Seq<char>, Seq<char>), Seq<char>)> {
    es.map_values(
        |e: ((Seq<char>, Seq<char>), (Option<Seq<char>>, Seq<char>))|
            ((e.1.0, e.0.0, e.0.1), e.1.1),
    )
}

/// The inverse of re-qualification: ((namespace, local), (prefix, value)).
pub open spec fn dequalify(
    qs: Seq<((Option<Seq<char>>, Seq<char>, Seq<char>), Seq<char>)>,
) -> Seq<((Seq<char>, Seq<char>), (Option<Seq<char>>, Seq<char>))> {
    qs.map_values(
        |q: ((Option<Seq<char>>, Seq<char>, Seq<char>), Seq<char>)|
            ((q.0.1, q.0.2), (q.0.0, q.1)),
    )
}

/// The children a node's serialization recurses into: a template element's
/// content subtree children override its direct children.
pub open spec fn source_children(n: Node) -> Seq<Node> {
    match n.data {
        NodeData::Element(ed) => match ed.template_contents {
            Some(t) => t.children@,
            None => n.children@,
        },
        _ => n.children@,
    }
}

/// The events a node's serialization emits under the given scope.
pub open spec fn events_of(n: Node, scope: TraversalScope) -> Seq<EventView>
    decreases n, 1int,
{
    match n.data {
        NodeData::Element(ed) => {
            let inner = events_of_children(source_children(n));
            if scope == TraversalScope::IncludeNode {
                seq![
                    EventView::StartElem(
                        qual_view(ed.name),
                        requalify(ed.attributes.entries()),
                    ),
                ] + inner + seq![EventView::EndElem(qual_view(ed.name))]
            } else {
                inner
            }
        },
        NodeData::Document => events_of_children(n.children@),
        NodeData::DocumentFragment => events_of_children(n.children@),
        NodeData::Doctype(name) => if scope == TraversalScope::IncludeNode {
            seq![EventView::Doctype(name@)]
        } else {
            seq![]
        },
        NodeData::Text(t) => if scope == TraversalScope::IncludeNode {
            seq![EventView::Text(t@)]
        } else {
            seq![]
        },
        NodeData::Comment(t) => if scope == TraversalScope::IncludeNode {
            seq![EventView::Comment(t@)]
        } else {
            seq![]
        },
        NodeData::ProcessingInstruction(target, data) => if scope
            == TraversalScope::IncludeNode {
            seq![EventView::ProcessingInstruction(target@, data@)]
        } else {
            seq![]
        },
    }
}

/// The concatenated events of a list of nodes, each serialized with its own
/// tags included.
pub open spec fn events_of_children(cs: Seq<Node>) -> Seq<EventView>
    decreases cs, 0int,
{
    if cs.len() == 0 {
        Seq::empty()
    } else {
        events_of_children(cs.drop_last()) + events_of(cs.last(), TraversalScope::IncludeNode)
    }
}

/// Appending an event appends its view.
pub proof fn lemma_events_view_push(es: Seq<SerEvent>, e: SerEvent)
    ensures
        events_view(es.push(e)) == events_view(es).push(e@),
{
    assert forall|k: int| 0 <= k < es.len() + 1 implies events_view(es.push(e))[k] == events_view(
        es,
    ).push(e@)[k] by {
        if k < es.len() {
            assert(es.push(e)[k] == es[k]);
        } else {
            assert(es.push(e)[k] == e);
        }
    }
    assert(events_view(es.push(e)) =~= events_view(es).push(e@));
}

/// Appending a re-qualified attribute appends its view.
pub proof fn lemma_qattr_views_push(ps: Seq<(QualName, String)>, p: (QualName, String))
    ensures
        qattr_views(ps.push(p)) == qattr_views(ps).push((qual_view(p.0), p.1@)),
{
    assert forall|k: int| 0 <= k < ps.len() + 1 implies qattr_views(ps.push(p))[k] == qattr_views(
        ps,
    ).push((qual_view(p.0), p.1@))[k] by {
        if k < ps.len() {
            assert(ps.push(p)[k] == ps[k]);
        } else {
            assert(ps.push(p)[k] == p);
        }
    }
    assert(qattr_views(ps.push(p)) =~= qattr_views(ps).push((qual_view(p.0), p.1@)));
}

impl Attributes {
    /// The attribute list as serialization emits it: each attribute
    /// re-qualified with its prefix, namespace and local name, in order.
    pub fn to_qual_attrs(&self) -> (r: Vec<(QualName, String)>)
        ensures
            qattr_views(r@) == requalify(self.entries()),
    {
        let entries = map_entries_clone(&self.map);
        proof {
            crate::attributes::lemma_entries_def(*self);
            assert(entry_views(entries@) == self.entries());
        }
        let mut out: Vec<(QualName, String)> = Vec::new();
        let mut i: usize = 0;
        proof {
            assert(qattr_views(out@) =~= requalify(self.entries().take(0)));
        }
        while i < entries.len()
            invariant
                entry_views(entries@) == self.entries(),
                entries@.len() == self.entries().len(),
                0 <= i <= entries@.len(),
                qattr_views(out@) == requalify(self.entries().take(i as int)),
            decreases entries@.len() - i,
        {
            let p = &entries[i];
            let prefix = match &p.1.prefix {
                Some(pf) => Some(pf.clone()),
                None => None,
            };
            let q = QualName { prefix, ns: p.0.ns.clone(), local: p.0.local.clone() };
            let value = p.1.value.clone();
            proof {
                assert(self.entries()[i as int] == (
                    crate::names::name_view(entries@[i as int].0),
                    crate::names::attr_view(entries@[i as int].1),
                ));
                assert((qual_view(q), value@) == requalify(self.entries())[i as int]);
            }
            let ghost prev = out@;
            out.push((q, value));
            proof {
                lemma_qattr_views_push(prev, (q, value));
                assert forall|k: int|
                    0 <= k < i + 1 implies requalify(self.entries().take(i + 1))[k] == qattr_views(
                    out@,
                )[k] by {
                    assert(self.entries().take(i + 1)[k] == self.entries()[k]);
                    if k < i {
                        assert(self.entries().take(i as int)[k] == self.entries()[k]);
                        assert(qattr_views(out@)[k] == qattr_views(prev)[k]);
                    }
                }
                assert(qattr_views(out@) =~= requalify(self.entries().take(i + 1)));
            }
            i = i + 1;
        }
        proof {
            assert(self.entries().take(self.entries().len() as int) =~= self.entries());
        }
        out
    }
}

impl Node {
    /// Serialize this node into the sequence of structural events, emitting
    /// the node's own tags or only its descendants as the scope says.
    pub fn serialize(&self, traversal_scope: TraversalScope) -> (r: Vec<SerEvent>)
        ensures
            events_view(r@) == events_of(*self, traversal_scope),
    {
        let mut out: Vec<SerEvent> = Vec::new();
        proof {
            assert(events_view(out@) =~= Seq::empty());
        }
        self.write_events(traversal_scope, &mut out);
        proof {
            assert(Seq::empty() + events_of(*self, traversal_scope) =~= events_of(
                *self,
                traversal_scope,
            ));
        }
        out
    }

    /// Append this node's events under the given scope to the output.
    fn write_events(&self, traversal_scope: TraversalScope, out: &mut Vec<SerEvent>)
        ensures
            events_view(final(out)@) == events_view(old(out)@) + events_of(
                *self,
                traversal_scope,
            ),
        decreases *self, 1int,
    {
        match &self.data {
            NodeData::Element(element) => {
                if traversal_scope == TraversalScope::IncludeNode {
                    let attrs = element.attributes.to_qual_attrs();
                    let ev = SerEvent::StartElem(clone_qual(&element.name), attrs);
                    proof {
                        assert(ev@ == EventView::StartElem(
                            qual_view(element.name),
                            requalify(element.attributes.entries()),
                        ));
                    }
                    let ghost prev = out@;
                    out.push(ev);
                    proof {
                        lemma_events_view_push(prev, ev);
                        assert(events_view(out@) =~= events_view(old(out)@) + seq![ev@]);
                    }
                }
                let children: &Vec<Node> = match &element.template_contents {
                    Some(template_root) => &template_root.children,
                    None => &self.children,
                };
                proof {
                    assert(children@ == source_children(*self));
                }
                let ghost mid = out@;
                let mut i: usize = 0;
                proof {
                    assert(events_of_children(source_children(*self).take(0))
                        =~= Seq::<EventView>::empty());
                    assert(events_view(out@) =~= events_view(mid) + events_of_children(
                        source_children(*self).take(0),
                    ));
                }
                while i < children.len()
                    invariant
                        children@ == source_children(*self),
                        0 <= i <= children@.len(),
                        events_view(mid) == events_view(old(out)@) + (
                        if traversal_scope == TraversalScope::IncludeNode {
                            seq![
                                EventView::StartElem(
                                    qual_view(element.name),
                                    requalify(element.attributes.entries()),
                                ),
                            ]
                        } else {
                            Seq::<EventView>::empty()
                        }),
                        self.data is Element,
                        events_view(out@) == events_view(mid) + events_of_children(
                            source_children(*self).take(i as int),
                        ),
                    decreases children@.len() - i, *self, 0int,
                {
                    let child = &children[i];
                    proof {
                        assert(child == source_children(*self)[i as int]);
                    }
                    child.write_events(TraversalScope::IncludeNode, out);
                    proof {
                        let src = source_children(*self);
                        assert(src.take(i + 1).drop_last() =~= src.take(i as int));
                        assert(src.take(i + 1).last() == src[i as int]);
                        assert(events_view(out@) =~= events_view(mid) + events_of_children(
                            src.take(i + 1),
                        ));
                    }
                    i = i + 1;
                }
                proof {
                    let src = source_children(*self);
                    assert(src.take(src.len() as int) =~= src);
                }
                let ghost src = source_children(*self);
                let ghost start_ev = EventView::StartElem(
                    qual_view(element.name),
                    requalify(element.attributes.entries()),
                );
                let ghost end_ev = EventView::EndElem(qual_view(element.name));
                if traversal_scope == TraversalScope::IncludeNode {
                    let ev = SerEvent::EndElem(clone_qual(&element.name));
                    let ghost prev = out@;
                    proof {
                        assert(events_view(prev) == events_view(old(out)@) + seq![start_ev]
                            + events_of_children(src));
                        assert(events_of(*self, traversal_scope) == seq![start_ev]
                            + events_of_children(src) + seq![end_ev]);
                    }
                    out.push(ev);
                    proof {
                        lemma_events_view_push(prev, ev);
                        assert(ev@ == end_ev);
                        assert(events_view(out@) =~= events_view(old(out)@) + events_of(
                            *self,
                            traversal_scope,
                        ));
                    }
                } else {
                    proof {
                        assert(events_view(out@) == events_view(old(out)@) + events_of_children(
                            src,
                        ));
                        assert(events_of(*self, traversal_scope) == events_of_children(src));
                    }
                }
            },
            NodeData::Document | NodeData::DocumentFragment => {
                let ghost base = out@;
                let mut i: usize = 0;
                proof {
                    assert(events_of_children(self.children@.take(0))
                        =~= Seq::<EventView>::empty());
                    assert(events_view(out@) =~= events_view(base) + events_of_children(
                        self.children@.take(0),
                    ));
                }
                while i < self.children.len()
                    invariant
                        0 <= i <= self.children@.len(),
                        events_view(base) == events_view(old(out)@),
                        events_view(out@) == events_view(base) + events_of_children(
                            self.children@.take(i as int),
                        ),
                    decreases self.children@.len() - i, *self, 0int,
                {
                    let child = &self.children[i];
                    child.write_events(TraversalScope::IncludeNode, out);
                    proof {
                        let src = self.children@;
                        assert(src.take(i + 1).drop_last() =~= src.take(i as int));
                        assert(src.take(i + 1).last() == src[i as int]);
                        assert(events_view(out@) =~= events_view(base) + events_of_children(
                            src.take(i + 1),
                        ));
                    }
                    i = i + 1;
                }
                proof {
                    let src = self.children@;
                    assert(src.take(src.len() as int) =~= src);
                    assert(i as int == src.len());
                    assert(events_view(out@) == events_view(base) + events_of_children(src));
                    assert(events_of(*self, traversal_scope) == events_of_children(src));
                    assert(events_view(out@) =~= events_view(old(out)@) + events_of(
                        *self,
                        traversal_scope,
                    ));
                }
            },
            NodeData::Doctype(name) => {
                if traversal_scope == TraversalScope::IncludeNode {
                    let ev = SerEvent::Doctype(name.clone());
                    let ghost prev = out@;
                    out.push(ev);
                    proof {
                        lemma_events_view_push(prev, ev);
                        assert(events_view(out@) =~= events_view(old(out)@) + events_of(
                            *self,
                            traversal_scope,
                        ));
                    }
                } else {
                    proof {
                        assert(events_view(out@) =~= events_view(old(out)@) + events_of(
                            *self,
                            traversal_scope,
                        ));
                    }
                }
            },
            NodeData::Text(text) => {
                if traversal_scope == TraversalScope::IncludeNode {
                    let ev = SerEvent::Text(text.clone());
                    let ghost prev = out@;
                    out.push(ev);
                    proof {
                        lemma_events_view_push(prev, ev);
                        assert(events_view(out@) =~= events_view(old(out)@) + events_of(
                            *self,
                            traversal_scope,
                        ));
                    }
                } else {
                    proof {
                        assert(events_view(out@) =~= events_view(old(out)@) + events_of(
                            *self,
                            traversal_scope,
                        ));
                    }
                }
            },
            NodeData::Comment(text) => {
                if traversal_scope == TraversalScope::IncludeNode {
                    let ev = SerEvent::Comment(text.clone());
                    let ghost prev = out@;
                    out.push(ev);
                    proof {
                        lemma_events_view_push(prev, ev);
                        assert(events_view(out@) =~= events_view(old(out)@) + events_of(
                            *self,
                            traversal_scope,
                        ));
                    }
                } else {
                    proof {
                        assert(events_view(out@) =~= events_view(old(out)@) + events_of(
                            *self,
                            traversal_scope,
                        ));
                    }
                }
            },
            NodeData::ProcessingInstruction(target, data) => {
                if traversal_scope == TraversalScope::IncludeNode {
                    let ev = SerEvent::ProcessingInstruction(target.clone(), data.clone());
                    let ghost prev = out@;
                    out.push(ev);
                    proof {
                        lemma_events_view_push(prev, ev);
                        assert(events_view(out@) =~= events_view(old(out)@) + events_of(
                            *self,
                            traversal_scope,
                        ));
                    }
                } else {
                    proof {
                        assert(events_view(out@) =~= events_view(old(out)@) + events_of(
                            *self,
                            traversal_scope,
                        ));
                    }
                }
            },
        }
    }
}

/// Serializing a `<template>` element emits the template content's children,
/// never the element's direct children: the substitution is unconditional
/// when template content is present. (law)
pub proof fn lemma_template_substitution(n: Node)
    requires
        n.data is Element,
        n.data->Element_0.template_contents is Some,
    ensures
        ({
            let ed = n.data->Element_0;
            let inner = events_of_children(ed.template_contents->Some_0.children@);
            events_of(n, TraversalScope::IncludeNode) == seq![
                EventView::StartElem(qual_view(ed.name), requalify(ed.attributes.entries())),
            ] + inner + seq![EventView::EndElem(qual_view(ed.name))] && events_of(
                n,
                TraversalScope::ChildrenOnly,
            ) == inner
        }),
{
}

/// A document or fragment node never emits a tag of its own: every scope
/// serializes exactly its children. (law)
pub proof fn lemma_document_scope_transparent(n: Node, s1: TraversalScope, s2: TraversalScope)
    requires
        n.data is Document || n.data is DocumentFragment,
    ensures
        events_of(n, s1) == events_of(n, s2),
        events_of(n, s1) == events_of_children(n.children@),
{
}

/// A leaf node asked to serialize children only emits nothing.
pub proof fn lemma_leaf_children_only(n: Node)
    requires
        !(n.data is Element),
        !(n.data is Document),
        !(n.data is DocumentFragment),
    ensures
        events_of(n, TraversalScope::ChildrenOnly) == Seq::<EventView>::empty(),
{
}

/// Re-qualifying a store's entries for the sink and reading them back yields
/// the entries unchanged, so re-parsing serialized output rebuilds an equal
/// store with insertion order preserved. (law)
pub proof fn lemma_attr_round_trip(
    es: Seq<((Seq<char>, Seq<char>), (Option<Seq<char>>, Seq<char>))>,
)
    requires
        crate::mapext::unique_keys(es),
    ensures
        dequalify(requalify(es)) == es,
        crate::attributes::build_entries(dequalify(requalify(es))) == es,
{
    assert forall|i: int| 0 <= i < es.len() implies dequalify(requalify(es))[i] == es[i] by {
        let e = es[i];
        assert(requalify(es)[i] == ((e.1.0, e.0.0, e.0.1), e.1.1));
        assert(dequalify(requalify(es))[i] == ((e.0.0, e.0.1), (e.1.0, e.1.1)));
        assert(((e.0.0, e.0.1), (e.1.0, e.1.1)) == e);
    }
    assert(dequalify(requalify(es)) =~= es);
    crate::attributes::lemma_rebuild_identity(es);
}

} // verus!
