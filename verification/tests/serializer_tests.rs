use dom_core::CaseSensitivity;
use dom_core::attributes::Attributes;
use dom_core::names::{Attribute, ExpandedName, QualName};
use dom_core::serializer::{Node, NodeData, ElementData, SerEvent, TraversalScope};

fn qual(local: &str) -> QualName {
    QualName { prefix: None, ns: "http://www.w3.org/1999/xhtml".to_string(), local: local.to_string() }
}

fn text(s: &str) -> Node {
    Node { data: NodeData::Text(s.to_string()), children: Vec::new() }
}

fn element(local: &str, attrs: &[(&str, &str)], children: Vec<Node>) -> Node {
    let pairs: Vec<(ExpandedName, Attribute)> = attrs
        .iter()
        .map(|(k, v)| (ExpandedName::new("", k), Attribute { prefix: None, value: v.to_string() }))
        .collect();
    Node {
        data: NodeData::Element(ElementData {
            name: qual(local),
            attributes: Attributes::new(pairs),
            template_contents: None,
        }),
        children,
    }
}

#[test]
fn element_include_node_events() {
    let n = element("div", &[("id", "main"), ("class", "a b")], vec![text("hi")]);
    let events = n.serialize(TraversalScope::IncludeNode);
    assert_eq!(events.len(), 3);
    match &events[0] {
        SerEvent::StartElem(name, attrs) => {
            assert_eq!(name.local, "div");
            assert_eq!(attrs.len(), 2);
            assert_eq!(attrs[0].0.local, "id");
            assert_eq!(attrs[0].1, "main");
            assert_eq!(attrs[1].0.local, "class");
            assert_eq!(attrs[1].1, "a b");
        }
        other => panic!("expected a start tag, got {:?}", other),
    }
    assert_eq!(events[1], SerEvent::Text("hi".to_string()));
    assert_eq!(events[2], SerEvent::EndElem(qual("div")));
}

#[test]
fn element_children_only_skips_tags() {
    let n = element("div", &[], vec![text("hi"), text("ho")]);
    let events = n.serialize(TraversalScope::ChildrenOnly);
    assert_eq!(
        events,
        vec![SerEvent::Text("hi".to_string()), SerEvent::Text("ho".to_string())]
    );
}

#[test]
fn template_contents_replace_direct_children() {
    let content_root = Node {
        data: NodeData::DocumentFragment,
        children: vec![text("from template"), element("b", &[], vec![])],
    };
    let n = Node {
        data: NodeData::Element(ElementData {
            name: qual("template"),
            attributes: Attributes::new(Vec::new()),
            template_contents: Some(Box::new(content_root)),
        }),
        children: vec![text("direct child")],
    };
    let events = n.serialize(TraversalScope::IncludeNode);
    assert_eq!(
        events,
        vec![
            SerEvent::StartElem(qual("template"), Vec::new()),
            SerEvent::Text("from template".to_string()),
            SerEvent::StartElem(qual("b"), Vec::new()),
            SerEvent::EndElem(qual("b")),
            SerEvent::EndElem(qual("template")),
        ]
    );
    assert!(!events.contains(&SerEvent::Text("direct child".to_string())));
}

#[test]
fn document_scope_transparent() {
    let doc = Node {
        data: NodeData::Document,
        children: vec![element("a", &[], vec![]), element("b", &[], vec![text("t")])],
    };
    let with_node = doc.serialize(TraversalScope::IncludeNode);
    let children_only = doc.serialize(TraversalScope::ChildrenOnly);
    assert_eq!(with_node, children_only);
    assert_eq!(
        with_node,
        vec![
            SerEvent::StartElem(qual("a"), Vec::new()),
            SerEvent::EndElem(qual("a")),
            SerEvent::StartElem(qual("b"), Vec::new()),
            SerEvent::Text("t".to_string()),
            SerEvent::EndElem(qual("b")),
        ]
    );
}

#[test]
fn leaf_children_only_is_empty() {
    let t = text("plain");
    assert_eq!(t.serialize(TraversalScope::ChildrenOnly), Vec::new());
    let c = Node { data: NodeData::Comment("note".to_string()), children: Vec::new() };
    assert_eq!(c.serialize(TraversalScope::ChildrenOnly), Vec::new());
}

#[test]
fn leaf_events() {
    let d = Node { data: NodeData::Doctype("html".to_string()), children: Vec::new() };
    assert_eq!(d.serialize(TraversalScope::IncludeNode), vec![SerEvent::Doctype("html".to_string())]);
    let c = Node { data: NodeData::Comment(" hi ".to_string()), children: Vec::new() };
    assert_eq!(c.serialize(TraversalScope::IncludeNode), vec![SerEvent::Comment(" hi ".to_string())]);
    let p = Node {
        data: NodeData::ProcessingInstruction("xml".to_string(), "version=\"1.0\"".to_string()),
        children: Vec::new(),
    };
    assert_eq!(
        p.serialize(TraversalScope::IncludeNode),
        vec![SerEvent::ProcessingInstruction("xml".to_string(), "version=\"1.0\"".to_string())]
    );
}

#[test]
fn attribute_round_trip_rebuilds_equal_store() {
    let n = element(
        "div",
        &[("id", "main"), ("class", "a b c"), ("data-k", "v")],
        vec![],
    );
    let events = n.serialize(TraversalScope::IncludeNode);
    let rebuilt = match &events[0] {
        SerEvent::StartElem(_, attrs) => {
            let pairs: Vec<(ExpandedName, Attribute)> = attrs
                .iter()
                .map(|(q, v)| {
                    (
                        ExpandedName::new(&q.ns, &q.local),
                        Attribute { prefix: q.prefix.clone(), value: v.clone() },
                    )
                })
                .collect();
            Attributes::new(pairs)
        }
        other => panic!("expected a start tag, got {:?}", other),
    };
    let original = match &n.data {
        NodeData::Element(ed) => &ed.attributes,
        _ => unreachable!(),
    };
    assert!(*original == rebuilt);
    // insertion order is preserved through the round trip
    let a = original.to_qual_attrs();
    let b = rebuilt.to_qual_attrs();
    assert_eq!(a, b);
    assert!(rebuilt.has_class("b", CaseSensitivity::CaseSensitive));
}

#[test]
fn requalified_attrs_carry_prefix_and_namespace() {
    let pairs = vec![(
        ExpandedName::new("http://www.w3.org/XML/1998/namespace", "lang"),
        Attribute { prefix: Some("xml".to_string()), value: "en".to_string() },
    )];
    let a = Attributes::new(pairs);
    let q = a.to_qual_attrs();
    assert_eq!(q.len(), 1);
    assert_eq!(q[0].0.prefix.as_deref(), Some("xml"));
    assert_eq!(q[0].0.ns, "http://www.w3.org/XML/1998/namespace");
    assert_eq!(q[0].0.local, "lang");
    assert_eq!(q[0].1, "en");
}
