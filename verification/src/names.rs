//! Expanded names, attribute payloads, and qualified names.
use vstd::prelude::*;

verus! {

/// A (namespace, local-name) pair uniquely identifying an attribute or tag
/// across namespaces.
#[derive(Debug, PartialEq, Eq, Hash, Clone)]
pub struct ExpandedName {
    /// Namespace URL.
    pub ns: String,
    /// "Local" part of the name.
    pub local: String,
}

/// The non-identifying parts of an attribute. Two attributes are equal iff
/// their values match; the prefix is serialization-only metadata and is
/// excluded from equality by design.
#[derive(Debug, Clone)]
pub struct Attribute {
    /// The namespace prefix, if any.
    pub prefix: Option<String>,
    /// The attribute value.
    pub value: String,
}

/// A fully qualified name as serialization emits it: prefix, namespace and
/// local name.
#[derive(Debug, Clone, PartialEq)]
pub struct QualName {
    /// The namespace prefix, if any.
    pub prefix: Option<String>,
    /// Namespace URL.
    pub ns: String,
    /// "Local" part of the name.
    pub local: String,
}

/// The mathematical value of an expanded name: (namespace, local).
pub open spec fn name_view(n: ExpandedName) -> (Seq<char>, Seq<char>) {
    (n.ns@, n.local@)
}

/// The mathematical value of an attribute payload: (prefix, value).
pub open spec fn attr_view(a: Attribute) -> (Option<Seq<char>>, Seq<char>) {
    (
        match a.prefix {
            Some(p) => Some(p@),
            None => None,
        },
        a.value@,
    )
}

/// The mathematical value of a qualified name: (prefix, namespace, local).
pub open spec fn qual_view(q: QualName) -> (Option<Seq<char>>, Seq<char>, Seq<char>) {
    (
        match q.prefix {
            Some(p) => Some(p@),
            None => None,
        },
        q.ns@,
        q.local@,
    )
}

impl ExpandedName {
    /// Trivial constructor.
    pub fn new(ns: &str, local: &str) -> (r: ExpandedName)
        ensures
            name_view(r) == (ns@, local@),
    {
        ExpandedName { ns: String::from_str(ns), local: String::from_str(local) }
    }
}

impl PartialEq for Attribute {
    /// Attribute equality compares values only: the prefix is excluded.
    fn eq(&self, other: &Attribute) -> (r: bool) {
        self.value == other.value
    }
}

impl vstd::std_specs::cmp::PartialEqSpecImpl for Attribute {
    open spec fn obeys_eq_spec() -> bool {
        true
    }

    open spec fn eq_spec(&self, other: &Attribute) -> bool {
        self.value@ == other.value@
    }
}

/// Clone an expanded name, preserving its value.
pub fn clone_name(n: &ExpandedName) -> (r: ExpandedName)
    ensures
        name_view(r) == name_view(*n),
{
    ExpandedName { ns: n.ns.clone(), local: n.local.clone() }
}

/// Clone a qualified name, preserving its value.
pub fn clone_qual(q: &QualName) -> (r: QualName)
    ensures
        qual_view(r) == qual_view(*q),
{
    let prefix = match &q.prefix {
        Some(p) => Some(p.clone()),
        None => None,
    };
    QualName { prefix, ns: q.ns.clone(), local: q.local.clone() }
}

/// Clone an attribute payload, preserving its value.
pub fn clone_attr(a: &Attribute) -> (r: Attribute)
    ensures
        attr_view(r) == attr_view(*a),
{
    let prefix = match &a.prefix {
        Some(p) => Some(p.clone()),
        None => None,
    };
    Attribute { prefix, value: a.value.clone() }
}

} // verus!
