//! Node identifiers, child references and node classes: the value types
//! that every engine in this crate works on.

use vstd::prelude::*;

verus! {

/// The typed identifier part of a node identifier: numeric, string, GUID
/// (sixteen raw bytes) or byte string.
#[derive(Debug)]
pub enum Identifier {
    Numeric(u32),
    Text(String),
    Guid(Vec<u8>),
    Bytes(Vec<u8>),
}

/// Spec-level shape of an `Identifier`.
pub enum IdentifierView {
    Numeric(u32),
    Text(Seq<char>),
    Guid(Seq<u8>),
    Bytes(Seq<u8>),
}

impl View for Identifier {
    type V = IdentifierView;

    open spec fn view(&self) -> IdentifierView {
        match self {
            Identifier::Numeric(n) => IdentifierView::Numeric(*n),
            Identifier::Text(s) => IdentifierView::Text(s@),
            Identifier::Guid(g) => IdentifierView::Guid(g@),
            Identifier::Bytes(b) => IdentifierView::Bytes(b@),
        }
    }
}

impl Clone for Identifier {
    fn clone(&self) -> (r: Identifier)
        ensures
            r@ == self@,
    {
        match self {
            Identifier::Numeric(n) => Identifier::Numeric(*n),
            Identifier::Text(s) => Identifier::Text(s.clone()),
            Identifier::Guid(g) => {
                let c = g.clone();
                proof {
                    assert(c@ =~= g@);
                }
                Identifier::Guid(c)
            },
            Identifier::Bytes(b) => {
                let c = b.clone();
                proof {
                    assert(c@ =~= b@);
                }
                Identifier::Bytes(c)
            },
        }
    }
}

/// One node identifier: a namespace index and a typed identifier.
/// Two identifiers are equal exactly when both parts match.
#[derive(Debug)]
pub struct NodeId {
    pub namespace: u16,
    pub identifier: Identifier,
}

/// Spec-level shape of a `NodeId`.
pub struct NodeIdView {
    pub namespace: u16,
    pub identifier: IdentifierView,
}

impl View for NodeId {
    type V = NodeIdView;

    open spec fn view(&self) -> NodeIdView {
        NodeIdView { namespace: self.namespace, identifier: self.identifier@ }
    }
}

impl IdentifierView {
    /// A GUID identifier carries exactly sixteen bytes.
    pub open spec fn wf(self) -> bool {
        match self {
            IdentifierView::Guid(g) => g.len() == 16,
            _ => true,
        }
    }
}

impl NodeIdView {
    pub open spec fn wf(self) -> bool {
        self.identifier.wf()
    }
}

impl NodeId {
    pub open spec fn wf(&self) -> bool {
        self@.wf()
    }
}

impl Clone for NodeId {
    fn clone(&self) -> (r: NodeId)
        ensures
            r@ == self@,
    {
        NodeId { namespace: self.namespace, identifier: self.identifier.clone() }
    }
}

impl PartialEq for Identifier {
    fn eq(&self, other: &Identifier) -> (r: bool) {
        match (self, other) {
            (Identifier::Numeric(a), Identifier::Numeric(b)) => a == b,
            (Identifier::Text(a), Identifier::Text(b)) => a.eq(b),
            (Identifier::Guid(a), Identifier::Guid(b)) => {
                let r = a == b;
                proof {
                    if r {
                        assert(a@ =~= b@);
                    } else {
                        if a@ == b@ {
                            assert(forall|i: int| 0 <= i < a@.len() ==> a@[i] == b@[i]);
                        }
                    }
                }
                r
            },
            (Identifier::Bytes(a), Identifier::Bytes(b)) => {
                let r = a == b;
                proof {
                    if r {
                        assert(a@ =~= b@);
                    } else {
                        if a@ == b@ {
                            assert(forall|i: int| 0 <= i < a@.len() ==> a@[i] == b@[i]);
                        }
                    }
                }
                r
            },
            _ => false,
        }
    }
}

impl vstd::std_specs::cmp::PartialEqSpecImpl for Identifier {
    open spec fn obeys_eq_spec() -> bool {
        true
    }

    open spec fn eq_spec(&self, other: &Identifier) -> bool {
        self@ == other@
    }
}

impl PartialEq for NodeId {
    fn eq(&self, other: &NodeId) -> (r: bool) {
        self.namespace == other.namespace && self.identifier == other.identifier
    }
}

impl vstd::std_specs::cmp::PartialEqSpecImpl for NodeId {
    open spec fn obeys_eq_spec() -> bool {
        true
    }

    open spec fn eq_spec(&self, other: &NodeId) -> bool {
        self@ == other@
    }
}

/// The class of a node in the address space.
#[derive(Clone, Copy, Debug, PartialEq, Eq, Structural)]
pub enum NodeClass {
    Object,
    Variable,
    Method,
    ObjectType,
    VariableType,
    ReferenceType,
    DataType,
    View,
    Unspecified,
}

/// One reference returned by browsing a node: the child's identifier, its
/// two names, its class, and an optional type definition.
#[derive(Debug)]
pub struct ChildReference {
    pub id: NodeId,
    pub display_name: String,
    pub browse_name: String,
    pub node_class: NodeClass,
    pub type_definition: Option<NodeId>,
}

/// Spec-level shape of a `ChildReference`.
pub struct ChildReferenceView {
    pub id: NodeIdView,
    pub display_name: Seq<char>,
    pub browse_name: Seq<char>,
    pub node_class: NodeClass,
    pub type_definition: Option<NodeIdView>,
}

impl View for ChildReference {
    type V = ChildReferenceView;

    open spec fn view(&self) -> ChildReferenceView {
        ChildReferenceView {
            id: self.id@,
            display_name: self.display_name@,
            browse_name: self.browse_name@,
            node_class: self.node_class,
            type_definition: match self.type_definition {
                Some(t) => Some(t@),
                None => None,
            },
        }
    }
}

impl ChildReferenceView {
    pub open spec fn wf(self) -> bool {
        &&& self.id.wf()
        &&& match self.type_definition {
                Some(t) => t.wf(),
                None => true,
            }
    }
}

impl ChildReference {
    pub open spec fn wf(&self) -> bool {
        self@.wf()
    }
}

impl Clone for ChildReference {
    fn clone(&self) -> (r: ChildReference)
        ensures
            r@ == self@,
    {
        ChildReference {
            id: self.id.clone(),
            display_name: self.display_name.clone(),
            browse_name: self.browse_name.clone(),
            node_class: self.node_class,
            type_definition: match &self.type_definition {
                Some(t) => Some(t.clone()),
                None => None,
            },
        }
    }
}

/// Spec values of the five well-known folder identifiers (namespace 0).
pub open spec fn root_folder_view() -> NodeIdView {
    NodeIdView { namespace: 0, identifier: IdentifierView::Numeric(84) }
}

pub open spec fn objects_folder_view() -> NodeIdView {
    NodeIdView { namespace: 0, identifier: IdentifierView::Numeric(85) }
}

pub open spec fn types_folder_view() -> NodeIdView {
    NodeIdView { namespace: 0, identifier: IdentifierView::Numeric(86) }
}

pub open spec fn views_folder_view() -> NodeIdView {
    NodeIdView { namespace: 0, identifier: IdentifierView::Numeric(87) }
}

pub open spec fn server_object_view() -> NodeIdView {
    NodeIdView { namespace: 0, identifier: IdentifierView::Numeric(2253) }
}

/// The standard Root folder, `ns=0;i=84`.
pub fn root_folder_id() -> (r: NodeId)
    ensures
        r@ == root_folder_view(),
        r.wf(),
{
    NodeId { namespace: 0, identifier: Identifier::Numeric(84) }
}

/// The standard Objects folder, `ns=0;i=85`.
pub fn objects_folder_id() -> (r: NodeId)
    ensures
        r@ == objects_folder_view(),
        r.wf(),
{
    NodeId { namespace: 0, identifier: Identifier::Numeric(85) }
}

/// The standard Types folder, `ns=0;i=86`.
pub fn types_folder_id() -> (r: NodeId)
    ensures
        r@ == types_folder_view(),
        r.wf(),
{
    NodeId { namespace: 0, identifier: Identifier::Numeric(86) }
}

/// The standard Views folder, `ns=0;i=87`.
pub fn views_folder_id() -> (r: NodeId)
    ensures
        r@ == views_folder_view(),
        r.wf(),
{
    NodeId { namespace: 0, identifier: Identifier::Numeric(87) }
}

/// The standard Server object, `ns=0;i=2253`.
pub fn server_object_id() -> (r: NodeId)
    ensures
        r@ == server_object_view(),
        r.wf(),
{
    NodeId { namespace: 0, identifier: Identifier::Numeric(2253) }
}

} // verus!
