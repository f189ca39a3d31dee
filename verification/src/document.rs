use vstd::prelude::*;

verus! {

/// A document as a tree of plain values: what the manifest is decoded from.
pub enum Node {
    Null,
    Bool(bool),
    /// A number; `None` where it is no integer of 64 bits with a sign.
    Number(Option<i64>),
    Text(String),
    List(Vec<Node>),
    /// Named members, in the order of the document.
    Object(Vec<(String, Node)>),
}

/// A `Node` as a mathematical tree.
pub enum NodeView {
    Null,
    Bool(bool),
    Number(Option<i64>),
    Text(Seq<char>),
    List(Seq<NodeView>),
    Object(Seq<(Seq<char>, NodeView)>),
}

impl View for Node {
    type V = NodeView;

    open spec fn view(&self) -> NodeView
        decreases self,
    {
        match self {
            Node::Null => NodeView::Null,
            Node::Bool(b) => NodeView::Bool(*b),
            Node::Number(n) => NodeView::Number(*n),
            Node::Text(text) => NodeView::Text(text@),
            Node::List(items) => NodeView::List(
                Seq::new(
                    items@.len(),
                    |i: int|
                        if 0 <= i < items@.len() {
                            items@[i]@
                        } else {
                            NodeView::Null
                        },
                ),
            ),
            Node::Object(members) => NodeView::Object(
                Seq::new(
                    members@.len(),
                    |i: int|
                        if 0 <= i < members@.len() {
                            (members@[i].0@, members@[i].1@)
                        } else {
                            (Seq::empty(), NodeView::Null)
                        },
                ),
            ),
        }
    }
}

/// The members of an object, as its view has them.
pub open spec fn members_of(members: Seq<(String, Node)>) -> Seq<(Seq<char>, NodeView)> {
    Seq::new(members.len(), |i: int| (members[i].0@, members[i].1@))
}

/// The elements of a list, as its view has them.
pub open spec fn items_of(items: Seq<Node>) -> Seq<NodeView> {
    Seq::new(items.len(), |i: int| items[i]@)
}

/// The view of an object is the object of its members' views.
pub proof fn lemma_object_view(members: Vec<(String, Node)>)
    ensures
        Node::Object(members)@ == NodeView::Object(members_of(members@)),
{
    reveal_with_fuel(<Node as View>::view, 2);
    assert(Node::Object(members)@->Object_0 =~= members_of(members@));
}

/// The view of a list is the list of its elements' views.
pub proof fn lemma_list_view(items: Vec<Node>)
    ensures
        Node::List(items)@ == NodeView::List(items_of(items@)),
{
    reveal_with_fuel(<Node as View>::view, 2);
    assert(Node::List(items)@->List_0 =~= items_of(items@));
}

/// What an XML text converts to, where the conversion accepts it.
pub uninterp spec fn xml_document(xml: Seq<char>) -> Option<NodeView>;

/// The tree that a JSON value holds.
pub uninterp spec fn json_tree(value: serde_json::Value) -> NodeView;

#[verifier::external_type_specification]
#[verifier::external_body]
pub struct ExJsonValue(serde_json::Value);

/// Calls `quickxml_to_serde::xml_string_to_json` with the crate's default
/// configuration: attributes are named with a leading `@`, the text of an
/// element that has attributes is named `#text`, elements of one name under
/// one parent become a list, and text that reads as a number or a truth value
/// becomes one. The result is a function of the text alone; `None` stands for
/// the crate's error, which it gives on text that it cannot read as XML.
#[verifier::external_body]
fn xml_to_json(xml: String) -> (converted: Option<serde_json::Value>)
    ensures
        match converted {
            Some(value) => xml_document(xml@) == Some(json_tree(value)),
            None => xml_document(xml@) is None,
        },
{
    quickxml_to_serde::xml_string_to_json(xml, &quickxml_to_serde::Config::new_with_defaults()).ok()
}

/// Copies a `serde_json::Value` into a `Node`, variant by variant. A number
/// is kept as `serde_json::Number::as_i64` gives it; the members of an object
/// come in the order in which `serde_json::Map::iter` yields them.
#[verifier::external_body]
fn node_of(value: &serde_json::Value) -> (node: Node)
    ensures
        node@ == json_tree(*value),
{
    match value {
        serde_json::Value::Null => Node::Null,
        serde_json::Value::Bool(b) => Node::Bool(*b),
        serde_json::Value::Number(n) => Node::Number(n.as_i64()),
        serde_json::Value::String(text) => Node::Text(text.clone()),
        serde_json::Value::Array(items) => Node::List(items.iter().map(node_of).collect()),
        serde_json::Value::Object(members) => Node::Object(
            members.iter().map(|(name, member)| (name.clone(), node_of(member))).collect(),
        ),
    }
}

/// Reads an XML text into a document tree. `None` where the text cannot be
/// read as XML.
pub fn parse_xml(xml: String) -> (document: Option<Node>)
    ensures
        match document {
            Some(node) => xml_document(xml@) == Some(node@),
            None => xml_document(xml@) is None,
        },
{
    match xml_to_json(xml) {
        Some(value) => Some(node_of(&value)),
        None => None,
    }
}

} // verus!
