use vstd::prelude::*;
use crate::node::{elems_view, Node, NodeView};

verus! {

#[verifier::external_type_specification]
#[verifier::external_body]
pub struct ExValue(serde_json::Value);

/// Translates the library tree into the serde_json value of the same shape,
/// one variant to one variant, field order kept; a number's decimal text is
/// read back into a serde_json number, and text that is no JSON number
/// becomes null.
#[verifier::external_body]
fn node_to_json(n: &Node) -> serde_json::Value {
    match n {
        Node::Null => serde_json::Value::Null,
        Node::Bool(b) => serde_json::Value::Bool(*b),
        Node::Num(s) => match s.parse::<serde_json::Number>() {
            Ok(num) => serde_json::Value::Number(num),
            Err(_) => serde_json::Value::Null,
        },
        Node::Str(s) => serde_json::Value::String(s.clone()),
        Node::Arr(elems) => serde_json::Value::Array(elems.iter().map(node_to_json).collect()),
        Node::Obj(fields) => serde_json::Value::Object(
            fields.iter().map(|f| (f.0.clone(), node_to_json(&f.1))).collect(),
        ),
    }
}

/// Translates a serde_json value into the library tree of the same shape,
/// one variant to one variant, field order kept; a number becomes its
/// canonical decimal text.
#[verifier::external_body]
fn json_to_node(v: &serde_json::Value) -> Node {
    match v {
        serde_json::Value::Null => Node::Null,
        serde_json::Value::Bool(b) => Node::Bool(*b),
        serde_json::Value::Number(num) => Node::Num(num.to_string()),
        serde_json::Value::String(s) => Node::Str(s.clone()),
        serde_json::Value::Array(a) => Node::Arr(a.iter().map(json_to_node).collect()),
        serde_json::Value::Object(m) => Node::Obj(
            m.iter().map(|(k, x)| (k.clone(), json_to_node(x))).collect(),
        ),
    }
}

/// The one index literal whose arithmetic the evaluator cannot carry out:
/// the floor of machine integers.
pub open spec fn min_index_literal() -> Seq<char> {
    seq![
        '-',
        '9',
        '2',
        '2',
        '3',
        '3',
        '7',
        '2',
        '0',
        '3',
        '6',
        '8',
        '5',
        '4',
        '7',
        '7',
        '5',
        '8',
        '0',
        '8',
    ]
}

/// Whether the path must be kept away from the evaluator: a question mark
/// opens a filter expression, a colon a slice step, and the floor index
/// literal overflows index arithmetic — the three places the evaluator can
/// abort instead of answering.
pub open spec fn path_screened(p: Seq<char>) -> bool {
    ||| exists|i: int| 0 <= i < p.len() && (p[i] == '?' || p[i] == ':')
    ||| exists|i: int|
        0 <= i && i + 20 <= p.len() && #[trigger] p.subrange(i, i + 20) == min_index_literal()
}

/// What the path-query evaluator finds in the tree under the path: the
/// matched subtrees in evaluation order, or nothing when the evaluator
/// rejects the path. A function of the tree and the path alone.
pub uninterp spec fn query_results(node: NodeView, path: Seq<char>) -> Option<Seq<NodeView>>;

/// The view of an optional list of matched nodes.
pub open spec fn opt_nodes_view(r: Option<Vec<Node>>) -> Option<Seq<NodeView>> {
    match r {
        Some(v) => Some(elems_view(v@)),
        None => None,
    }
}

/// Relies on jsonpath_lib::selector: the matches of a path expression are a
/// function of the tree and the path alone, handed back in evaluation order;
/// a rejected path yields nothing. The evaluator can abort instead of
/// answering: its filter machinery, opened by a question mark, holds an
/// unwrap that a number literal rounded to infinity reaches and arms left
/// unwritten; a slice, opened by a colon, accepts a step of zero and hands
/// it to a stepper that refuses zero; and an index literal at the floor of
/// machine integers can overflow index arithmetic in unoptimized builds.
/// Such paths are left out here, and callers must screen them off first.
#[verifier::external_body]
pub(crate) fn eval_query(v: &Node, path: &str) -> (r: Option<Vec<Node>>)
    requires
        !path_screened(path@),
    ensures
        opt_nodes_view(r) == query_results(v@, path@),
{
    let jv = node_to_json(v);
    let mut selector = jsonpath_lib::selector(&jv);
    match selector(path) {
        Ok(found) => Some(found.iter().map(|x| json_to_node(x)).collect()),
        Err(_) => None,
    }
}

/// What the tree looks like rendered as a YAML document, or nothing when
/// the encoder rejects it. A function of the tree alone.
pub uninterp spec fn yaml_of(node: NodeView) -> Option<Seq<char>>;

/// The view of an optional rendering.
pub open spec fn opt_string_view(r: Option<String>) -> Option<Seq<char>> {
    match r {
        Some(s) => Some(s@),
        None => None,
    }
}

/// Relies on serde_yaml::to_string: the rendering of a tree is a function
/// of the tree alone, object fields appearing in their stored order.
#[verifier::external_body]
pub(crate) fn to_yaml(v: &Node) -> (r: Option<String>)
    ensures
        opt_string_view(r) == yaml_of(v@),
{
    match serde_yaml::to_string(&node_to_json(v)) {
        Ok(s) => Some(s),
        Err(_) => None,
    }
}

} // verus!
