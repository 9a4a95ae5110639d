use vstd::prelude::*;
use vstd::string::StringExecFns;
use crate::bridge::{to_yaml, yaml_of};
use crate::errors::HffError;
use crate::mapping::{canon_sig, signature_to_str};
use crate::node::{
    deep_copy, fields_view, find_key, lemma_fields_view, obj_get, obj_has_key, obj_keys, Node,
    NodeView,
};
use crate::registry::Registry;
use crate::template::{apply_format, subst};
use crate::text::strs_view;

verus! {

/// The field name that triggers reference collapsing.
pub open spec fn ref_key() -> Seq<char> {
    seq!['r', 'e', 'f', 'e', 'r', 'e', 'n', 'c', 'e']
}

/// A collapsed cross-resource pointer: the pointed-to name in a marker.
pub open spec fn ref_text(s: Seq<char>) -> Seq<char> {
    seq!['R', 'e', 'f', 'e', 'r', 'e', 'n', 'c', 'e', '('] + s + seq![')']
}

/// The string a node carries, where it is a string.
pub open spec fn str_payload(v: NodeView) -> Seq<char> {
    match v {
        NodeView::Str(s) => s,
        _ => Seq::empty(),
    }
}

/// The value of the first field bearing the key, a missing key answering
/// null.
pub open spec fn obj_get_or_null(
    fields: Seq<(Seq<char>, NodeView)>,
    k: Seq<char>,
) -> NodeView {
    match obj_get(fields, k) {
        Some(v) => v,
        None => NodeView::Null,
    }
}

/// The reference a reference-field value nests one level down, where it
/// nests one.
pub open spec fn inner_ref(rv: NodeView) -> Option<NodeView> {
    match rv {
        NodeView::Obj(infields) => obj_get(infields, ref_key()),
        _ => None,
    }
}

/// Every field bearing the reference key replaced by the new value, other
/// fields untouched.
pub open spec fn replace_ref(
    fields: Seq<(Seq<char>, NodeView)>,
    newv: NodeView,
) -> Seq<(Seq<char>, NodeView)> {
    fields.map_values(
        |f: (Seq<char>, NodeView)|
            if f.0 == ref_key() {
                (f.0, newv)
            } else {
                f
            },
    )
}

/// What an object holding a reference field becomes: where the reference is
/// the only field and its value a string, the whole object collapses to the
/// marker string; otherwise only the reference field's value is replaced —
/// by the nested reference where the value nests one, by its own string
/// otherwise — and every other field stays exactly as it was, not walked
/// further.
pub open spec fn collapse_reference(fields: Seq<(Seq<char>, NodeView)>) -> NodeView {
    let rv = obj_get_or_null(fields, ref_key());
    if fields.len() == 1 && rv is Str {
        NodeView::Str(ref_text(str_payload(rv)))
    } else {
        match inner_ref(rv) {
            Some(w) => NodeView::Obj(replace_ref(fields, NodeView::Str(ref_text(str_payload(w))))),
            None => NodeView::Obj(replace_ref(fields, NodeView::Str(ref_text(str_payload(rv))))),
        }
    }
}

/// Whether the reference branch finds the strings it collapses: the nested
/// reference must be a string where the value nests one, the value itself
/// otherwise.
pub open spec fn collapse_ok(fields: Seq<(Seq<char>, NodeView)>) -> bool {
    let rv = obj_get_or_null(fields, ref_key());
    match inner_ref(rv) {
        Some(w) => w is Str,
        None => rv is Str,
    }
}

/// What a node reached under a field name becomes: an object collapses its
/// reference, else renders by its rule, else walks its fields; an array
/// walks its elements and unwraps a lone one; a scalar stays itself.
pub open spec fn walk(reg: Map<Seq<char>, Seq<char>>, n: NodeView) -> NodeView
    decreases n,
{
    match n {
        NodeView::Obj(fields) => {
            if obj_has_key(fields, ref_key()) {
                collapse_reference(fields)
            } else if reg.contains_key(canon_sig(obj_keys(fields))) {
                NodeView::Str(subst(reg[canon_sig(obj_keys(fields))], n))
            } else {
                NodeView::Obj(walk_fields(reg, fields))
            }
        },
        NodeView::Arr(elems) => {
            let ws = walk_elems(reg, elems);
            if ws.len() == 1 {
                ws[0]
            } else {
                NodeView::Arr(ws)
            }
        },
        _ => n,
    }
}

/// Each field's value walked under its own name, field order kept.
pub open spec fn walk_fields(
    reg: Map<Seq<char>, Seq<char>>,
    fields: Seq<(Seq<char>, NodeView)>,
) -> Seq<(Seq<char>, NodeView)>
    decreases fields,
{
    if fields.len() == 0 {
        Seq::empty()
    } else {
        seq![(fields[0].0, walk(reg, fields[0].1))] + walk_fields(reg, fields.drop_first())
    }
}

/// Each element walked, order kept.
pub open spec fn walk_elems(
    reg: Map<Seq<char>, Seq<char>>,
    elems: Seq<NodeView>,
) -> Seq<NodeView>
    decreases elems,
{
    if elems.len() == 0 {
        Seq::empty()
    } else {
        seq![walk(reg, elems[0])] + walk_elems(reg, elems.drop_first())
    }
}

/// Whether the walk stays clear of a reference field whose strings are
/// missing, everywhere the walk reaches.
pub open spec fn walk_ok(reg: Map<Seq<char>, Seq<char>>, n: NodeView) -> bool
    decreases n,
{
    match n {
        NodeView::Obj(fields) => {
            if obj_has_key(fields, ref_key()) {
                collapse_ok(fields)
            } else if reg.contains_key(canon_sig(obj_keys(fields))) {
                true
            } else {
                fields_ok(reg, fields)
            }
        },
        NodeView::Arr(elems) => elems_ok(reg, elems),
        _ => true,
    }
}

/// `walk_ok` of every field's value.
pub open spec fn fields_ok(
    reg: Map<Seq<char>, Seq<char>>,
    fields: Seq<(Seq<char>, NodeView)>,
) -> bool
    decreases fields,
{
    if fields.len() == 0 {
        true
    } else {
        walk_ok(reg, fields[0].1) && fields_ok(reg, fields.drop_first())
    }
}

/// `walk_ok` of every element.
pub open spec fn elems_ok(reg: Map<Seq<char>, Seq<char>>, elems: Seq<NodeView>) -> bool
    decreases elems,
{
    if elems.len() == 0 {
        true
    } else {
        walk_ok(reg, elems[0]) && elems_ok(reg, elems.drop_first())
    }
}

/// What the whole document becomes: the root must be an object, and each of
/// its fields is walked under its own name.
pub open spec fn walk_root(reg: Map<Seq<char>, Seq<char>>, n: NodeView) -> Result<
    NodeView,
    HffError,
> {
    match n {
        NodeView::Obj(fields) => Ok(NodeView::Obj(walk_fields(reg, fields))),
        _ => Err(HffError::Shape),
    }
}

/// `walk_ok` of every field of the root, where the root is an object.
pub open spec fn root_ok(reg: Map<Seq<char>, Seq<char>>, n: NodeView) -> bool {
    match n {
        NodeView::Obj(fields) => fields_ok(reg, fields),
        _ => true,
    }
}

/// The marker string around a collapsed reference.
fn ref_wrap(s: &str) -> (r: String)
    ensures
        r@ == ref_text(s@),
{
    let mut r = String::from_str("Reference(");
    proof {
        reveal_strlit("Reference(");
        assert(r@ =~= seq!['R', 'e', 'f', 'e', 'r', 'e', 'n', 'c', 'e', '(']);
    }
    r.append(s);
    r.append(")");
    proof {
        reveal_strlit(")");
        assert(")"@ =~= seq![')']);
        assert(r@ =~= ref_text(s@));
    }
    r
}

/// The fields with every reference-keyed one replaced by the given string,
/// the rest copied as they are.
fn replace_ref_exec(fields: &Vec<(String, Node)>, newtext: &String) -> (r: Vec<(String, Node)>)
    ensures
        fields_view(r@) == replace_ref(fields_view(fields@), NodeView::Str(newtext@)),
{
    proof {
        lemma_fields_view(fields@);
        reveal_strlit("reference");
        assert("reference"@ =~= ref_key());
    }
    let ghost fv = fields_view(fields@);
    let ghost goal = replace_ref(fv, NodeView::Str(newtext@));
    let mut out: Vec<(String, Node)> = Vec::new();
    let mut i: usize = 0;
    while i < fields.len()
        invariant
            i <= fields@.len(),
            fv == fields_view(fields@),
            fv.len() == fields@.len(),
            goal == replace_ref(fv, NodeView::Str(newtext@)),
            forall|j: int| 0 <= j < fields@.len() ==> fv[j] == (fields@[j].0@, fields@[j].1@),
            "reference"@ == ref_key(),
            fields_view(out@).len() == i as int,
            forall|j: int| 0 <= j < i ==> fields_view(out@)[j] == goal[j],
        decreases fields@.len() - i,
    {
        let ghost out_before = out@;
        if crate::text::str_eq(fields[i].0.as_str(), "reference") {
            out.push((fields[i].0.clone(), Node::Str(newtext.clone())));
        } else {
            let copied = deep_copy(&fields[i].1);
            out.push((fields[i].0.clone(), copied));
        }
        i = i + 1;
        proof {
            lemma_fields_view(out_before);
            lemma_fields_view(out@);
            assert(out@ == out_before.push(out@.last()));
            assert forall|j: int| 0 <= j < i implies fields_view(out@)[j] == goal[j] by {
                assert(fields_view(out@)[j] == (out@[j].0@, out@[j].1@));
                if j < i - 1 {
                    assert(out@[j] == out_before[j]);
                    assert(fields_view(out_before)[j] == (out_before[j].0@, out_before[j].1@));
                } else {
                    assert(out@[j] == out@.last());
                    assert(goal[j] == if fv[j].0 == ref_key() {
                        (fv[j].0, NodeView::Str(newtext@))
                    } else {
                        fv[j]
                    });
                }
            }
        }
    }
    proof {
        assert(fields_view(out@) =~= goal);
    }
    out
}

/// The object's field names, in field order.
fn collect_keys(fields: &Vec<(String, Node)>) -> (r: Vec<String>)
    ensures
        strs_view(r@) == obj_keys(fields_view(fields@)),
{
    proof {
        lemma_fields_view(fields@);
    }
    let ghost fv = fields_view(fields@);
    let mut out: Vec<String> = Vec::new();
    let mut i: usize = 0;
    while i < fields.len()
        invariant
            i <= fields@.len(),
            fv == fields_view(fields@),
            fv.len() == fields@.len(),
            forall|j: int| 0 <= j < fields@.len() ==> fv[j] == (fields@[j].0@, fields@[j].1@),
            strs_view(out@) == obj_keys(fv).take(i as int),
        decreases fields@.len() - i,
    {
        let ghost out_before = out@;
        out.push(fields[i].0.clone());
        i = i + 1;
        proof {
            assert(strs_view(out@) =~= strs_view(out_before).push(fields@[i - 1].0@));
            assert(obj_keys(fv).take(i as int) =~= obj_keys(fv).take(i - 1).push(fv[i - 1].0));
            assert(strs_view(out@) =~= obj_keys(fv).take(i as int));
        }
    }
    proof {
        assert(obj_keys(fv).take(fv.len() as int) =~= obj_keys(fv));
    }
    out
}

/// Walks the tree from the top. Without a field-name context the node must
/// be an object and each field is walked under its own name; under a
/// field-name context the node is dispatched as `walk` describes. The error
/// is the root shape error alone.
pub fn traverse_fhir(v: &Node, k: Option<&str>, formatters: &Registry) -> (r: Result<
    Node,
    HffError,
>)
    requires
        k is Some ==> walk_ok(formatters@, v@),
        k is None ==> root_ok(formatters@, v@),
    ensures
        match k {
            Some(_) => r matches Ok(out) && out@ == walk(formatters@, v@),
            None => match walk_root(formatters@, v@) {
                Ok(m) => r matches Ok(out) && out@ == m,
                Err(e) => r matches Err(e2) && e2 == e,
            },
        },
    decreases v, 2int,
{
    match k {
        None => {
            match v {
                Node::Obj(fields) => {
                    proof {
                        assert(v->Obj_0 == *fields);
                        assert(decreases_to!(*v => v->Obj_0));
                    }
                    let out_fields = walk_fields_exec(fields, formatters);
                    Ok(Node::Obj(out_fields))
                },
                _ => Err(HffError::Shape),
            }
        },
        Some(key) => {
            match v {
                Node::Obj(_) => reformat(v, key, formatters),
                Node::Arr(elems) => {
                    proof {
                        crate::node::lemma_elems_view(elems@);
                    }
                    let ghost ev = crate::node::elems_view(elems@);
                    let mut out: Vec<Node> = Vec::new();
                    let mut i: usize = 0;
                    while i < elems.len()
                        invariant
                            *v == Node::Arr(*elems),
                            walk_ok(formatters@, v@),
                            i <= elems@.len(),
                            ev == crate::node::elems_view(elems@),
                            ev.len() == elems@.len(),
                            forall|j: int| 0 <= j < elems@.len() ==> ev[j] == elems@[j]@,
                            crate::node::elems_view(out@).len() == i as int,
                            forall|j: int|
                                0 <= j < i ==> crate::node::elems_view(out@)[j] == walk_elems(
                                    formatters@,
                                    ev,
                                ).take(i as int)[j],
                        decreases elems@.len() - i, 2int,
                    {
                        proof {
                            assert(v->Arr_0 == *elems);
                            assert(decreases_to!(*v => v->Arr_0));
                            assert(decreases_to!(*elems => elems@));
                            assert(decreases_to!(elems@ => elems@[i as int]));
                            lemma_walk_elems_ok(formatters@, ev, i as int);
                        }
                        let ghost out_before = out@;
                        let w = match traverse_fhir(&elems[i], Some(key), formatters) {
                            Ok(w) => w,
                            Err(_) => {
                                proof {
                                    assert(false);
                                }
                                return Err(HffError::Shape);
                            },
                        };
                        let ghost wv = w@;
                        out.push(w);
                        i = i + 1;
                        proof {
                            crate::node::lemma_elems_view(out_before);
                            crate::node::lemma_elems_view(out@);
                            lemma_walk_elems_at(formatters@, ev, i - 1);
                            assert(out@ == out_before.push(out@.last()));
                            assert(out@.last()@ == wv);
                            assert forall|j: int|
                                0 <= j < i implies crate::node::elems_view(out@)[j] == walk_elems(
                                formatters@,
                                ev,
                            ).take(i as int)[j] by {
                                assert(crate::node::elems_view(out@)[j] == out@[j]@);
                                if j < i - 1 {
                                    assert(out@[j] == out_before[j]);
                                    assert(crate::node::elems_view(out_before)[j] == out_before[j]@);
                                } else {
                                    assert(out@[j] == out@.last());
                                }
                            }
                        }
                    }
                    proof {
                        lemma_walk_elems_len(formatters@, ev);
                        assert(crate::node::elems_view(out@) =~= walk_elems(formatters@, ev));
                    }
                    if out.len() == 1 {
                        let ghost out_full = out@;
                        let first = match out.pop() {
                            Some(x) => x,
                            None => {
                                proof {
                                    assert(false);
                                }
                                return Err(HffError::Shape);
                            },
                        };
                        proof {
                            crate::node::lemma_elems_view(out_full);
                            assert(first == out_full[0]);
                            assert(first@ == walk_elems(formatters@, ev)[0]);
                        }
                        Ok(first)
                    } else {
                        proof {
                            crate::node::lemma_elems_view(out@);
                            assert(walk_elems(formatters@, ev).len() != 1);
                            assert(v@ == NodeView::Arr(ev));
                            assert(walk(formatters@, v@) == NodeView::Arr(
                                walk_elems(formatters@, ev),
                            ));
                        }
                        Ok(Node::Arr(out))
                    }
                },
                _ => {
                    let copied = deep_copy(v);
                    proof {
                        assert(walk(formatters@, v@) == v@);
                    }
                    Ok(copied)
                },
            }
        },
    }
}

/// `walk_ok` of an array spreads to each element.
proof fn lemma_walk_elems_ok(reg: Map<Seq<char>, Seq<char>>, elems: Seq<NodeView>, i: int)
    requires
        elems_ok(reg, elems),
        0 <= i < elems.len(),
    ensures
        walk_ok(reg, elems[i]),
    decreases elems.len(),
{
    if i > 0 {
        lemma_walk_elems_ok(reg, elems.drop_first(), i - 1);
    }
}

/// The walked elements line up index by index.
proof fn lemma_walk_elems_at(reg: Map<Seq<char>, Seq<char>>, elems: Seq<NodeView>, i: int)
    requires
        0 <= i < elems.len(),
    ensures
        walk_elems(reg, elems).len() == elems.len(),
        walk_elems(reg, elems)[i] == walk(reg, elems[i]),
    decreases elems.len(),
{
    lemma_walk_elems_len(reg, elems);
    if i > 0 {
        lemma_walk_elems_at(reg, elems.drop_first(), i - 1);
        assert(walk_elems(reg, elems)[i] == walk_elems(reg, elems.drop_first())[i - 1]);
    }
}

/// Walking keeps the element count.
proof fn lemma_walk_elems_len(reg: Map<Seq<char>, Seq<char>>, elems: Seq<NodeView>)
    ensures
        walk_elems(reg, elems).len() == elems.len(),
    decreases elems.len(),
{
    if elems.len() > 0 {
        lemma_walk_elems_len(reg, elems.drop_first());
    }
}

/// The walked fields line up index by index.
proof fn lemma_walk_fields_at(
    reg: Map<Seq<char>, Seq<char>>,
    fields: Seq<(Seq<char>, NodeView)>,
)
    ensures
        walk_fields(reg, fields).len() == fields.len(),
        forall|i: int|
            0 <= i < fields.len() ==> walk_fields(reg, fields)[i] == (
                fields[i].0,
                walk(reg, fields[i].1),
            ),
    decreases fields.len(),
{
    if fields.len() > 0 {
        lemma_walk_fields_at(reg, fields.drop_first());
        assert forall|i: int|
            0 <= i < fields.len() implies walk_fields(reg, fields)[i] == (
            fields[i].0,
            walk(reg, fields[i].1),
        ) by {
            if i > 0 {
                assert(walk_fields(reg, fields)[i] == walk_fields(reg, fields.drop_first())[i
                    - 1]);
                assert(fields.drop_first()[i - 1] == fields[i]);
            }
        }
    }
}

/// `fields_ok` spreads to each field's value.
proof fn lemma_fields_ok_at(
    reg: Map<Seq<char>, Seq<char>>,
    fields: Seq<(Seq<char>, NodeView)>,
    i: int,
)
    requires
        fields_ok(reg, fields),
        0 <= i < fields.len(),
    ensures
        walk_ok(reg, fields[i].1),
    decreases fields.len(),
{
    if i > 0 {
        lemma_fields_ok_at(reg, fields.drop_first(), i - 1);
    }
}

/// Each field's value walked under its own name.
fn walk_fields_exec(fields: &Vec<(String, Node)>, formatters: &Registry) -> (r: Vec<(
    String,
    Node,
)>)
    requires
        fields_ok(formatters@, fields_view(fields@)),
    ensures
        fields_view(r@) == walk_fields(formatters@, fields_view(fields@)),
    decreases fields, 0int,
{
    proof {
        lemma_fields_view(fields@);
    }
    let ghost fv = fields_view(fields@);
    let mut out: Vec<(String, Node)> = Vec::new();
    let mut i: usize = 0;
    while i < fields.len()
        invariant
            fields_ok(formatters@, fv),
            fv == fields_view(fields@),
            fv.len() == fields@.len(),
            forall|j: int| 0 <= j < fields@.len() ==> fv[j] == (fields@[j].0@, fields@[j].1@),
            i <= fields@.len(),
            fields_view(out@).len() == i as int,
            forall|j: int|
                0 <= j < i ==> fields_view(out@)[j] == (fv[j].0, walk(formatters@, fv[j].1)),
        decreases fields@.len() - i, 0int,
    {
        proof {
            assert(decreases_to!(*fields => fields@));
            assert(decreases_to!(fields@ => fields@[i as int]));
            assert(decreases_to!(fields@[i as int] => fields@[i as int].1));
            lemma_fields_ok_at(formatters@, fv, i as int);
        }
        let ghost out_before = out@;
        let w = match traverse_fhir(&fields[i].1, Some(fields[i].0.as_str()), formatters) {
            Ok(w) => w,
            Err(_) => {
                proof {
                    assert(false);
                }
                return Vec::new();
            },
        };
        let ghost wv = w@;
        out.push((fields[i].0.clone(), w));
        i = i + 1;
        proof {
            lemma_fields_view(out_before);
            lemma_fields_view(out@);
            assert(out@ == out_before.push(out@.last()));
            assert(out@.last().0@ == fv[i - 1].0);
            assert(out@.last().1@ == wv);
            assert forall|j: int|
                0 <= j < i implies fields_view(out@)[j] == (fv[j].0, walk(formatters@, fv[j].1))
                by {
                assert(fields_view(out@)[j] == (out@[j].0@, out@[j].1@));
                if j < i - 1 {
                    assert(out@[j] == out_before[j]);
                    assert(fields_view(out_before)[j] == (out_before[j].0@, out_before[j].1@));
                } else {
                    assert(out@[j] == out@.last());
                }
            }
        }
    }
    proof {
        lemma_walk_fields_at(formatters@, fv);
        assert(fields_view(out@) =~= walk_fields(formatters@, fv));
    }
    out
}

/// Reformats one object reached under a field name: collapse its reference
/// field if it has one, else render it by its registry rule if one matches
/// its exact field set, else walk its fields.
fn reformat(obj: &Node, key: &str, formatters: &Registry) -> (r: Result<Node, HffError>)
    requires
        walk_ok(formatters@, obj@),
        obj@ is Obj,
    ensures
        r matches Ok(out) && out@ == walk(formatters@, obj@),
    decreases obj, 1int,
{
    match obj {
        Node::Obj(fields) => {
            proof {
                lemma_fields_view(fields@);
                reveal_strlit("reference");
                assert("reference"@ =~= ref_key());
            }
            let ghost fv = fields_view(fields@);
            match find_key(fields, "reference") {
                Some(idx) => {
                    proof {
                        assert(obj_has_key(fv, ref_key()));
                        assert(obj_get_or_null(fv, ref_key()) == fv[idx as int].1);
                        assert(collapse_ok(fv));
                    }
                    let rv = &fields[idx].1;
                    if fields.len() == 1 {
                        if let Node::Str(s) = rv {
                            return Ok(Node::Str(ref_wrap(s.as_str())));
                        }
                    }
                    {
                        let mut nested: Option<&Node> = None;
                        if let Node::Obj(infields) = rv {
                            proof {
                                lemma_fields_view(infields@);
                            }
                            match find_key(infields, "reference") {
                                Some(inner_idx) => {
                                    nested = Some(&infields[inner_idx].1);
                                    proof {
                                        assert(inner_ref(fv[idx as int].1) == Some(
                                            fields_view(infields@)[inner_idx as int].1,
                                        ));
                                    }
                                },
                                None => {
                                    proof {
                                        assert(inner_ref(fv[idx as int].1) is None);
                                    }
                                },
                            }
                        }
                        match nested {
                            Some(w) => {
                                match w {
                                    Node::Str(ws) => {
                                        let wrapped = ref_wrap(ws.as_str());
                                        let out = replace_ref_exec(fields, &wrapped);
                                        Ok(Node::Obj(out))
                                    },
                                    _ => {
                                        proof {
                                            assert(false);
                                        }
                                        Err(HffError::Shape)
                                    },
                                }
                            },
                            None => {
                                match rv {
                                    Node::Str(s) => {
                                        let wrapped = ref_wrap(s.as_str());
                                        let out = replace_ref_exec(fields, &wrapped);
                                        Ok(Node::Obj(out))
                                    },
                                    _ => {
                                        proof {
                                            assert(false);
                                        }
                                        Err(HffError::Shape)
                                    },
                                }
                            },
                        }
                    }
                },
                None => {
                    proof {
                        assert(!obj_has_key(fv, ref_key()));
                    }
                    let keys = collect_keys(fields);
                    let sig = signature_to_str(keys);
                    let looked_up = formatters.lookup(sig.as_str());
                    match looked_up {
                        Some(format_str) => {
                            let rendered = apply_format(obj, format_str.as_str());
                            proof {
                                assert(formatters@.contains_key(canon_sig(obj_keys(fv))));
                                assert(format_str@ == formatters@[canon_sig(obj_keys(fv))]);
                            }
                            Ok(Node::Str(rendered))
                        },
                        None => {
                            proof {
                                assert(!formatters@.contains_key(canon_sig(obj_keys(fv))));
                                assert(obj->Obj_0 == *fields);
                                assert(decreases_to!(*obj => obj->Obj_0));
                            }
                            let out = walk_fields_exec(fields, formatters);
                            Ok(Node::Obj(out))
                        },
                    }
                },
            }
        },
        _ => {
            proof {
                assert(false);
            }
            Err(HffError::Shape)
        },
    }
}

/// The document reformatted and rendered as YAML: the root walked from the
/// top, then handed to the encoder. The root not being an object is the
/// shape error; the encoder declining is the serialization error.
pub fn json_to_huff(fhir_obj: Node, formatters: &Registry) -> (r: Result<String, HffError>)
    requires
        root_ok(formatters@, fhir_obj@),
    ensures
        match walk_root(formatters@, fhir_obj@) {
            Err(e) => r matches Err(e2) && e2 == e,
            Ok(m) => match yaml_of(m) {
                Some(s) => r matches Ok(y) && y@ == s,
                None => r matches Err(e2) && e2 == HffError::Serialization,
            },
        },
{
    let reformatted_obj = match traverse_fhir(&fhir_obj, None, formatters) {
        Ok(x) => x,
        Err(e) => {
            return Err(e);
        },
    };
    match to_yaml(&reformatted_obj) {
        Some(s) => Ok(s),
        None => Err(HffError::Serialization),
    }
}


/// A value that is a scalar, or an array holding scalars only.
pub open spec fn scalar_or_scalar_array(v: NodeView) -> bool {
    match v {
        NodeView::Arr(es) => forall|i: int| 0 <= i < es.len() ==> es[i].is_scalar(),
        _ => v.is_scalar(),
    }
}

/// A lone-element array gives up its element; everything else stays.
pub open spec fn unwrap_singleton(v: NodeView) -> NodeView {
    match v {
        NodeView::Arr(es) => if es.len() == 1 {
            es[0]
        } else {
            v
        },
        _ => v,
    }
}

/// Walking an array of scalars changes no element.
proof fn lemma_walk_elems_scalar(reg: Map<Seq<char>, Seq<char>>, es: Seq<NodeView>)
    requires
        forall|i: int| 0 <= i < es.len() ==> es[i].is_scalar(),
    ensures
        walk_elems(reg, es) == es,
    decreases es.len(),
{
    if es.len() > 0 {
        assert(es[0].is_scalar());
        match es[0] {
            NodeView::Null | NodeView::Bool(_) | NodeView::Num(_) | NodeView::Str(_) => {
                assert(walk(reg, es[0]) == es[0]);
            },
            _ => {
                assert(false);
            },
        }
        lemma_walk_elems_scalar(reg, es.drop_first());
        assert(walk_elems(reg, es) =~= es);
    }
}

/// Walking a scalar, or an array of scalars, only unwraps a lone element.
proof fn lemma_walk_scalar_value(reg: Map<Seq<char>, Seq<char>>, v: NodeView)
    requires
        scalar_or_scalar_array(v),
    ensures
        walk(reg, v) == unwrap_singleton(v),
{
    match v {
        NodeView::Arr(es) => {
            lemma_walk_elems_scalar(reg, es);
        },
        _ => {},
    }
}

/// An object with no reference field, no matching registry rule, and only
/// scalar or scalar-array field values keeps every field and value
/// unchanged, except that a lone-element array field is unwrapped to its
/// sole element.
pub proof fn lemma_scalar_object_preserved(
    reg: Map<Seq<char>, Seq<char>>,
    fields: Seq<(Seq<char>, NodeView)>,
)
    requires
        !obj_has_key(fields, ref_key()),
        !reg.contains_key(canon_sig(obj_keys(fields))),
        forall|i: int| 0 <= i < fields.len() ==> scalar_or_scalar_array(fields[i].1),
    ensures
        walk(reg, NodeView::Obj(fields)) == NodeView::Obj(
            fields.map_values(
                |f: (Seq<char>, NodeView)| (f.0, unwrap_singleton(f.1)),
            ),
        ),
{
    lemma_walk_fields_at(reg, fields);
    assert forall|i: int|
        0 <= i < fields.len() implies walk_fields(reg, fields)[i] == (
        fields[i].0,
        unwrap_singleton(fields[i].1),
    ) by {
        lemma_walk_scalar_value(reg, fields[i].1);
    }
    assert(walk_fields(reg, fields) =~= fields.map_values(
        |f: (Seq<char>, NodeView)| (f.0, unwrap_singleton(f.1)),
    ));
}

/// An object whose only field bears the reference key with a string value
/// collapses to exactly the marker string around that value.
pub proof fn lemma_reference_only_field(reg: Map<Seq<char>, Seq<char>>, v: Seq<char>)
    ensures
        walk(reg, NodeView::Obj(seq![(ref_key(), NodeView::Str(v))])) == NodeView::Str(
            ref_text(v),
        ),
{
    let fields = seq![(ref_key(), NodeView::Str(v))];
    assert(fields[0].0 == ref_key());
    assert(obj_has_key(fields, ref_key()));
    assert(obj_get(fields, ref_key()) == Some(NodeView::Str(v)));
}


/// A tree in which every object holding a reference field has the strings
/// the collapse reads, all the way down.
pub open spec fn ref_safe(n: NodeView) -> bool
    decreases n,
{
    match n {
        NodeView::Obj(fields) => (obj_has_key(fields, ref_key()) ==> collapse_ok(fields))
            && fields_ref_safe(fields),
        NodeView::Arr(elems) => elems_ref_safe(elems),
        _ => true,
    }
}

/// `ref_safe` of every field's value.
pub open spec fn fields_ref_safe(fields: Seq<(Seq<char>, NodeView)>) -> bool
    decreases fields,
{
    if fields.len() == 0 {
        true
    } else {
        ref_safe(fields[0].1) && fields_ref_safe(fields.drop_first())
    }
}

/// `ref_safe` of every element.
pub open spec fn elems_ref_safe(elems: Seq<NodeView>) -> bool
    decreases elems,
{
    if elems.len() == 0 {
        true
    } else {
        ref_safe(elems[0]) && elems_ref_safe(elems.drop_first())
    }
}

/// A tree safe around its references meets the walk's precondition under
/// every registry: a caller need not know the rules to call the walker.
pub proof fn lemma_ref_safe_walk_ok(reg: Map<Seq<char>, Seq<char>>, n: NodeView)
    requires
        ref_safe(n),
    ensures
        walk_ok(reg, n),
    decreases n,
{
    match n {
        NodeView::Obj(fields) => {
            lemma_fields_ref_safe_ok(reg, fields);
        },
        NodeView::Arr(elems) => {
            lemma_elems_ref_safe_ok(reg, elems);
        },
        _ => {},
    }
}

proof fn lemma_fields_ref_safe_ok(
    reg: Map<Seq<char>, Seq<char>>,
    fields: Seq<(Seq<char>, NodeView)>,
)
    requires
        fields_ref_safe(fields),
    ensures
        fields_ok(reg, fields),
    decreases fields,
{
    if fields.len() > 0 {
        lemma_ref_safe_walk_ok(reg, fields[0].1);
        lemma_fields_ref_safe_ok(reg, fields.drop_first());
    }
}

proof fn lemma_elems_ref_safe_ok(reg: Map<Seq<char>, Seq<char>>, elems: Seq<NodeView>)
    requires
        elems_ref_safe(elems),
    ensures
        elems_ok(reg, elems),
    decreases elems,
{
    if elems.len() > 0 {
        lemma_ref_safe_walk_ok(reg, elems[0]);
        lemma_elems_ref_safe_ok(reg, elems.drop_first());
    }
}

/// A tree safe around its references meets the root precondition under
/// every registry.
pub proof fn lemma_ref_safe_root_ok(reg: Map<Seq<char>, Seq<char>>, n: NodeView)
    requires
        ref_safe(n),
    ensures
        root_ok(reg, n),
{
    match n {
        NodeView::Obj(fields) => {
            lemma_fields_ref_safe_ok(reg, fields);
        },
        _ => {},
    }
}


/// `fields_ref_safe` holds exactly when every field's value is safe.
proof fn lemma_fields_ref_safe_iff(fields: Seq<(Seq<char>, NodeView)>)
    ensures
        fields_ref_safe(fields) <==> (forall|i: int|
            0 <= i < fields.len() ==> ref_safe(fields[i].1)),
    decreases fields.len(),
{
    if fields.len() > 0 {
        lemma_fields_ref_safe_iff(fields.drop_first());
        assert forall|i: int|
            0 <= i < fields.len() - 1 implies fields.drop_first()[i] == fields[i + 1] by {}
        if forall|i: int| 0 <= i < fields.len() ==> ref_safe(fields[i].1) {
            assert(ref_safe(fields[0].1));
            assert forall|i: int|
                0 <= i < fields.drop_first().len() implies ref_safe(
                fields.drop_first()[i].1,
            ) by {
                assert(fields.drop_first()[i] == fields[i + 1]);
            }
        }
        if fields_ref_safe(fields) {
            assert forall|i: int| 0 <= i < fields.len() implies ref_safe(fields[i].1) by {
                if i > 0 {
                    assert(fields.drop_first()[i - 1] == fields[i]);
                }
            }
        }
    }
}

/// `elems_ref_safe` holds exactly when every element is safe.
proof fn lemma_elems_ref_safe_iff(elems: Seq<NodeView>)
    ensures
        elems_ref_safe(elems) <==> (forall|i: int|
            0 <= i < elems.len() ==> ref_safe(elems[i])),
    decreases elems.len(),
{
    if elems.len() > 0 {
        lemma_elems_ref_safe_iff(elems.drop_first());
        if forall|i: int| 0 <= i < elems.len() ==> ref_safe(elems[i]) {
            assert(ref_safe(elems[0]));
            assert forall|i: int|
                0 <= i < elems.drop_first().len() implies ref_safe(elems.drop_first()[i]) by {
                assert(elems.drop_first()[i] == elems[i + 1]);
            }
        }
        if elems_ref_safe(elems) {
            assert forall|i: int| 0 <= i < elems.len() implies ref_safe(elems[i]) by {
                if i > 0 {
                    assert(elems.drop_first()[i - 1] == elems[i]);
                }
            }
        }
    }
}

/// Tests `ref_safe` of the tree. A caller runs this before the walk: a true
/// answer settles, through `lemma_ref_safe_root_ok` and
/// `lemma_ref_safe_walk_ok`, the walk's precondition under every registry.
pub fn check_ref_safe(n: &Node) -> (b: bool)
    ensures
        b == ref_safe(n@),
    decreases n,
{
    match n {
        Node::Obj(fields) => {
            proof {
                lemma_fields_view(fields@);
                reveal_strlit("reference");
                assert("reference"@ =~= ref_key());
            }
            let ghost fv = fields_view(fields@);
            match find_key(fields, "reference") {
                Some(idx) => {
                    proof {
                        assert(obj_get_or_null(fv, ref_key()) == fv[idx as int].1);
                    }
                    let rv = &fields[idx].1;
                    let head_ok: bool = match rv {
                        Node::Str(_) => true,
                        Node::Obj(infields) => {
                            proof {
                                lemma_fields_view(infields@);
                            }
                            match find_key(infields, "reference") {
                                Some(inner_idx) => {
                                    proof {
                                        assert(inner_ref(fv[idx as int].1) == Some(
                                            fields_view(infields@)[inner_idx as int].1,
                                        ));
                                    }
                                    matches!(&infields[inner_idx].1, Node::Str(_))
                                },
                                None => {
                                    proof {
                                        assert(inner_ref(fv[idx as int].1) is None);
                                    }
                                    false
                                },
                            }
                        },
                        _ => false,
                    };
                    proof {
                        assert(head_ok == collapse_ok(fv));
                    }
                    if !head_ok {
                        return false;
                    }
                    check_fields_ref_safe(n, fields)
                },
                None => check_fields_ref_safe(n, fields),
            }
        },
        Node::Arr(elems) => {
            proof {
                crate::node::lemma_elems_view(elems@);
            }
            let ghost ev = crate::node::elems_view(elems@);
            let mut i: usize = 0;
            while i < elems.len()
                invariant
                    *n == Node::Arr(*elems),
                    i <= elems@.len(),
                    ev == crate::node::elems_view(elems@),
                    ev.len() == elems@.len(),
                    forall|j: int| 0 <= j < elems@.len() ==> ev[j] == elems@[j]@,
                    forall|j: int| 0 <= j < i ==> ref_safe(ev[j]),
                decreases elems@.len() - i,
            {
                proof {
                    assert(n->Arr_0 == *elems);
                    assert(decreases_to!(*n => n->Arr_0));
                    assert(decreases_to!(*elems => elems@));
                    assert(decreases_to!(elems@ => elems@[i as int]));
                }
                if !check_ref_safe(&elems[i]) {
                    proof {
                        lemma_elems_ref_safe_iff(ev);
                        assert(!ref_safe(ev[i as int]));
                    }
                    return false;
                }
                i = i + 1;
            }
            proof {
                lemma_elems_ref_safe_iff(ev);
            }
            true
        },
        _ => true,
    }
}

/// Tests `fields_ref_safe` of an object's fields.
fn check_fields_ref_safe(n: &Node, fields: &Vec<(String, Node)>) -> (b: bool)
    requires
        *n == Node::Obj(*fields),
    ensures
        b == fields_ref_safe(fields_view(fields@)),
    decreases n, 0int,
{
    proof {
        lemma_fields_view(fields@);
    }
    let ghost fv = fields_view(fields@);
    let mut i: usize = 0;
    while i < fields.len()
        invariant
            *n == Node::Obj(*fields),
            i <= fields@.len(),
            fv == fields_view(fields@),
            fv.len() == fields@.len(),
            forall|j: int| 0 <= j < fields@.len() ==> fv[j] == (fields@[j].0@, fields@[j].1@),
            forall|j: int| 0 <= j < i ==> ref_safe(fv[j].1),
        decreases fields@.len() - i, 0int,
    {
        proof {
            assert(n->Obj_0 == *fields);
            assert(decreases_to!(*n => n->Obj_0));
            assert(decreases_to!(*fields => fields@));
            assert(decreases_to!(fields@ => fields@[i as int]));
            assert(decreases_to!(fields@[i as int] => fields@[i as int].1));
        }
        if !check_ref_safe(&fields[i].1) {
            proof {
                lemma_fields_ref_safe_iff(fv);
                assert(!ref_safe(fv[i as int].1));
            }
            return false;
        }
        i = i + 1;
    }
    proof {
        lemma_fields_ref_safe_iff(fv);
    }
    true
}

} // verus!
