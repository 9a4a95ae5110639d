use vstd::prelude::*;

verus! {

/// Mathematical model of one tree node: the same shape as `Node`, with
/// sequences in place of vectors and strings.
#[verifier::ext_equal]
pub enum NodeView {
    Null,
    Bool(bool),
    Num(Seq<char>),
    Str(Seq<char>),
    Arr(Seq<NodeView>),
    Obj(Seq<(Seq<char>, NodeView)>),
}

/// A JSON-like tree value: the input and output of the reformatting engine.
/// Object fields keep their insertion order; a number carries its canonical
/// decimal text.
#[derive(Debug, PartialEq)]
pub enum Node {
    Null,
    Bool(bool),
    Num(String),
    Str(String),
    Arr(Vec<Node>),
    Obj(Vec<(String, Node)>),
}

impl View for Node {
    type V = NodeView;

    open spec fn view(&self) -> NodeView
        decreases self,
    {
        match self {
            Node::Null => NodeView::Null,
            Node::Bool(b) => NodeView::Bool(*b),
            Node::Num(s) => NodeView::Num(s@),
            Node::Str(s) => NodeView::Str(s@),
            Node::Arr(elems) => NodeView::Arr(elems_view(elems@)),
            Node::Obj(fields) => NodeView::Obj(fields_view(fields@)),
        }
    }
}

/// The views of a sequence of nodes, element by element.
pub open spec fn elems_view(s: Seq<Node>) -> Seq<NodeView>
    decreases s,
{
    if s.len() == 0 {
        Seq::empty()
    } else {
        seq![s[0]@] + elems_view(s.drop_first())
    }
}

/// The views of a sequence of fields, key and value each.
pub open spec fn fields_view(s: Seq<(String, Node)>) -> Seq<(Seq<char>, NodeView)>
    decreases s,
{
    if s.len() == 0 {
        Seq::empty()
    } else {
        seq![(s[0].0@, s[0].1@)] + fields_view(s.drop_first())
    }
}

/// Element views line up index by index with the elements.
pub proof fn lemma_elems_view(s: Seq<Node>)
    ensures
        elems_view(s).len() == s.len(),
        forall|i: int| 0 <= i < s.len() ==> elems_view(s)[i] == s[i]@,
    decreases s.len(),
{
    if s.len() > 0 {
        lemma_elems_view(s.drop_first());
        assert forall|i: int| 0 <= i < s.len() implies elems_view(s)[i] == s[i]@ by {
            let a = seq![s[0]@];
            let b = elems_view(s.drop_first());
            assert(elems_view(s) == a + b);
            if i == 0 {
                assert((a + b)[0] == a[0]);
            } else {
                assert((a + b)[i] == b[i - 1]);
                assert(s.drop_first()[i - 1] == s[i]);
            }
        }
        assert(elems_view(s).len() == (seq![s[0]@] + elems_view(s.drop_first())).len());
    }
}

/// Field views line up index by index with the fields.
pub proof fn lemma_fields_view(s: Seq<(String, Node)>)
    ensures
        fields_view(s).len() == s.len(),
        forall|i: int|
            0 <= i < s.len() ==> fields_view(s)[i] == (s[i].0@, s[i].1@),
    decreases s.len(),
{
    if s.len() > 0 {
        lemma_fields_view(s.drop_first());
        assert forall|i: int|
            0 <= i < s.len() implies fields_view(s)[i] == (s[i].0@, s[i].1@) by {
            let a = seq![(s[0].0@, s[0].1@)];
            let b = fields_view(s.drop_first());
            assert(fields_view(s) == a + b);
            if i == 0 {
                assert((a + b)[0] == a[0]);
            } else {
                assert((a + b)[i] == b[i - 1]);
                assert(s.drop_first()[i - 1] == s[i]);
            }
        }
        assert(fields_view(s).len() == (seq![(s[0].0@, s[0].1@)] + fields_view(s.drop_first())).len());
    }
}

impl NodeView {
    /// A scalar is anything that is neither an object nor an array.
    pub open spec fn is_scalar(self) -> bool {
        match self {
            NodeView::Null | NodeView::Bool(_) | NodeView::Num(_) | NodeView::Str(_) => true,
            NodeView::Arr(_) | NodeView::Obj(_) => false,
        }
    }
}

/// The key of every field of an object, in field order.
pub open spec fn obj_keys(fields: Seq<(Seq<char>, NodeView)>) -> Seq<Seq<char>> {
    fields.map_values(|f: (Seq<char>, NodeView)| f.0)
}

/// Whether some field of the object bears the key `k`.
pub open spec fn obj_has_key(fields: Seq<(Seq<char>, NodeView)>, k: Seq<char>) -> bool {
    exists|i: int| 0 <= i < fields.len() && fields[i].0 == k
}

/// The value of the first field bearing the key `k`.
pub open spec fn obj_get(fields: Seq<(Seq<char>, NodeView)>, k: Seq<char>) -> Option<NodeView>
    decreases fields.len(),
{
    if fields.len() == 0 {
        None
    } else if fields[0].0 == k {
        Some(fields[0].1)
    } else {
        obj_get(fields.drop_first(), k)
    }
}

/// `obj_get` answers `Some` exactly on the keys that `obj_has_key` admits.
pub proof fn lemma_obj_get_has_key(fields: Seq<(Seq<char>, NodeView)>, k: Seq<char>)
    ensures
        obj_has_key(fields, k) <==> obj_get(fields, k) is Some,
    decreases fields.len(),
{
    if fields.len() > 0 && fields[0].0 != k {
        lemma_obj_get_has_key(fields.drop_first(), k);
        assert(obj_has_key(fields, k) ==> obj_has_key(fields.drop_first(), k)) by {
            if obj_has_key(fields, k) {
                let i = choose|i: int| 0 <= i < fields.len() && fields[i].0 == k;
                assert(fields.drop_first()[i - 1].0 == k);
            }
        }
        assert(obj_has_key(fields.drop_first(), k) ==> obj_has_key(fields, k)) by {
            if obj_has_key(fields.drop_first(), k) {
                let i = choose|i: int|
                    0 <= i < fields.drop_first().len() && fields.drop_first()[i].0 == k;
                assert(fields[i + 1].0 == k);
            }
        }
    }
}


/// `obj_get` answers the first field bearing the key.
pub proof fn lemma_obj_get_at(fields: Seq<(Seq<char>, NodeView)>, k: Seq<char>, i: int)
    requires
        0 <= i < fields.len(),
        fields[i].0 == k,
        forall|j: int| 0 <= j < i ==> fields[j].0 != k,
    ensures
        obj_get(fields, k) == Some(fields[i].1),
    decreases fields.len(),
{
    if i > 0 {
        assert(fields[0].0 != k);
        let t = fields.drop_first();
        assert(t[i - 1] == fields[i]);
        assert(forall|j: int| 0 <= j < i - 1 ==> t[j] == fields[j + 1]);
        lemma_obj_get_at(t, k, i - 1);
    }
}

/// The index of the first field bearing the key, if any field does.
pub fn find_key(fields: &Vec<(String, Node)>, key: &str) -> (r: Option<usize>)
    ensures
        match r {
            Some(i) => {
                &&& i < fields@.len()
                &&& fields_view(fields@)[i as int].0 == key@
                &&& forall|j: int| 0 <= j < i ==> fields_view(fields@)[j].0 != key@
                &&& obj_has_key(fields_view(fields@), key@)
                &&& obj_get(fields_view(fields@), key@) == Some(
                    fields_view(fields@)[i as int].1,
                )
            },
            None => {
                &&& !obj_has_key(fields_view(fields@), key@)
                &&& obj_get(fields_view(fields@), key@) is None
            },
        },
{
    proof {
        lemma_fields_view(fields@);
    }
    let ghost fv = fields_view(fields@);
    let n = fields.len();
    let mut i: usize = 0;
    while i < n
        invariant
            i <= n,
            n == fields@.len(),
            fv == fields_view(fields@),
            fv.len() == n,
            forall|j: int| 0 <= j < n ==> fv[j] == (fields@[j].0@, fields@[j].1@),
            forall|j: int| 0 <= j < i ==> fv[j].0 != key@,
        decreases n - i,
    {
        if crate::text::str_eq(fields[i].0.as_str(), key) {
            proof {
                lemma_obj_get_at(fv, key@, i as int);
            }
            return Some(i);
        }
        i = i + 1;
    }
    proof {
        if obj_has_key(fv, key@) {
            let w = choose|w: int| 0 <= w < fv.len() && fv[w].0 == key@;
            assert(fv[w].0 != key@);
            assert(false);
        }
        lemma_obj_get_has_key(fv, key@);
    }
    None
}

/// A fresh tree equal to the given one.
pub fn deep_copy(n: &Node) -> (r: Node)
    ensures
        r@ == n@,
    decreases n,
{
    match n {
        Node::Null => Node::Null,
        Node::Bool(b) => Node::Bool(*b),
        Node::Num(s) => Node::Num(s.clone()),
        Node::Str(s) => Node::Str(s.clone()),
        Node::Arr(elems) => {
            proof {
                lemma_elems_view(elems@);
            }
            let mut out: Vec<Node> = Vec::new();
            let mut i: usize = 0;
            while i < elems.len()
                invariant
                    *n == Node::Arr(*elems),
                    i <= elems@.len(),
                    elems_view(out@).len() == i as int,
                    forall|j: int| 0 <= j < i ==> elems_view(out@)[j] == elems@[j]@,
                decreases elems@.len() - i,
            {
                proof {
                    assert(n->Arr_0 == *elems);
                    assert(decreases_to!(*n => n->Arr_0));
                    assert(decreases_to!(*elems => elems@));
                    assert(decreases_to!(elems@ => elems@[i as int]));
                }
                let ghost out_before = out@;
                let copied = deep_copy(&elems[i]);
                let ghost cv = copied@;
                proof {
                    assert(cv == elems@[i as int]@);
                }
                out.push(copied);
                i = i + 1;
                proof {
                    lemma_elems_view(out_before);
                    lemma_elems_view(out@);
                    assert(out@ == out_before.push(out@.last()));
                    assert(out@.last()@ == cv);
                    assert forall|j: int| 0 <= j < i implies elems_view(out@)[j] == elems@[j]@ by {
                        assert(elems_view(out@)[j] == out@[j]@);
                        if j < i - 1 {
                            assert(out@[j] == out_before[j]);
                            assert(elems_view(out_before)[j] == out_before[j]@);
                        } else {
                            assert(out@[j] == out@.last());
                        }
                    }
                }
            }
            proof {
                lemma_elems_view(out@);
                lemma_elems_view(elems@);
                assert(elems_view(out@) =~= elems_view(elems@));
            }
            Node::Arr(out)
        },
        Node::Obj(fields) => {
            proof {
                lemma_fields_view(fields@);
            }
            let mut out: Vec<(String, Node)> = Vec::new();
            let mut i: usize = 0;
            while i < fields.len()
                invariant
                    *n == Node::Obj(*fields),
                    i <= fields@.len(),
                    fields_view(out@).len() == i as int,
                    forall|j: int|
                        0 <= j < i ==> fields_view(out@)[j] == (fields@[j].0@, fields@[j].1@),
                decreases fields@.len() - i,
            {
                proof {
                    assert(n->Obj_0 == *fields);
                    assert(decreases_to!(*n => n->Obj_0));
                    assert(decreases_to!(*fields => fields@));
                    assert(decreases_to!(fields@ => fields@[i as int]));
                    assert(decreases_to!(fields@[i as int] => fields@[i as int].1));
                }
                let ghost out_before = out@;
                let copied = deep_copy(&fields[i].1);
                let ghost cv = copied@;
                proof {
                    assert(cv == fields@[i as int].1@);
                }
                out.push((fields[i].0.clone(), copied));
                i = i + 1;
                proof {
                    lemma_fields_view(out_before);
                    lemma_fields_view(out@);
                    assert(out@ == out_before.push(out@.last()));
                    assert(out@.last().0@ == fields@[i - 1].0@);
                    assert(out@.last().1@ == cv);
                    assert forall|j: int|
                        0 <= j < i implies fields_view(out@)[j] == (
                        fields@[j].0@,
                        fields@[j].1@,
                    ) by {
                        assert(fields_view(out@)[j] == (out@[j].0@, out@[j].1@));
                        if j < i - 1 {
                            assert(out@[j] == out_before[j]);
                            assert(fields_view(out_before)[j] == (out_before[j].0@, out_before[j].1@));
                        } else {
                            assert(out@[j] == out@.last());
                        }
                    }
                }
            }
            proof {
                lemma_fields_view(out@);
                lemma_fields_view(fields@);
                assert(fields_view(out@) =~= fields_view(fields@));
            }
            Node::Obj(out)
        },
    }
}

} // verus!
