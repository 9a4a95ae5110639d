use vstd::prelude::*;
use vstd::string::StringExecFns;
use crate::bridge::{eval_query, min_index_literal, path_screened, query_results};
use crate::node::{elems_view, Node, NodeView};
use crate::text::{
    chars_to_string, find_from, first_at, join_sep, join_with, lemma_first_at, push_char,
    strs_view, subvec, to_chars,
};

verus! {

/// The string payloads among the nodes, in order; everything else dropped.
pub open spec fn strs_of(es: Seq<NodeView>) -> Seq<Seq<char>>
    decreases es.len(),
{
    if es.len() == 0 {
        Seq::empty()
    } else {
        match es[0] {
            NodeView::Str(s) => seq![s] + strs_of(es.drop_first()),
            _ => strs_of(es.drop_first()),
        }
    }
}

/// The text a single query match renders as: a string as itself, an array
/// as its string elements joined with spaces, a number as its decimal text,
/// a boolean as its name, anything else as nothing.
pub open spec fn stringify_one(v: NodeView) -> Seq<char> {
    match v {
        NodeView::Str(s) => s,
        NodeView::Arr(es) => join_sep(strs_of(es), ' '),
        NodeView::Num(d) => d,
        NodeView::Bool(b) => if b {
            seq!['t', 'r', 'u', 'e']
        } else {
            seq!['f', 'a', 'l', 's', 'e']
        },
        _ => Seq::empty(),
    }
}

/// What a template query renders from: the evaluator's matches, for every
/// path the evaluator can safely answer; a screened path — a filter, a
/// slice, or the floor index literal, the places the evaluator can abort —
/// is left unevaluated, as quiet degradation demands a sure answer.
pub open spec fn quiet_query(n: NodeView, path: Seq<char>) -> Option<Seq<NodeView>> {
    if path_screened(path) {
        None
    } else {
        query_results(n, path)
    }
}

/// The text a whole query answer renders as: one match by `stringify_one`,
/// several matches as their string-typed ones joined with spaces, no match
/// or a rejected path as nothing.
pub open spec fn stringify(r: Option<Seq<NodeView>>) -> Seq<char> {
    match r {
        None => Seq::empty(),
        Some(rs) => if rs.len() == 1 {
            stringify_one(rs[0])
        } else if rs.len() > 1 {
            join_sep(strs_of(rs), ' ')
        } else {
            Seq::empty()
        },
    }
}

/// Where the placeholder opened at the head of the text closes: the first
/// closing brace that leaves at least one character after the query marker.
pub open spec fn first_close(t: Seq<char>) -> Option<int> {
    match first_at(t.skip(3), '}') {
        Some(d) => Some(d + 3),
        None => None,
    }
}

/// Whether the text begins with a placeholder: an opening brace, the query
/// marker, at least one more character, and a closing brace, with no line
/// feed between marker and close.
pub open spec fn ph_at_start(t: Seq<char>) -> bool {
    &&& t.len() >= 4
    &&& t[0] == '{'
    &&& t[1] == '$'
    &&& match first_close(t) {
        Some(j) => forall|k: int| 2 <= k < j ==> t[k] != '\n',
        None => false,
    }
}

/// The template text with every placeholder replaced by what its query
/// renders as against the given tree, scanning left to right.
pub open spec fn subst(t: Seq<char>, n: NodeView) -> Seq<char>
    decreases t.len(),
    via subst_dec
{
    if t.len() == 0 {
        Seq::empty()
    } else if ph_at_start(t) {
        match first_close(t) {
            Some(j) => stringify(quiet_query(n, t.subrange(1, j))) + subst(t.skip(j + 1), n),
            None => Seq::empty(),
        }
    } else {
        seq![t[0]] + subst(t.skip(1), n)
    }
}

#[via_fn]
proof fn subst_dec(t: Seq<char>, n: NodeView) {
    if t.len() > 0 && ph_at_start(t) {
        lemma_first_at(t.skip(3), '}');
    }
}

/// The string payloads among the nodes, as strings.
fn collect_strs(nodes: &Vec<Node>) -> (r: Vec<String>)
    ensures
        strs_view(r@) == strs_of(elems_view(nodes@)),
{
    let mut out: Vec<String> = Vec::new();
    let mut i: usize = 0;
    let ghost ev = elems_view(nodes@);
    proof {
        crate::node::lemma_elems_view(nodes@);
        assert(ev.skip(0) =~= ev);
    }
    while i < nodes.len()
        invariant
            i <= nodes@.len(),
            ev == elems_view(nodes@),
            ev.len() == nodes@.len(),
            forall|j: int| 0 <= j < nodes@.len() ==> ev[j] == nodes@[j]@,
            strs_view(out@) + strs_of(ev.skip(i as int)) == strs_of(ev),
        decreases nodes.len() - i,
    {
        let ghost t = ev.skip(i as int);
        proof {
            assert(t[0] == ev[i as int]);
            assert(t.drop_first() =~= ev.skip(i + 1));
        }
        match &nodes[i] {
            Node::Str(s) => {
                let ghost out_before = out@;
                out.push(s.clone());
                proof {
                    assert(strs_view(out@) =~= strs_view(out_before).push(s@));
                    assert(strs_of(t) == seq![s@] + strs_of(ev.skip(i + 1)));
                    assert(strs_view(out@) + strs_of(ev.skip(i + 1)) =~= strs_view(out_before)
                        + strs_of(t));
                }
            },
            _ => {
                proof {
                    assert(strs_of(t) == strs_of(ev.skip(i + 1)));
                }
            },
        }
        i = i + 1;
    }
    proof {
        assert(strs_of(ev.skip(nodes@.len() as int)) =~= Seq::<Seq<char>>::empty());
        assert(strs_view(out@) =~= strs_of(ev));
    }
    out
}

/// The text one match renders as.
fn stringify_one_exec(node: &Node) -> (r: String)
    ensures
        r@ == stringify_one(node@),
{
    match node {
        Node::Str(s) => s.clone(),
        Node::Arr(es) => {
            let parts = collect_strs(es);
            join_with(&parts, ' ')
        },
        Node::Num(d) => d.clone(),
        Node::Bool(b) => {
            if *b {
                let r = String::from_str("true");
                proof {
                    reveal_strlit("true");
                    assert(r@ =~= seq!['t', 'r', 'u', 'e']);
                }
                r
            } else {
                let r = String::from_str("false");
                proof {
                    reveal_strlit("false");
                    assert(r@ =~= seq!['f', 'a', 'l', 's', 'e']);
                }
                r
            }
        },
        _ => String::new(),
    }
}

/// Whether twenty characters of the path starting at the given place spell
/// the floor index literal.
fn matches_min_literal_at(cs: &Vec<char>, lit: &Vec<char>, at: usize) -> (b: bool)
    requires
        at + 20 <= cs@.len(),
        lit@ == min_index_literal(),
    ensures
        b == (cs@.subrange(at as int, at + 20) == min_index_literal()),
{
    let n = cs.len();
    let mut j: usize = 0;
    while j < 20
        invariant
            j <= 20,
            n == cs@.len(),
            at + 20 <= n,
            lit@ == min_index_literal(),
            forall|k: int| 0 <= k < j ==> cs@[at + k] == min_index_literal()[k],
        decreases 20 - j,
    {
        if cs[at + j] != lit[j] {
            proof {
                assert(cs@.subrange(at as int, at + 20)[j as int] != min_index_literal()[
                    j as int
                ]);
            }
            return false;
        }
        j = j + 1;
    }
    proof {
        assert(cs@.subrange(at as int, at + 20) =~= min_index_literal());
    }
    true
}

/// Whether the path holds a character or a literal the evaluator must not
/// see.
fn is_screened_path(cs: &Vec<char>) -> (b: bool)
    ensures
        b == path_screened(cs@),
{
    let n = cs.len();
    let mut i: usize = 0;
    while i < n
        invariant
            i <= n,
            n == cs@.len(),
            forall|j: int| 0 <= j < i ==> !(cs@[j] == '?' || cs@[j] == ':'),
        decreases n - i,
    {
        if cs[i] == '?' || cs[i] == ':' {
            return true;
        }
        i = i + 1;
    }
    if n < 20 {
        proof {
            if path_screened(cs@) {
                if exists|k: int|
                    0 <= k < cs@.len() && (cs@[k] == '?' || cs@[k] == ':') {
                    let k = choose|k: int|
                        0 <= k < cs@.len() && (cs@[k] == '?' || cs@[k] == ':');
                    assert(!(cs@[k] == '?' || cs@[k] == ':'));
                }
                assert(false);
            }
        }
        return false;
    }
    let lit = to_chars("-9223372036854775808");
    proof {
        reveal_strlit("-9223372036854775808");
        assert(lit@ =~= min_index_literal());
    }
    let mut p: usize = 0;
    while p <= n - 20
        invariant
            p <= n,
            n == cs@.len(),
            n >= 20,
            lit@ == min_index_literal(),
            forall|j: int| 0 <= j < n ==> !(cs@[j] == '?' || cs@[j] == ':'),
            forall|k: int| 0 <= k < p ==> #[trigger] cs@.subrange(k, k + 20)
                != min_index_literal(),
        decreases n - p,
    {
        if matches_min_literal_at(cs, &lit, p) {
            return true;
        }
        p = p + 1;
    }
    proof {
        if path_screened(cs@) {
            if exists|k: int|
                0 <= k < cs@.len() && (cs@[k] == '?' || cs@[k] == ':') {
                let k = choose|k: int|
                    0 <= k < cs@.len() && (cs@[k] == '?' || cs@[k] == ':');
                assert(!(cs@[k] == '?' || cs@[k] == ':'));
            }
            if exists|k: int|
                0 <= k && k + 20 <= cs@.len() && #[trigger] cs@.subrange(k, k + 20)
                    == min_index_literal() {
                let k = choose|k: int|
                    0 <= k && k + 20 <= cs@.len() && #[trigger] cs@.subrange(k, k + 20)
                        == min_index_literal();
                assert(k < p);
                assert(cs@.subrange(k, k + 20) != min_index_literal());
            }
            assert(false);
        }
    }
    false
}

/// The text the path query renders as against the tree. Quiet throughout:
/// no match, a path the evaluator rejects, and a screened path — kept away
/// from the evaluator, which can abort on it — all render as nothing.
pub fn xjsonp_first(v: &Node, json_path: &str) -> (r: String)
    ensures
        r@ == stringify(quiet_query(v@, json_path@)),
{
    let cs = to_chars(json_path);
    if is_screened_path(&cs) {
        return String::new();
    }
    match eval_query(v, json_path) {
        None => String::new(),
        Some(nodes) => {
            proof {
                crate::node::lemma_elems_view(nodes@);
            }
            if nodes.len() == 1 {
                stringify_one_exec(&nodes[0])
            } else if nodes.len() > 1 {
                let parts = collect_strs(&nodes);
                join_with(&parts, ' ')
            } else {
                String::new()
            }
        },
    }
}

/// The template with each placeholder replaced by what its query renders as
/// against the given tree.
pub fn apply_format(v: &Node, input: &str) -> (r: String)
    ensures
        r@ == subst(input@, v@),
{
    let t = to_chars(input);
    let n = t.len();
    let mut out = String::new();
    let mut i: usize = 0;
    proof {
        assert(t@.skip(0) =~= t@);
    }
    loop
        invariant
            i <= n,
            n == t@.len(),
            t@ == input@,
            out@ + subst(t@.skip(i as int), v@) == subst(input@, v@),
        decreases n - i,
    {
        if i >= n {
            proof {
                assert(subst(t@.skip(i as int), v@) =~= Seq::<char>::empty());
            }
            return out;
        }
        let ghost u = t@.skip(i as int);
        proof {
            assert(u[0] == t@[i as int]);
            assert(u.drop_first() =~= t@.skip(i + 1));
            assert(u.skip(1) =~= t@.skip(i + 1));
        }
        let mut handled = false;
        if n - i >= 4 && t[i] == '{' && t[i + 1] == '$' {
            proof {
                assert(u.skip(3) =~= t@.skip(i + 3));
            }
            match find_from(&t, '}', i + 3) {
                Some(j) => {
                    proof {
                        assert(first_close(u) == Some(j - i));
                    }
                    let mut clean = true;
                    match find_from(&t, '\n', i + 2) {
                        Some(nl) => {
                            if nl < j {
                                clean = false;
                                proof {
                                    lemma_first_at(t@.skip(i + 2), '\n');
                                    assert(t@.skip(i + 2)[nl - i - 2] == '\n');
                                    assert(u[nl - i] == '\n');
                                    assert(!ph_at_start(u));
                                }
                            } else {
                                proof {
                                    lemma_first_at(t@.skip(i + 2), '\n');
                                    assert forall|k: int| 2 <= k < j - i implies u[k] != '\n' by {
                                        assert(t@.skip(i + 2)[k - 2] != '\n');
                                    }
                                }
                            }
                        },
                        None => {
                            proof {
                                lemma_first_at(t@.skip(i + 2), '\n');
                                assert forall|k: int| 2 <= k < j - i implies u[k] != '\n' by {
                                    assert(t@.skip(i + 2)[k - 2] != '\n');
                                }
                            }
                        },
                    }
                    if clean {
                        proof {
                            assert(ph_at_start(u));
                        }
                        let q = chars_to_string(&subvec(&t, i + 1, j));
                        let piece = xjsonp_first(v, q.as_str());
                        out.append(piece.as_str());
                        proof {
                            assert(q@ =~= u.subrange(1, j - i));
                            assert(u.skip(j - i + 1) =~= t@.skip(j + 1));
                            assert(subst(u, v@) == stringify(quiet_query(v@, u.subrange(
                                1,
                                j - i,
                            ))) + subst(t@.skip(j + 1), v@));
                        }
                        i = j + 1;
                        handled = true;
                    }
                },
                None => {
                    proof {
                        assert(first_close(u) is None);
                        assert(!ph_at_start(u));
                    }
                },
            }
        }
        if !handled {
            proof {
                if n - i >= 4 {
                } else {
                    assert(u.len() < 4);
                }
                assert(!ph_at_start(u));
                assert(subst(u, v@) == seq![u[0]] + subst(t@.skip(i + 1), v@));
            }
            push_char(&mut out, t[i]);
            i = i + 1;
        }
    }
}

} // verus!
