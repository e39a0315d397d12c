use vstd::prelude::*;
use crate::error::{ConflictError, ConflictModel};
use crate::pattern::{
    PatternSegment, SegModel, parse_pattern, seg_views, seq_views, spec_pattern, spec_segments,
    split_path,
};

verus! {

broadcast use vstd::std_specs::vec::axiom_vec_decreases_to_view;

/// One node of a routing trie. Children are keyed by literal segment text;
/// at most one parameter-capture child exists per node, carrying the declared
/// parameter name.
pub(crate) struct Node {
    pub(crate) value: Option<String>,
    pub(crate) lits: Vec<(String, Node)>,
    pub(crate) param: Option<(String, Box<Node>)>,
}

/// Mathematical model of a trie node. The parameter child is a sequence of
/// length at most one, so the whole model is a plain first-order value.
#[verifier::ext_equal]
pub ghost struct NodeModel {
    pub value: Option<Seq<char>>,
    pub lits: Seq<(Seq<char>, NodeModel)>,
    pub params: Seq<(Seq<char>, NodeModel)>,
}

/// The model of each literal edge of a node, in order.
pub(crate) open spec fn lits_view(lits: Seq<(String, Node)>) -> Seq<(Seq<char>, NodeModel)>
    decreases lits,
{
    if lits.len() == 0 {
        Seq::empty()
    } else {
        lits_view(lits.drop_last()).push((lits.last().0@, lits.last().1.view()))
    }
}

impl View for Node {
    type V = NodeModel;

    closed spec fn view(&self) -> NodeModel
        decreases *self,
    {
        NodeModel {
            value: match self.value {
                Some(ref v) => Some(v@),
                None => None,
            },
            lits: lits_view(self.lits@),
            params: match self.param {
                Some((ref n, ref c)) => seq![(n@, (**c).view())],
                None => Seq::empty(),
            },
        }
    }
}

/// The model of an empty trie node.
pub open spec fn empty_model() -> NodeModel {
    NodeModel { value: None, lits: Seq::empty(), params: Seq::empty() }
}

/// The position of the first literal edge labelled `s`, if any.
pub open spec fn find_lit(lits: Seq<(Seq<char>, NodeModel)>, s: Seq<char>) -> Option<int>
    decreases lits.len(),
{
    if lits.len() == 0 {
        None
    } else if lits[0].0 == s {
        Some(0)
    } else {
        match find_lit(lits.drop_first(), s) {
            Some(j) => Some(j + 1),
            None => None,
        }
    }
}

/// What [`find_lit`] returns: the first matching index, or nothing when no
/// edge carries the label.
pub proof fn lemma_find_lit(lits: Seq<(Seq<char>, NodeModel)>, s: Seq<char>)
    ensures
        match find_lit(lits, s) {
            Some(j) => 0 <= j < lits.len() && lits[j].0 == s && forall|k: int|
                0 <= k < j ==> lits[k].0 != s,
            None => forall|k: int| 0 <= k < lits.len() ==> lits[k].0 != s,
        },
    decreases lits.len(),
{
    if lits.len() > 0 && lits[0].0 != s {
        lemma_find_lit(lits.drop_first(), s);
        match find_lit(lits.drop_first(), s) {
            Some(jp) => {
                assert forall|k: int| 0 <= k < jp + 1 implies lits[k].0 != s by {
                    if k > 0 {
                        assert(lits.drop_first()[k - 1] == lits[k]);
                    }
                }
            },
            None => {
                assert forall|k: int| 0 <= k < lits.len() implies lits[k].0 != s by {
                    if k > 0 {
                        assert(lits.drop_first()[k - 1] == lits[k]);
                    }
                }
            },
        }
    }
}

/// The chain of fresh nodes that inserting the rest of a pattern creates
/// below a node that had no matching edge.
pub open spec fn fresh_chain(p: Seq<SegModel>, i: int, v: Seq<char>) -> NodeModel
    decreases p.len() - i,
{
    if i >= p.len() {
        NodeModel { value: Some(v), lits: Seq::empty(), params: Seq::empty() }
    } else {
        match p[i] {
            SegModel::Literal(s) => NodeModel {
                value: None,
                lits: seq![(s, fresh_chain(p, i + 1, v))],
                params: Seq::empty(),
            },
            SegModel::Parameter(m) => NodeModel {
                value: None,
                lits: Seq::empty(),
                params: seq![(m, fresh_chain(p, i + 1, v))],
            },
        }
    }
}

/// Inserting pattern suffix `p[i..]` with controller `v` into a trie: the new
/// trie, or the conflict that refuses the insert. A pattern conflicts exactly
/// when its walk reaches a terminal that already stores a controller
/// (indistinguishable patterns), or crosses a position whose parameter edge
/// carries another name (ambiguous patterns).
pub open spec fn spec_insert(n: NodeModel, p: Seq<SegModel>, i: int, v: Seq<char>) -> Result<
    NodeModel,
    ConflictModel,
>
    decreases p.len() - i,
{
    if i >= p.len() {
        match n.value {
            Some(c) => Err(ConflictModel::Duplicate(c)),
            None => Ok(NodeModel { value: Some(v), lits: n.lits, params: n.params }),
        }
    } else {
        match p[i] {
            SegModel::Literal(s) => match find_lit(n.lits, s) {
                Some(j) => match spec_insert(n.lits[j].1, p, i + 1, v) {
                    Ok(c) => Ok(
                        NodeModel {
                            value: n.value,
                            lits: n.lits.update(j, (s, c)),
                            params: n.params,
                        },
                    ),
                    Err(e) => Err(e),
                },
                None => Ok(
                    NodeModel {
                        value: n.value,
                        lits: n.lits.push((s, fresh_chain(p, i + 1, v))),
                        params: n.params,
                    },
                ),
            },
            SegModel::Parameter(m) => {
                if n.params.len() > 0 {
                    if n.params[0].0 == m {
                        match spec_insert(n.params[0].1, p, i + 1, v) {
                            Ok(c) => Ok(
                                NodeModel {
                                    value: n.value,
                                    lits: n.lits,
                                    params: seq![(n.params[0].0, c)],
                                },
                            ),
                            Err(e) => Err(e),
                        }
                    } else {
                        Err(ConflictModel::Ambiguous(n.params[0].0))
                    }
                } else {
                    Ok(
                        NodeModel {
                            value: n.value,
                            lits: n.lits,
                            params: seq![(m, fresh_chain(p, i + 1, v))],
                        },
                    )
                }
            },
        }
    }
}

/// Matching path suffix `segs[i..]` against a trie: the controller and the
/// captured parameters of the matched route, if any route matches. At every
/// node a literal edge that leads to a match takes precedence over the
/// parameter edge; a parameter edge consumes exactly one segment and binds it
/// to the parameter's declared name.
pub open spec fn spec_lookup(n: NodeModel, segs: Seq<Seq<char>>, i: int) -> Option<
    (Seq<char>, Map<Seq<char>, Seq<char>>),
>
    decreases segs.len() - i,
{
    if i >= segs.len() {
        match n.value {
            Some(v) => Some((v, Map::empty())),
            None => None,
        }
    } else {
        let s = segs[i];
        let via_lit = match find_lit(n.lits, s) {
            Some(j) => spec_lookup(n.lits[j].1, segs, i + 1),
            None => None,
        };
        if via_lit is Some {
            via_lit
        } else if n.params.len() > 0 {
            match spec_lookup(n.params[0].1, segs, i + 1) {
                Some(r) => Some((r.0, r.1.insert(n.params[0].0, s))),
                None => None,
            }
        } else {
            None
        }
    }
}

/// The map a captured parameter list denotes: later entries win.
pub open spec fn params_map(ps: Seq<(String, String)>) -> Map<Seq<char>, Seq<char>>
    decreases ps.len(),
{
    if ps.len() == 0 {
        Map::empty()
    } else {
        params_map(ps.drop_last()).insert(ps.last().0@, ps.last().1@)
    }
}

/// The edge models line up with the edges, position by position.
pub(crate) proof fn lemma_lits_view(lits: Seq<(String, Node)>)
    ensures
        lits_view(lits).len() == lits.len(),
        forall|k: int|
            0 <= k < lits.len() ==> lits_view(lits)[k] == (lits[k].0@, lits[k].1.view()),
    decreases lits,
{
    if lits.len() > 0 {
        lemma_lits_view(lits.drop_last());
        assert(lits_view(lits) == lits_view(lits.drop_last()).push(
            (lits.last().0@, lits.last().1.view()),
        ));
        assert forall|k: int|
            0 <= k < lits.len() implies lits_view(lits)[k] == (
            lits[k].0@,
            lits[k].1.view(),
        ) by {
            if k < lits.len() - 1 {
                assert(lits.drop_last()[k] == lits[k]);
                assert(lits_view(lits)[k] == lits_view(lits.drop_last())[k]);
            } else {
                assert(lits[k] == lits.last());
            }
        }
    } else {
        assert(lits_view(lits) == Seq::<(Seq<char>, NodeModel)>::empty());
    }
}

/// Finds the first literal edge of `lits` labelled `s`.
fn find_edge(lits: &Vec<(String, Node)>, s: &String) -> (r: Option<usize>)
    ensures
        match r {
            Some(j) => j < lits@.len() && find_lit(lits_view(lits@), s@) == Some(j as int),
            None => find_lit(lits_view(lits@), s@) is None,
        },
{
    proof {
        lemma_lits_view(lits@);
        lemma_find_lit(lits_view(lits@), s@);
    }
    let mut j: usize = 0;
    while j < lits.len()
        invariant
            0 <= j <= lits@.len(),
            forall|k: int| 0 <= k < j ==> lits@[k].0@ != s@,
            lits_view(lits@).len() == lits@.len(),
            forall|k: int|
                0 <= k < lits@.len() ==> lits_view(lits@)[k] == (lits@[k].0@, lits@[k].1.view()),
        decreases lits@.len() - j,
    {
        let hit = {
            let e = &lits[j];
            e.0 == *s
        };
        if hit {
            proof {
                lemma_find_lit(lits_view(lits@), s@);
                assert(lits_view(lits@)[j as int].0 == s@);
                assert forall|k: int| 0 <= k < j implies lits_view(lits@)[k].0 != s@ by {
                    assert(lits_view(lits@)[k] == (lits@[k].0@, lits@[k].1.view()));
                }
                match find_lit(lits_view(lits@), s@) {
                    Some(jp) => {
                        if jp < j {
                            assert(lits_view(lits@)[jp].0 != s@);
                        }
                        if jp > j {
                            assert(lits_view(lits@)[j as int].0 != s@);
                        }
                    },
                    None => {
                        assert(lits_view(lits@)[j as int].0 != s@);
                    },
                }
            }
            return Some(j);
        }
        j = j + 1;
    }
    proof {
        lemma_find_lit(lits_view(lits@), s@);
        match find_lit(lits_view(lits@), s@) {
            Some(jp) => {
                assert(lits_view(lits@)[jp] == (lits@[jp].0@, lits@[jp].1.view()));
                assert(lits@[jp].0@ != s@);
            },
            None => {},
        }
    }
    None
}

/// Builds the fresh chain of nodes for the rest of a pattern.
fn fresh_node(pat: &Vec<PatternSegment>, i: usize, value: String) -> (r: Node)
    requires
        i <= pat@.len(),
    ensures
        r@ == fresh_chain(seg_views(pat@), i as int, value@),
    decreases pat@.len() - i,
{
    if i == pat.len() {
        let r = Node { value: Some(value), lits: Vec::new(), param: None };
        proof {
            lemma_lits_view(r.lits@);
            assert(lits_view(r.lits@) =~= Seq::<(Seq<char>, NodeModel)>::empty());
            assert(fresh_chain(seg_views(pat@), i as int, value@) == NodeModel {
                value: Some(value@),
                lits: Seq::<(Seq<char>, NodeModel)>::empty(),
                params: Seq::<(Seq<char>, NodeModel)>::empty(),
            });
            assert(r@ =~~= fresh_chain(seg_views(pat@), i as int, value@));
        }
        r
    } else {
        match &pat[i] {
            PatternSegment::Literal(s) => {
                let child = fresh_node(pat, i + 1, value);
                let mut lits: Vec<(String, Node)> = Vec::new();
                lits.push((s.clone(), child));
                let r = Node { value: None, lits, param: None };
                proof {
                    let sv = seg_views(pat@);
                    assert(sv[i as int] == pat@[i as int]@);
                    assert(lits_view(r.lits@) =~= seq![(s@, r.lits@[0].1@)]) by {
                        lemma_lits_view(r.lits@);
                    }
                    assert(fresh_chain(sv, i as int, value@) == NodeModel {
                        value: None,
                        lits: seq![(s@, fresh_chain(sv, i + 1, value@))],
                        params: Seq::<(Seq<char>, NodeModel)>::empty(),
                    });
                    assert(r@ =~~= fresh_chain(sv, i as int, value@));
                }
                r
            },
            PatternSegment::Parameter(m) => {
                let child = fresh_node(pat, i + 1, value);
                let r = Node { value: None, lits: Vec::new(), param: Some((m.clone(), Box::new(child))) };
                proof {
                    let sv = seg_views(pat@);
                    assert(sv[i as int] == pat@[i as int]@);
                    lemma_lits_view(r.lits@);
                    assert(lits_view(r.lits@) =~= Seq::<(Seq<char>, NodeModel)>::empty());
                    assert(fresh_chain(sv, i as int, value@) == NodeModel {
                        value: None,
                        lits: Seq::<(Seq<char>, NodeModel)>::empty(),
                        params: seq![(m@, fresh_chain(sv, i + 1, value@))],
                    });
                    assert(r@ =~~= fresh_chain(sv, i as int, value@));
                }
                r
            },
        }
    }
}

/// Inserts pattern suffix `pat[i..]` into the trie rooted at `n`, as
/// [`spec_insert`] describes; on a conflict the trie is handed back unchanged.
fn insert_at(n: Node, pat: &Vec<PatternSegment>, i: usize, value: String) -> (res: (
    Node,
    Result<(), ConflictError>,
))
    requires
        i <= pat@.len(),
    ensures
        ({
            let sp = spec_insert(n@, seg_views(pat@), i as int, value@);
            match res.1 {
                Ok(_) => sp is Ok && res.0@ == sp->Ok_0,
                Err(e) => sp is Err && e@ == sp->Err_0 && res.0@ == n@,
            }
        }),
    decreases pat@.len() - i,
{
    let Node { value: nval, lits, param } = n;
    if i == pat.len() {
        match nval {
            Some(c) => {
                let e = ConflictError::Duplicate { existing_controller: c.clone() };
                (Node { value: Some(c), lits, param }, Err(e))
            },
            None => (Node { value: Some(value), lits, param }, Ok(())),
        }
    } else {
        match &pat[i] {
            PatternSegment::Literal(s) => {
                proof {
                    assert(seg_views(pat@)[i as int] == pat@[i as int]@);
                }
                match find_edge(&lits, s) {
                    Some(j) => {
                        let mut lits = lits;
                        let ghost lits0 = lits@;
                        let (label, child) = lits.remove(j);
                        let (child2, r) = insert_at(child, pat, i + 1, value);
                        lits.insert(j, (label, child2));
                        let node = Node { value: nval, lits, param };
                        proof {
                            let sv = seg_views(pat@);
                            let sp = spec_insert(n@, sv, i as int, value@);
                            let spc = spec_insert(
                                lits_view(lits0)[j as int].1,
                                sv,
                                i as int + 1,
                                value@,
                            );
                            lemma_lits_view(lits0);
                            lemma_lits_view(node.lits@);
                            assert(n@.lits == lits_view(lits0));
                            assert(sv[i as int] == SegModel::Literal(s@));
                            assert(sp == (match spc {
                                Ok(c) => Ok(
                                    NodeModel {
                                        value: n@.value,
                                        lits: n@.lits.update(j as int, (s@, c)),
                                        params: n@.params,
                                    },
                                ),
                                Err(e) => Err(e),
                            }));
                            assert(child@ == lits_view(lits0)[j as int].1);
                            assert(node.lits@ =~= lits0.update(
                                j as int,
                                (lits0[j as int].0, child2),
                            ));
                            lemma_find_lit(lits_view(lits0), s@);
                            assert(lits0[j as int].0@ == s@);
                            if r is Ok {
                                assert(lits_view(node.lits@) =~= lits_view(lits0).update(
                                    j as int,
                                    (lits0[j as int].0@, child2@),
                                ));
                                assert(node@ =~~= sp->Ok_0);
                            } else {
                                assert(lits_view(node.lits@) =~= lits_view(lits0));
                                assert(node@ =~~= n@);
                            }
                        }
                        (node, r)
                    },
                    None => {
                        let chain = fresh_node(pat, i + 1, value);
                        let mut lits = lits;
                        let ghost lits0 = lits@;
                        lits.push((s.clone(), chain));
                        let node = Node { value: nval, lits, param };
                        proof {
                            let sv = seg_views(pat@);
                            lemma_lits_view(lits0);
                            lemma_lits_view(node.lits@);
                            assert(n@.lits == lits_view(lits0));
                            assert(sv[i as int] == SegModel::Literal(s@));
                            assert(spec_insert(n@, sv, i as int, value@) == Ok::<
                                NodeModel,
                                ConflictModel,
                            >(
                                NodeModel {
                                    value: n@.value,
                                    lits: n@.lits.push((s@, fresh_chain(sv, i as int + 1, value@))),
                                    params: n@.params,
                                },
                            ));
                            assert(lits_view(node.lits@) =~= lits_view(lits0).push((s@, chain@)));
                            assert(node@ =~~= spec_insert(n@, sv, i as int, value@)->Ok_0);
                        }
                        (node, Ok(()))
                    },
                }
            },
            PatternSegment::Parameter(name) => {
                proof {
                    assert(seg_views(pat@)[i as int] == pat@[i as int]@);
                }
                match param {
                    Some((pname, child_box)) => {
                        let same = pname == *name;
                        if same {
                            let child = *child_box;
                            let (child2, r) = insert_at(child, pat, i + 1, value);
                            let node = Node {
                                value: nval,
                                lits,
                                param: Some((pname, Box::new(child2))),
                            };
                            proof {
                                if r is Ok {
                                    assert(node@ =~~= spec_insert(
                                        n@,
                                        seg_views(pat@),
                                        i as int,
                                        value@,
                                    )->Ok_0);
                                } else {
                                    assert(node@ =~~= n@);
                                }
                            }
                            (node, r)
                        } else {
                            let e = ConflictError::Ambiguous { existing_name: pname.clone() };
                            let node = Node { value: nval, lits, param: Some((pname, child_box)) };
                            proof {
                                assert(node@ =~~= n@);
                            }
                            (node, Err(e))
                        }
                    },
                    None => {
                        let chain = fresh_node(pat, i + 1, value);
                        let node = Node {
                            value: nval,
                            lits,
                            param: Some((name.clone(), Box::new(chain))),
                        };
                        proof {
                            assert(node@ =~~= spec_insert(
                                n@,
                                seg_views(pat@),
                                i as int,
                                value@,
                            )->Ok_0);
                        }
                        (node, Ok(()))
                    },
                }
            },
        }
    }
}

/// Matches path suffix `segs[i..]` against the trie rooted at `n`, as
/// [`spec_lookup`] describes.
fn lookup_at(n: &Node, segs: &Vec<String>, i: usize) -> (r: Option<(String, Vec<(String, String)>)>)
    requires
        i <= segs@.len(),
    ensures
        ({
            let sp = spec_lookup(n@, seq_views(segs@), i as int);
            match r {
                Some(p) => sp is Some && ({
                    let q = sp->Some_0;
                    p.0@ == q.0 && params_map(p.1@) == q.1
                }),
                None => sp is None,
            }
        }),
    decreases segs@.len() - i,
{
    if i == segs.len() {
        match &n.value {
            Some(v) => Some((v.clone(), Vec::new())),
            None => None,
        }
    } else {
        proof {
            assert(seq_views(segs@)[i as int] == segs@[i as int]@);
            lemma_lits_view(n.lits@);
        }
        let s = &segs[i];
        let via_lit = match find_edge(&n.lits, s) {
            Some(j) => lookup_at(&n.lits[j].1, segs, i + 1),
            None => None,
        };
        if via_lit.is_some() {
            return via_lit;
        }
        match &n.param {
            Some((name, child)) => match lookup_at(child, segs, i + 1) {
                Some(p) => {
                    let (v, mut ps) = p;
                    let ghost ps0 = ps@;
                    ps.push((name.clone(), s.clone()));
                    proof {
                        assert(ps@.drop_last() =~= ps0);
                    }
                    Some((v, ps))
                },
                None => None,
            },
            None => None,
        }
    }
}

/// A per-method routing trie over literal and named-parameter segments.
pub struct PathMatcher {
    root: Node,
}

impl View for PathMatcher {
    type V = NodeModel;

    closed spec fn view(&self) -> NodeModel {
        self.root@
    }
}

impl PathMatcher {
    /// An empty matcher: no route matches anything.
    pub fn new() -> (m: PathMatcher)
        ensures
            m@ == empty_model(),
    {
        let m = PathMatcher { root: Node { value: None, lits: Vec::new(), param: None } };
        proof {
            assert(m.root.lits@ =~= Seq::<(String, Node)>::empty());
            assert(lits_view(m.root.lits@) =~= Seq::<(Seq<char>, NodeModel)>::empty());
            assert(m@.value is None);
            assert(m@.params =~= Seq::<(Seq<char>, NodeModel)>::empty());
            assert(m@ =~~= empty_model());
        }
        m
    }

    /// Registers `value` as the controller of `pattern`. Fails, and leaves the
    /// matcher unchanged, exactly when the pattern duplicates a registered
    /// pattern's shape or is ambiguous with a registered parameter edge.
    pub fn insert(&mut self, pattern: &str, value: String) -> (r: Result<(), ConflictError>)
        ensures
            ({
                let sp = spec_insert(old(self)@, spec_pattern(pattern@), 0, value@);
                match r {
                    Ok(_) => sp is Ok && final(self)@ == sp->Ok_0,
                    Err(e) => sp is Err && e@ == sp->Err_0 && final(self)@ == old(self)@,
                }
            }),
    {
        let pat = parse_pattern(pattern);
        let mut tmp = Node { value: None, lits: Vec::new(), param: None };
        core::mem::swap(&mut self.root, &mut tmp);
        let (root2, r) = insert_at(tmp, &pat, 0, value);
        self.root = root2;
        r
    }

    /// Matches a request path, returning the controller registered for the
    /// matched pattern and the captured parameters.
    pub fn lookup(&self, path: &str) -> (r: Option<(String, Vec<(String, String)>)>)
        ensures
            ({
                let sp = spec_lookup(self@, spec_segments(path@), 0);
                match r {
                    Some(p) => sp is Some && ({
                        let q = sp->Some_0;
                        p.0@ == q.0 && params_map(p.1@) == q.1
                    }),
                    None => sp is None,
                }
            }),
    {
        let segs = split_path(path);
        lookup_at(&self.root, &segs, 0)
    }
}

/// Whether two pattern segments are structurally indistinguishable: the same
/// literal text, or both parameters (their names play no part in shape).
pub open spec fn shape_eq(a: SegModel, b: SegModel) -> bool {
    match (a, b) {
        (SegModel::Literal(x), SegModel::Literal(y)) => x == y,
        (SegModel::Parameter(_), SegModel::Parameter(_)) => true,
        _ => false,
    }
}

/// Whether two whole patterns have the same literal/parameter shape.
pub open spec fn same_shape(p1: Seq<SegModel>, p2: Seq<SegModel>) -> bool {
    p1.len() == p2.len() && forall|i: int| 0 <= i < p1.len() ==> shape_eq(p1[i], p2[i])
}

/// [`find_lit`] reads only the edge labels.
proof fn lemma_find_lit_same_labels(
    l1: Seq<(Seq<char>, NodeModel)>,
    l2: Seq<(Seq<char>, NodeModel)>,
    s: Seq<char>,
)
    requires
        l1.len() == l2.len(),
        forall|k: int| 0 <= k < l1.len() ==> l1[k].0 == l2[k].0,
    ensures
        find_lit(l1, s) == find_lit(l2, s),
    decreases l1.len(),
{
    if l1.len() > 0 {
        assert forall|k: int| 0 <= k < l1.drop_first().len() implies l1.drop_first()[k].0
            == l2.drop_first()[k].0 by {
            assert(l1.drop_first()[k] == l1[k + 1]);
            assert(l2.drop_first()[k] == l2[k + 1]);
        }
        lemma_find_lit_same_labels(l1.drop_first(), l2.drop_first(), s);
    }
}

/// Inserting the rest of a pattern into a fresh chain built for a pattern of
/// the same shape always conflicts.
proof fn lemma_fresh_conflicts(p1: Seq<SegModel>, p2: Seq<SegModel>, i: int, v: Seq<char>, v2: Seq<char>)
    requires
        0 <= i <= p1.len(),
        same_shape(p1, p2),
    ensures
        spec_insert(fresh_chain(p1, i, v), p2, i, v2) is Err,
    decreases p1.len() - i,
{
    let n = fresh_chain(p1, i, v);
    if i >= p1.len() {
        assert(spec_insert(n, p2, i, v2) == Err::<NodeModel, ConflictModel>(
            ConflictModel::Duplicate(v),
        ));
    } else {
        match p1[i] {
            SegModel::Literal(s) => {
                assert(p2[i] == SegModel::Literal(s)) by {
                    assert(shape_eq(p1[i], p2[i]));
                }
                assert(n.lits == seq![(s, fresh_chain(p1, i + 1, v))]);
                assert(find_lit(n.lits, s) == Some(0int)) by {
                    assert(n.lits[0].0 == s);
                }
                lemma_fresh_conflicts(p1, p2, i + 1, v, v2);
            },
            SegModel::Parameter(m) => {
                assert(shape_eq(p1[i], p2[i]));
                let m2 = p2[i]->Parameter_0;
                if m2 == m {
                    lemma_fresh_conflicts(p1, p2, i + 1, v, v2);
                }
            },
        }
    }
}

/// Registering two patterns of the same structural shape in one matcher is a
/// conflict: once the first insert succeeded, inserting any pattern of the
/// same shape fails, whatever controller it names.
pub proof fn lemma_same_shape_conflicts(
    n: NodeModel,
    n1: NodeModel,
    p1: Seq<SegModel>,
    p2: Seq<SegModel>,
    i: int,
    v: Seq<char>,
    v2: Seq<char>,
)
    requires
        0 <= i <= p1.len(),
        same_shape(p1, p2),
        spec_insert(n, p1, i, v) == Ok::<NodeModel, ConflictModel>(n1),
    ensures
        spec_insert(n1, p2, i, v2) is Err,
    decreases p1.len() - i,
{
    if i >= p1.len() {
        assert(n1.value == Some(v));
    } else {
        match p1[i] {
            SegModel::Literal(s) => {
                assert(p2[i] == SegModel::Literal(s)) by {
                    assert(shape_eq(p1[i], p2[i]));
                }
                match find_lit(n.lits, s) {
                    Some(j) => {
                        let c = spec_insert(n.lits[j].1, p1, i + 1, v)->Ok_0;
                        assert(n1.lits == n.lits.update(j, (s, c)));
                        lemma_find_lit(n.lits, s);
                        assert forall|k: int| 0 <= k < n.lits.len() implies n.lits[k].0
                            == n1.lits[k].0 by {}
                        lemma_find_lit_same_labels(n1.lits, n.lits, s);
                        assert(find_lit(n1.lits, s) == Some(j));
                        assert(n1.lits[j].1 == c);
                        lemma_same_shape_conflicts(n.lits[j].1, c, p1, p2, i + 1, v, v2);
                    },
                    None => {
                        let c = fresh_chain(p1, i + 1, v);
                        assert(n1.lits == n.lits.push((s, c)));
                        lemma_find_lit(n.lits, s);
                        lemma_find_lit_push(n.lits, (s, c), s);
                        assert(find_lit(n1.lits, s) == Some(n.lits.len() as int));
                        assert(n1.lits[n.lits.len() as int].1 == c);
                        lemma_fresh_conflicts(p1, p2, i + 1, v, v2);
                    },
                }
            },
            SegModel::Parameter(m) => {
                assert(shape_eq(p1[i], p2[i]));
                let m2 = p2[i]->Parameter_0;
                if n.params.len() > 0 {
                    assert(n.params[0].0 == m);
                    let c = spec_insert(n.params[0].1, p1, i + 1, v)->Ok_0;
                    assert(n1.params == seq![(n.params[0].0, c)]);
                    if m2 == m {
                        lemma_same_shape_conflicts(n.params[0].1, c, p1, p2, i + 1, v, v2);
                    }
                } else {
                    let c = fresh_chain(p1, i + 1, v);
                    assert(n1.params == seq![(m, c)]);
                    if m2 == m {
                        lemma_fresh_conflicts(p1, p2, i + 1, v, v2);
                    }
                }
            },
        }
    }
}

/// A successful insert never clears a conflict: whatever pattern already
/// conflicted with the trie still conflicts after any other pattern is
/// registered. With [`lemma_same_shape_conflicts`] this gives the general
/// build-time guarantee: once a pattern is registered, every pattern of the
/// same shape is refused, however many other routes are registered between.
pub proof fn lemma_insert_preserves_conflict(
    n: NodeModel,
    n1: NodeModel,
    q: Seq<SegModel>,
    p: Seq<SegModel>,
    i: int,
    w: Seq<char>,
    v: Seq<char>,
)
    requires
        0 <= i <= q.len(),
        0 <= i <= p.len(),
        spec_insert(n, q, i, w) == Ok::<NodeModel, ConflictModel>(n1),
        spec_insert(n, p, i, v) is Err,
    ensures
        spec_insert(n1, p, i, v) is Err,
    decreases q.len() - i,
{
    if i >= q.len() {
        assert(n.value is None);
        assert(n1.lits == n.lits && n1.params == n.params);
        assert(i < p.len());
    } else {
        match q[i] {
            SegModel::Literal(s) => {
                match find_lit(n.lits, s) {
                    Some(j) => {
                        let c = spec_insert(n.lits[j].1, q, i + 1, w)->Ok_0;
                        assert(n1.lits == n.lits.update(j, (s, c)));
                        assert(n1.value == n.value && n1.params == n.params);
                        lemma_find_lit(n.lits, s);
                        assert forall|k: int| 0 <= k < n.lits.len() implies n.lits[k].0
                            == n1.lits[k].0 by {}
                        if i >= p.len() {
                        } else {
                            match p[i] {
                                SegModel::Literal(s2) => {
                                    lemma_find_lit_same_labels(n1.lits, n.lits, s2);
                                    match find_lit(n.lits, s2) {
                                        Some(j2) => {
                                            lemma_find_lit(n.lits, s);
                                            lemma_find_lit(n.lits, s2);
                                            if j2 == j {
                                                assert(s2 == s);
                                                lemma_insert_preserves_conflict(
                                                    n.lits[j].1,
                                                    c,
                                                    q,
                                                    p,
                                                    i + 1,
                                                    w,
                                                    v,
                                                );
                                            } else {
                                                assert(n1.lits[j2] == n.lits[j2]);
                                            }
                                        },
                                        None => {},
                                    }
                                },
                                SegModel::Parameter(_) => {},
                            }
                        }
                    },
                    None => {
                        let c = fresh_chain(q, i + 1, w);
                        assert(n1.lits == n.lits.push((s, c)));
                        assert(n1.value == n.value && n1.params == n.params);
                        if i < p.len() {
                            match p[i] {
                                SegModel::Literal(s2) => {
                                    lemma_find_lit(n.lits, s);
                                    lemma_find_lit_push(n.lits, (s, c), s2);
                                    match find_lit(n.lits, s2) {
                                        Some(j2) => {
                                            assert(find_lit(n1.lits, s2) == Some(j2));
                                            assert(n1.lits[j2] == n.lits[j2]) by {
                                                lemma_find_lit(n.lits, s2);
                                            }
                                        },
                                        None => {
                                            if s2 == s {
                                                assert(find_lit(n1.lits, s2) == Some(
                                                    n.lits.len() as int,
                                                ));
                                                assert(n1.lits[n.lits.len() as int].1 == c);
                                                assert(spec_insert(n, p, i, v) is Ok);
                                            }
                                        },
                                    }
                                },
                                SegModel::Parameter(_) => {},
                            }
                        }
                    },
                }
            },
            SegModel::Parameter(m) => {
                if n.params.len() > 0 {
                    assert(n.params[0].0 == m);
                    let c = spec_insert(n.params[0].1, q, i + 1, w)->Ok_0;
                    assert(n1.params == seq![(n.params[0].0, c)]);
                    assert(n1.value == n.value && n1.lits == n.lits);
                    if i < p.len() {
                        match p[i] {
                            SegModel::Parameter(m2) => {
                                if m2 == m {
                                    lemma_insert_preserves_conflict(
                                        n.params[0].1,
                                        c,
                                        q,
                                        p,
                                        i + 1,
                                        w,
                                        v,
                                    );
                                }
                            },
                            SegModel::Literal(_) => {},
                        }
                    }
                } else {
                    let c = fresh_chain(q, i + 1, w);
                    assert(n1.params == seq![(m, c)]);
                    assert(n1.value == n.value && n1.lits == n.lits);
                    if i < p.len() {
                        match p[i] {
                            SegModel::Parameter(m2) => {
                                assert(spec_insert(n, p, i, v) is Ok);
                            },
                            SegModel::Literal(_) => {},
                        }
                    }
                }
            },
        }
    }
}

/// Appending an edge: an existing match is kept, else the new edge matches
/// exactly when its label is the one sought.
proof fn lemma_find_lit_push(
    l: Seq<(Seq<char>, NodeModel)>,
    e: (Seq<char>, NodeModel),
    s: Seq<char>,
)
    ensures
        find_lit(l.push(e), s) == (match find_lit(l, s) {
            Some(j) => Some(j),
            None => if e.0 == s {
                Some(l.len() as int)
            } else {
                None
            },
        }),
    decreases l.len(),
{
    if l.len() == 0 {
        assert(l.push(e)[0] == e);
        assert(l.push(e).len() == 1);
        if e.0 != s {
            assert(find_lit(l.push(e), s) is None) by {
                assert(l.push(e).drop_first() =~= Seq::<(Seq<char>, NodeModel)>::empty());
            }
        }
    } else {
        assert(l.push(e)[0] == l[0]);
        assert(l.push(e).drop_first() =~= l.drop_first().push(e));
        lemma_find_lit_push(l.drop_first(), e, s);
    }
}

/// Inserting a pattern into the empty matcher always succeeds and produces
/// exactly the fresh chain of that pattern.
pub proof fn lemma_insert_empty(p: Seq<SegModel>, v: Seq<char>)
    ensures
        spec_insert(empty_model(), p, 0, v) == Ok::<NodeModel, ConflictModel>(fresh_chain(p, 0, v)),
{
    let n = empty_model();
    if p.len() == 0 {
        assert(spec_insert(n, p, 0, v) == Ok::<NodeModel, ConflictModel>(
            NodeModel { value: Some(v), lits: n.lits, params: n.params },
        ));
        assert(NodeModel { value: Some(v), lits: n.lits, params: n.params } =~~= fresh_chain(
            p,
            0,
            v,
        ));
    } else {
        match p[0] {
            SegModel::Literal(s) => {
                assert(find_lit(n.lits, s) is None);
                assert(spec_insert(n, p, 0, v) == Ok::<NodeModel, ConflictModel>(
                    NodeModel {
                        value: n.value,
                        lits: n.lits.push((s, fresh_chain(p, 1, v))),
                        params: n.params,
                    },
                ));
                assert(n.lits.push((s, fresh_chain(p, 1, v))) =~= seq![(s, fresh_chain(p, 1, v))]);
                assert(NodeModel {
                    value: n.value,
                    lits: n.lits.push((s, fresh_chain(p, 1, v))),
                    params: n.params,
                } =~~= fresh_chain(p, 0, v));
            },
            SegModel::Parameter(m) => {
                assert(spec_insert(n, p, 0, v) == Ok::<NodeModel, ConflictModel>(
                    NodeModel {
                        value: n.value,
                        lits: n.lits,
                        params: seq![(m, fresh_chain(p, 1, v))],
                    },
                ));
                assert(NodeModel {
                    value: n.value,
                    lits: n.lits,
                    params: seq![(m, fresh_chain(p, 1, v))],
                } =~~= fresh_chain(p, 0, v));
            },
        }
    }
}

/// Whether a path fits a pattern's shape: same number of segments, and every
/// literal pattern segment equal to the path segment at its position.
pub open spec fn matches_shape(p: Seq<SegModel>, segs: Seq<Seq<char>>) -> bool {
    p.len() == segs.len() && forall|i: int|
        0 <= i < p.len() ==> (p[i] is Literal ==> p[i]->Literal_0 == segs[i])
}

/// The parameter bindings a path produces against a pattern: each parameter
/// name bound to the path segment at its position.
pub open spec fn bindings(p: Seq<SegModel>, segs: Seq<Seq<char>>, i: int) -> Map<
    Seq<char>,
    Seq<char>,
>
    decreases p.len() - i,
{
    if i >= p.len() {
        Map::empty()
    } else {
        let inner = bindings(p, segs, i + 1);
        match p[i] {
            SegModel::Literal(_) => inner,
            SegModel::Parameter(nm) => inner.insert(nm, segs[i]),
        }
    }
}

/// Round trip through a single registered pattern: a path that fits the
/// pattern's shape matches it, returns its controller, and binds every
/// parameter name to the corresponding path segment.
pub proof fn lemma_fresh_roundtrip(p: Seq<SegModel>, segs: Seq<Seq<char>>, i: int, v: Seq<char>)
    requires
        0 <= i <= p.len(),
        matches_shape(p, segs),
    ensures
        spec_lookup(fresh_chain(p, i, v), segs, i) == Some((v, bindings(p, segs, i))),
    decreases p.len() - i,
{
    let n = fresh_chain(p, i, v);
    if i >= p.len() {
        assert(spec_lookup(n, segs, i) == Some((v, Map::<Seq<char>, Seq<char>>::empty())));
    } else {
        lemma_fresh_roundtrip(p, segs, i + 1, v);
        match p[i] {
            SegModel::Literal(s) => {
                assert(p[i] is Literal);
                assert(s == segs[i]);
                assert(n.lits == seq![(s, fresh_chain(p, i + 1, v))]);
                assert(find_lit(n.lits, segs[i]) == Some(0int)) by {
                    assert(n.lits[0].0 == segs[i]);
                }
            },
            SegModel::Parameter(nm) => {
                assert(n.lits =~= Seq::<(Seq<char>, NodeModel)>::empty());
                assert(find_lit(n.lits, segs[i]) is None);
                assert(n.params == seq![(nm, fresh_chain(p, i + 1, v))]);
            },
        }
    }
}

/// Round trip at the matcher's public face: inserting a pattern into an
/// empty matcher and looking a fitting path up returns the registered
/// controller and the captured parameters.
pub proof fn lemma_roundtrip(pattern: Seq<char>, path: Seq<char>, v: Seq<char>, m1: NodeModel)
    requires
        spec_insert(empty_model(), spec_pattern(pattern), 0, v) == Ok::<NodeModel, ConflictModel>(
            m1,
        ),
        matches_shape(spec_pattern(pattern), spec_segments(path)),
    ensures
        spec_lookup(m1, spec_segments(path), 0) == Some(
            (v, bindings(spec_pattern(pattern), spec_segments(path), 0)),
        ),
{
    lemma_insert_empty(spec_pattern(pattern), v);
    lemma_fresh_roundtrip(spec_pattern(pattern), spec_segments(path), 0, v);
}

/// A match that uses literal edges only: the walk follows the literal edge of
/// every path segment and ends at a terminal.
pub open spec fn literal_lookup(n: NodeModel, segs: Seq<Seq<char>>, i: int) -> Option<Seq<char>>
    decreases segs.len() - i,
{
    if i >= segs.len() {
        n.value
    } else {
        match find_lit(n.lits, segs[i]) {
            Some(j) => literal_lookup(n.lits[j].1, segs, i + 1),
            None => None,
        }
    }
}

/// Literal specificity wins: wherever a purely literal walk of the path
/// reaches a terminal, the lookup returns that terminal's controller with no
/// parameter bound, never a parameter route.
pub proof fn lemma_literal_precedence(n: NodeModel, segs: Seq<Seq<char>>, i: int, v: Seq<char>)
    requires
        0 <= i <= segs.len(),
        literal_lookup(n, segs, i) == Some(v),
    ensures
        spec_lookup(n, segs, i) == Some((v, Map::<Seq<char>, Seq<char>>::empty())),
    decreases segs.len() - i,
{
    if i < segs.len() {
        match find_lit(n.lits, segs[i]) {
            Some(j) => {
                lemma_literal_precedence(n.lits[j].1, segs, i + 1, v);
            },
            None => {},
        }
    }
}

} // verus!
