use vstd::prelude::*;
use crate::config::{Config, Endpoint, EndpointModel};
use crate::error::{RouterError, RouterErrorModel};
use crate::matcher::{NodeModel, PathMatcher, empty_model, fresh_chain, lemma_insert_empty, lemma_insert_preserves_conflict, lemma_same_shape_conflicts, same_shape, spec_insert, spec_lookup};
use crate::method::{Method, MethodModel};
use crate::pattern::{spec_pattern, spec_segments};

verus! {

/// The position of the matcher that serves `m`, if one exists. Methods are
/// unique in a table, so the first match is the only one.
pub open spec fn table_find(t: Seq<(MethodModel, NodeModel)>, m: MethodModel) -> Option<int>
    decreases t.len(),
{
    if t.len() == 0 {
        None
    } else if t[0].0 == m {
        Some(0)
    } else {
        match table_find(t.drop_first(), m) {
            Some(j) => Some(j + 1),
            None => None,
        }
    }
}

/// What [`table_find`] returns: the first index whose method is `m`, or
/// nothing when no matcher serves `m`.
pub proof fn lemma_table_find(t: Seq<(MethodModel, NodeModel)>, m: MethodModel)
    ensures
        match table_find(t, m) {
            Some(j) => 0 <= j < t.len() && t[j].0 == m && forall|k: int|
                0 <= k < j ==> t[k].0 != m,
            None => forall|k: int| 0 <= k < t.len() ==> t[k].0 != m,
        },
    decreases t.len(),
{
    if t.len() > 0 && t[0].0 != m {
        lemma_table_find(t.drop_first(), m);
        match table_find(t.drop_first(), m) {
            Some(jp) => {
                assert forall|k: int| 0 <= k < jp + 1 implies t[k].0 != m by {
                    if k > 0 {
                        assert(t.drop_first()[k - 1] == t[k]);
                    }
                }
            },
            None => {
                assert forall|k: int| 0 <= k < t.len() implies t[k].0 != m by {
                    if k > 0 {
                        assert(t.drop_first()[k - 1] == t[k]);
                    }
                }
            },
        }
    }
}

/// Looking a path up under a method: the match of the method's own matcher,
/// or nothing when the table has no matcher for the method.
pub open spec fn spec_table_lookup(
    t: Seq<(MethodModel, NodeModel)>,
    m: MethodModel,
    segs: Seq<Seq<char>>,
) -> Option<(Seq<char>, Map<Seq<char>, Seq<char>>)> {
    match table_find(t, m) {
        Some(j) => spec_lookup(t[j].1, segs, 0),
        None => None,
    }
}

/// The methods whose matchers match the path structurally, in the table's
/// build order. This is what a 405 response lists in its `Allow` header.
pub open spec fn methods_allowed(t: Seq<(MethodModel, NodeModel)>, segs: Seq<Seq<char>>) -> Seq<
    MethodModel,
>
    decreases t.len(),
{
    if t.len() == 0 {
        Seq::empty()
    } else {
        let rest = methods_allowed(t.drop_first(), segs);
        if spec_lookup(t[0].1, segs, 0) is Some {
            seq![t[0].0] + rest
        } else {
            rest
        }
    }
}

/// Building a table from the route entries `entries[i..]`, starting from the
/// table `t`: entries are inserted in order, each into the matcher of its
/// method (created on first use), and the first conflicting entry aborts the
/// build with an error naming its method, path and conflict.
pub open spec fn spec_build(
    t: Seq<(MethodModel, NodeModel)>,
    entries: Seq<EndpointModel>,
    i: int,
) -> Result<Seq<(MethodModel, NodeModel)>, RouterErrorModel>
    decreases entries.len() - i,
{
    if i >= entries.len() {
        Ok(t)
    } else {
        let e = entries[i];
        let p = spec_pattern(e.path);
        let (j, node) = match table_find(t, e.method) {
            Some(j) => (j, t[j].1),
            None => (t.len() as int, empty_model()),
        };
        let t1 = match table_find(t, e.method) {
            Some(_) => t,
            None => t.push((e.method, empty_model())),
        };
        match spec_insert(node, p, 0, e.controller) {
            Ok(nm) => spec_build(t1.update(j, (e.method, nm)), entries, i + 1),
            Err(c) => Err(
                RouterErrorModel::Conflict { method: e.method, path: e.path, detail: c },
            ),
        }
    }
}

/// One routing table per process: a matcher for each method that any route
/// entry names. Built once at startup and read-only afterwards.
pub struct RouteTable {
    entries: Vec<(Method, PathMatcher)>,
}

impl View for RouteTable {
    type V = Seq<(MethodModel, NodeModel)>;

    closed spec fn view(&self) -> Seq<(MethodModel, NodeModel)> {
        self.entries@.map_values(|e: (Method, PathMatcher)| (e.0@, e.1@))
    }
}

impl RouteTable {
    /// Finds the matcher that serves `method`.
    fn find_method(&self, method: &Method) -> (r: Option<usize>)
        ensures
            match r {
                Some(j) => j < self@.len() && table_find(self@, method@) == Some(j as int),
                None => table_find(self@, method@) is None,
            },
    {
        proof {
            lemma_table_find(self@, method@);
        }
        let mut j: usize = 0;
        let n = self.entries.len();
        while j < n
            invariant
                0 <= j <= n,
                n == self.entries@.len(),
                self@.len() == self.entries@.len(),
                forall|k: int| 0 <= k < j ==> self@[k].0 != method@,
                forall|k: int|
                    0 <= k < self.entries@.len() ==> self@[k] == (
                        self.entries@[k].0@,
                        self.entries@[k].1@,
                    ),
            decreases n - j,
        {
            let hit = {
                let e = &self.entries[j];
                e.0 == *method
            };
            if hit {
                proof {
                    lemma_table_find(self@, method@);
                    match table_find(self@, method@) {
                        Some(jp) => {
                            if jp < j {
                                assert(self@[jp].0 != method@);
                            }
                            if jp > j {
                                assert(self@[j as int].0 != method@);
                            }
                        },
                        None => {
                            assert(self@[j as int].0 != method@);
                        },
                    }
                }
                return Some(j);
            }
            j = j + 1;
        }
        proof {
            lemma_table_find(self@, method@);
            match table_find(self@, method@) {
                Some(jp) => {
                    assert(self@[jp].0 != method@);
                },
                None => {},
            }
        }
        None
    }

    /// Builds a routing table from a route list, inserting every entry in
    /// input order. Fails atomically on the first conflicting entry, as
    /// [`spec_build`] describes: no partial table escapes.
    pub fn build(config: Config) -> (r: Result<RouteTable, RouterError>)
        ensures
            r is Ok ==> spec_build(Seq::empty(), config@, 0) == Ok::<_, RouterErrorModel>(
                r->Ok_0@,
            ),
            r is Err ==> spec_build(Seq::empty(), config@, 0) == Err::<
                Seq<(MethodModel, NodeModel)>,
                RouterErrorModel,
            >(r->Err_0@),
    {
        let ghost entries_model = config@;
        let mut endpoints = config.endpoints;
        let mut table = RouteTable { entries: Vec::new() };
        let mut i: usize = 0;
        let initial_len: usize = endpoints.len();
        proof {
            assert(initial_len as nat == entries_model.len());
        }
        let ghost n = entries_model.len();
        proof {
            assert(table@ =~= Seq::<(MethodModel, NodeModel)>::empty());
        }
        while endpoints.len() > 0
            invariant
                entries_model == config@,
                i + endpoints@.len() == n,
                n <= usize::MAX,
                entries_model.len() == n,
                forall|k: int|
                    0 <= k < endpoints@.len() ==> endpoints@[k]@ == entries_model[i + k],
                spec_build(Seq::empty(), entries_model, 0) == spec_build(
                    table@,
                    entries_model,
                    i as int,
                ),
            decreases endpoints@.len(),
        {
            let e = endpoints.remove(0);
            proof {
                assert(e@ == entries_model[i as int]);
                assert forall|k: int|
                    0 <= k < endpoints@.len() implies endpoints@[k]@ == entries_model[i + 1 + k] by {}
            }
            let Endpoint { method, path, controller, description: _ } = e;
            let ghost table0 = table@;
            let found = table.find_method(&method);
            let j: usize = match found {
                Some(j) => j,
                None => {
                    let j = table.entries.len();
                    table.entries.push((method.clone(), PathMatcher::new()));
                    proof {
                        assert(table@ =~= table0.push((method@, empty_model())));
                    }
                    j
                },
            };
            let ghost t1 = table@;
            let (m, mut matcher) = table.entries.remove(j);
            let ghost node0 = matcher@;
            let ins = matcher.insert(path.as_str(), controller);
            match ins {
                Ok(_) => {
                    table.entries.insert(j, (m, matcher));
                    proof {
                        assert(table@ =~= t1.update(j as int, (t1[j as int].0, matcher@)));
                        assert(t1[j as int].0 == method@) by {
                            lemma_table_find(table0, method@);
                        }
                        assert(spec_build(table0, entries_model, i as int) == spec_build(
                            table@,
                            entries_model,
                            i as int + 1,
                        ));
                    }
                },
                Err(detail) => {
                    let ghost gm = method@;
                    let ghost gp = path@;
                    let ghost gd = detail@;
                    proof {
                        assert(node0 == (match table_find(table0, method@) {
                            Some(jj) => table0[jj].1,
                            None => empty_model(),
                        })) by {
                            lemma_table_find(table0, method@);
                        }
                        assert(spec_build(table0, entries_model, i as int) == Err::<
                            Seq<(MethodModel, NodeModel)>,
                            RouterErrorModel,
                        >(
                            RouterErrorModel::Conflict {
                                method: method@,
                                path: path@,
                                detail: detail@,
                            },
                        ));
                    }
                    proof {
                        assert(spec_build(Seq::empty(), entries_model, 0) == spec_build(
                            table0,
                            entries_model,
                            i as int,
                        ));
                        assert(spec_build(Seq::empty(), entries_model, 0) == Err::<
                            Seq<(MethodModel, NodeModel)>,
                            RouterErrorModel,
                        >(RouterErrorModel::Conflict { method: gm, path: gp, detail: gd }));
                    }
                    let err = RouterError::Conflict { method, path, detail };
                    proof {
                        assert(err@ == RouterErrorModel::Conflict {
                            method: gm,
                            path: gp,
                            detail: gd,
                        });
                        assert(spec_build(Seq::empty(), entries_model, 0) == Err::<
                            Seq<(MethodModel, NodeModel)>,
                            RouterErrorModel,
                        >(err@));
                    }
                    return Err(err);
                },
            }
            i = i + 1;
        }
        proof {
            assert(spec_build(table@, entries_model, i as int) == Ok::<_, RouterErrorModel>(
                table@,
            ));
        }
        Ok(table)
    }

    /// Looks a path up under a method, returning the matched controller name
    /// and the captured parameters.
    pub fn lookup(&self, method: &Method, path: &str) -> (r: Option<
        (String, Vec<(String, String)>),
    >)
        ensures
            ({
                let sp = spec_table_lookup(self@, method@, spec_segments(path@));
                match r {
                    Some(p) => sp is Some && ({
                        let q = sp->Some_0;
                        p.0@ == q.0 && crate::matcher::params_map(p.1@) == q.1
                    }),
                    None => sp is None,
                }
            }),
    {
        match self.find_method(method) {
            Some(j) => self.entries[j].1.lookup(path),
            None => None,
        }
    }

    /// The methods under which the path matches some route, in build order:
    /// the candidates a 405 response lists in its `Allow` header.
    pub fn methods_matching(&self, path: &str) -> (r: Vec<Method>)
        ensures
            r@.map_values(|m: Method| m@) == methods_allowed(self@, spec_segments(path@)),
    {
        let ghost segs = spec_segments(path@);
        let mut r: Vec<Method> = Vec::new();
        let mut j: usize = 0;
        let n = self.entries.len();
        proof {
            assert(self@.skip(0) =~= self@);
            assert(r@.map_values(|m: Method| m@) =~= Seq::<MethodModel>::empty());
        }
        while j < n
            invariant
                0 <= j <= n,
                n == self.entries@.len(),
                self@.len() == self.entries@.len(),
                segs == spec_segments(path@),
                forall|k: int|
                    0 <= k < self.entries@.len() ==> self@[k] == (
                        self.entries@[k].0@,
                        self.entries@[k].1@,
                    ),
                r@.map_values(|m: Method| m@) + methods_allowed(self@.skip(j as int), segs)
                    =~~= methods_allowed(self@, segs),
            decreases n - j,
        {
            proof {
                assert(self@.skip(j as int)[0] == self@[j as int]);
                assert(self@.skip(j as int).drop_first() =~= self@.skip(j as int + 1));
            }
            let hit = self.entries[j].1.lookup(path);
            if hit.is_some() {
                let m = self.entries[j].0.clone();
                proof {
                    assert(r@.push(m).map_values(|x: Method| x@) =~= r@.map_values(
                        |x: Method| x@,
                    ).push(m@));
                }
                r.push(m);
            }
            j = j + 1;
        }
        proof {
            assert(self@.skip(n as int) =~= Seq::<(MethodModel, NodeModel)>::empty());
        }
        r
    }
}

/// Lookup is deterministic: two results of looking the same path up under
/// the same method in the same table are equal.
pub proof fn lemma_lookup_deterministic(
    t: Seq<(MethodModel, NodeModel)>,
    m: MethodModel,
    segs: Seq<Seq<char>>,
    r1: Option<(Seq<char>, Map<Seq<char>, Seq<char>>)>,
    r2: Option<(Seq<char>, Map<Seq<char>, Seq<char>>)>,
)
    requires
        r1 == spec_table_lookup(t, m, segs),
        r2 == spec_table_lookup(t, m, segs),
    ensures
        r1 == r2,
{
}

/// [`table_find`] reads only the methods.
proof fn lemma_table_find_same_methods(
    t1: Seq<(MethodModel, NodeModel)>,
    t2: Seq<(MethodModel, NodeModel)>,
    m: MethodModel,
)
    requires
        t1.len() == t2.len(),
        forall|k: int| 0 <= k < t1.len() ==> t1[k].0 == t2[k].0,
    ensures
        table_find(t1, m) == table_find(t2, m),
    decreases t1.len(),
{
    if t1.len() > 0 {
        assert forall|k: int| 0 <= k < t1.drop_first().len() implies t1.drop_first()[k].0
            == t2.drop_first()[k].0 by {
            assert(t1.drop_first()[k] == t1[k + 1]);
            assert(t2.drop_first()[k] == t2[k + 1]);
        }
        lemma_table_find_same_methods(t1.drop_first(), t2.drop_first(), m);
    }
}

/// Appending a matcher: an existing find is kept, else the new entry matches
/// exactly when its method is the one sought.
proof fn lemma_table_find_push(
    t: Seq<(MethodModel, NodeModel)>,
    e: (MethodModel, NodeModel),
    m: MethodModel,
)
    ensures
        table_find(t.push(e), m) == (match table_find(t, m) {
            Some(j) => Some(j),
            None => if e.0 == m {
                Some(t.len() as int)
            } else {
                None
            },
        }),
    decreases t.len(),
{
    if t.len() == 0 {
        assert(t.push(e)[0] == e);
        assert(t.push(e).len() == 1);
        if e.0 != m {
            assert(table_find(t.push(e), m) is None) by {
                let pe = t.push(e);
                assert(pe.drop_first() =~= Seq::<(MethodModel, NodeModel)>::empty());
                assert(table_find(pe.drop_first(), m) is None);
                assert(table_find(pe, m) == (match table_find(pe.drop_first(), m) {
                    Some(j) => Some(j + 1),
                    None => None::<int>,
                }));
            }
        }
    } else {
        assert(t.push(e)[0] == t[0]);
        assert(t.push(e).drop_first() =~= t.drop_first().push(e));
        lemma_table_find_push(t.drop_first(), e, m);
    }
}

/// One build step from a table whose matcher for `entries[b].method` already
/// refuses `entries[b]`'s pattern: the build cannot recover and fails.
proof fn lemma_build_keeps_failing(
    t: Seq<(MethodModel, NodeModel)>,
    entries: Seq<EndpointModel>,
    i: int,
    b: int,
)
    requires
        0 <= i <= b < entries.len(),
        ({
            let eb = entries[b];
            match table_find(t, eb.method) {
                Some(j) => spec_insert(t[j].1, spec_pattern(eb.path), 0, eb.controller) is Err,
                None => false,
            }
        }),
    ensures
        spec_build(t, entries, i) is Err,
    decreases b - i,
{
    let eb = entries[b];
    let pb = spec_pattern(eb.path);
    let jb = table_find(t, eb.method)->Some_0;
    lemma_table_find(t, eb.method);
    if i == b {
        assert(spec_build(t, entries, i) is Err);
    } else {
        let e = entries[i];
        let p = spec_pattern(e.path);
        match table_find(t, e.method) {
            Some(j) => {
                lemma_table_find(t, e.method);
                match spec_insert(t[j].1, p, 0, e.controller) {
                    Ok(nm) => {
                        let t2 = t.update(j, (e.method, nm));
                        assert(spec_build(t, entries, i) == spec_build(t2, entries, i + 1));
                        assert forall|k: int| 0 <= k < t.len() implies t[k].0 == t2[k].0 by {}
                        lemma_table_find_same_methods(t, t2, eb.method);
                        if j == jb {
                            assert(e.method == eb.method);
                            lemma_insert_preserves_conflict(
                                t[j].1,
                                nm,
                                p,
                                pb,
                                0,
                                e.controller,
                                eb.controller,
                            );
                            assert(t2[jb].1 == nm);
                        } else {
                            assert(t2[jb] == t[jb]);
                        }
                        lemma_build_keeps_failing(t2, entries, i + 1, b);
                    },
                    Err(_) => {
                        assert(spec_build(t, entries, i) is Err);
                    },
                }
            },
            None => {
                lemma_insert_empty(p, e.controller);
                let nm = fresh_chain(p, 0, e.controller);
                let t1 = t.push((e.method, empty_model()));
                let t2 = t1.update(t.len() as int, (e.method, nm));
                assert(spec_build(t, entries, i) == spec_build(t2, entries, i + 1));
                lemma_table_find_push(t, (e.method, empty_model()), eb.method);
                assert(table_find(t1, eb.method) == Some(jb));
                assert forall|k: int| 0 <= k < t1.len() implies t1[k].0 == t2[k].0 by {}
                lemma_table_find_same_methods(t1, t2, eb.method);
                assert(jb < t.len());
                assert(t2[jb] == t[jb]);
                lemma_build_keeps_failing(t2, entries, i + 1, b);
            },
        }
    }
}

/// Building up to the first of two structurally equal routes of one method:
/// once it is registered, the table refuses the second, so the build fails.
proof fn lemma_build_reaches_conflict(
    t: Seq<(MethodModel, NodeModel)>,
    entries: Seq<EndpointModel>,
    i: int,
    a: int,
    b: int,
)
    requires
        0 <= i <= a < b < entries.len(),
        entries[a].method == entries[b].method,
        same_shape(spec_pattern(entries[a].path), spec_pattern(entries[b].path)),
    ensures
        spec_build(t, entries, i) is Err,
    decreases a - i,
{
    let e = entries[i];
    let p = spec_pattern(e.path);
    let pb = spec_pattern(entries[b].path);
    match table_find(t, e.method) {
        Some(j) => {
            lemma_table_find(t, e.method);
            match spec_insert(t[j].1, p, 0, e.controller) {
                Ok(nm) => {
                    let t2 = t.update(j, (e.method, nm));
                    assert(spec_build(t, entries, i) == spec_build(t2, entries, i + 1));
                    if i == a {
                        lemma_same_shape_conflicts(
                            t[j].1,
                            nm,
                            p,
                            pb,
                            0,
                            e.controller,
                            entries[b].controller,
                        );
                        assert forall|k: int| 0 <= k < t.len() implies t[k].0 == t2[k].0 by {}
                        lemma_table_find_same_methods(t, t2, entries[b].method);
                        assert(table_find(t2, entries[b].method) == Some(j));
                        assert(t2[j].1 == nm);
                        lemma_build_keeps_failing(t2, entries, i + 1, b);
                    } else {
                        lemma_build_reaches_conflict(t2, entries, i + 1, a, b);
                    }
                },
                Err(_) => {
                    assert(spec_build(t, entries, i) is Err);
                },
            }
        },
        None => {
            lemma_insert_empty(p, e.controller);
            let nm = fresh_chain(p, 0, e.controller);
            let t1 = t.push((e.method, empty_model()));
            let t2 = t1.update(t.len() as int, (e.method, nm));
            assert(spec_build(t, entries, i) == spec_build(t2, entries, i + 1));
            if i == a {
                lemma_same_shape_conflicts(
                    empty_model(),
                    nm,
                    p,
                    pb,
                    0,
                    e.controller,
                    entries[b].controller,
                );
                lemma_table_find_push(t, (e.method, empty_model()), entries[b].method);
                assert(table_find(t1, entries[b].method) == Some(t.len() as int));
                assert forall|k: int| 0 <= k < t1.len() implies t1[k].0 == t2[k].0 by {}
                lemma_table_find_same_methods(t1, t2, entries[b].method);
                assert(t2[t.len() as int].1 == nm);
                lemma_build_keeps_failing(t2, entries, i + 1, b);
            } else {
                lemma_build_reaches_conflict(t2, entries, i + 1, a, b);
            }
        },
    }
}

/// Two route entries of the same method whose patterns share one structural
/// shape can never both be registered: a route list containing both fails to
/// build, wherever they stand in it and whatever stands between them.
pub proof fn lemma_same_shape_entries_fail_build(entries: Seq<EndpointModel>, a: int, b: int)
    requires
        0 <= a < b < entries.len(),
        entries[a].method == entries[b].method,
        same_shape(spec_pattern(entries[a].path), spec_pattern(entries[b].path)),
    ensures
        spec_build(Seq::empty(), entries, 0) is Err,
{
    lemma_build_reaches_conflict(Seq::empty(), entries, 0, a, b);
}

} // verus!
