//! The evaluator: a tree walk over the AST, resolving identifiers through a
//! chain of lexically nested scopes held in an append-only arena.
//!
//! Scopes are addressed by index into the arena, never by reference, so a
//! scope can outlive the block that created it without shared ownership.  A
//! block evaluates its statements in a fresh child scope; an assignment
//! binds in the innermost scope only, shadowing rather than mutating any
//! outer binding; statements that produce values contribute them in order,
//! and a statement list is worth the single value when exactly one is
//! produced, else the list of them.

use vstd::prelude::*;
use crate::ast::{Node, NodeModel, nodes_view, node_view, lemma_nodes_view};
use crate::builtins::{
    ErrModel, EvalError, Host, HostModel, apply_builtin, spec_builtin,
};
use crate::context::{Context, CtxModel};
use crate::var::{Var, VarModel, vars_view, var_view, lemma_vars_view, lemma_vars_view_push};

verus! {

/// Mathematical model of a whole evaluation state: the scope arena and the
/// two host channels.
pub ghost struct EvalState {
    pub ctxs: Seq<CtxModel>,
    pub host: HostModel,
}

/// Scope chains are well formed: every parent link points strictly earlier
/// in the arena, so chains can neither cycle nor point forward.
pub open spec fn wf_state(st: EvalState) -> bool {
    forall|i: int|
        0 <= i < st.ctxs.len() ==> match (#[trigger] st.ctxs[i]).parent {
            Some(p) => 0 <= p < i,
            None => true,
        }
}

/// Resolves an identifier by walking from scope `c` up the parent chain.
pub open spec fn lookup(ctxs: Seq<CtxModel>, c: int, id: Seq<char>) -> Option<VarModel>
    decreases c,
{
    if !(0 <= c < ctxs.len()) {
        None
    } else if ctxs[c].map.contains_key(id) {
        Some(ctxs[c].map[id])
    } else {
        match ctxs[c].parent {
            Some(p) => if 0 <= p < c {
                lookup(ctxs, p, id)
            } else {
                None
            },
            None => None,
        }
    }
}

/// A list of produced values collapses to its single element when there is
/// exactly one, else stays a list.
pub open spec fn collapse_values(vs: Seq<VarModel>) -> VarModel {
    if vs.len() == 1 {
        vs[0]
    } else {
        VarModel::List(vs)
    }
}

/// What evaluating one node does: the state it leaves, and either the value
/// it produces (`None` for an assignment, which produces no value) or the
/// hard failure that aborts the run.
pub open spec fn spec_eval_node(n: NodeModel, c: int, st: EvalState) -> (
    EvalState,
    Result<Option<VarModel>, ErrModel>,
)
    decreases n,
{
    match n {
        NodeModel::Block(ch) => {
            let newc = st.ctxs.len() as int;
            let opened = EvalState {
                ctxs: st.ctxs.push(CtxModel { map: Map::empty(), parent: Some(c) }),
                host: st.host,
            };
            let (st1, r) = spec_eval_seq(ch, newc, opened);
            match r {
                Ok(vs) => (st1, Ok(Some(collapse_values(vs)))),
                Err(e) => (st1, Err(e)),
            }
        },
        NodeModel::List(ch) => {
            let (st1, r) = spec_eval_seq(ch, c, st);
            match r {
                Ok(vs) => (st1, Ok(Some(collapse_values(vs)))),
                Err(e) => (st1, Err(e)),
            }
        },
        NodeModel::Value(r) => (st, Ok(Some(VarModel::Raw(r)))),
        NodeModel::Var(id) => match lookup(st.ctxs, c, id) {
            Some(VarModel::Raw(r)) => (st, Ok(Some(VarModel::Raw(r)))),
            Some(_) => (st, Err(ErrModel::UnsupportedVariableKind(id))),
            None => (st, Err(ErrModel::UnknownIdentifier(id))),
        },
        NodeModel::Assign(id, rhs) => {
            let (st1, r) = spec_eval_node(*rhs, c, st);
            match r {
                Ok(opt) => {
                    let v = match opt {
                        Some(v) => v,
                        None => VarModel::List(Seq::empty()),
                    };
                    let updated = CtxModel {
                        map: st1.ctxs[c].map.insert(id, v),
                        parent: st1.ctxs[c].parent,
                    };
                    (EvalState { ctxs: st1.ctxs.update(c, updated), host: st1.host }, Ok(None))
                },
                Err(e) => (st1, Err(e)),
            }
        },
        NodeModel::Call(id, args) => {
            let (st1, r) = spec_eval_seq(args, c, st);
            match r {
                Ok(vs) => {
                    let arg = collapse_values(vs);
                    match lookup(st1.ctxs, c, id) {
                        Some(VarModel::Function(b)) => {
                            let actual = match arg {
                                VarModel::List(items) => items,
                                _ => seq![arg],
                            };
                            let (h2, rb) = spec_builtin(b, actual, st1.host);
                            let st2 = EvalState { ctxs: st1.ctxs, host: h2 };
                            match rb {
                                Ok(v) => (st2, Ok(Some(v))),
                                Err(e) => (st2, Err(e)),
                            }
                        },
                        Some(_) => (st1, Err(ErrModel::NotCallable)),
                        None => (st1, Err(ErrModel::UnknownIdentifier(id))),
                    }
                },
                Err(e) => (st1, Err(e)),
            }
        },
        NodeModel::Lambda(body) => (st, Ok(Some(VarModel::Lambda(*body)))),
    }
}

/// What evaluating a statement list does, left to right: the state it
/// leaves, and the values the statements produced, in order; the first hard
/// failure aborts the rest.
pub open spec fn spec_eval_seq(ns: Seq<NodeModel>, c: int, st: EvalState) -> (
    EvalState,
    Result<Seq<VarModel>, ErrModel>,
)
    decreases ns,
{
    if ns.len() == 0 {
        (st, Ok(Seq::empty()))
    } else {
        let (st1, r1) = spec_eval_node(ns[0], c, st);
        match r1 {
            Ok(opt) => {
                let (st2, r2) = spec_eval_seq(ns.drop_first(), c, st1);
                match r2 {
                    Ok(vs) => (
                        st2,
                        Ok(
                            match opt {
                                Some(v) => seq![v] + vs,
                                None => vs,
                            },
                        ),
                    ),
                    Err(e) => (st2, Err(e)),
                }
            },
            Err(e) => (st1, Err(e)),
        }
    }
}

/// What evaluating a whole statement list is worth: the collapse of the
/// values it produced.
pub open spec fn spec_eval(ns: Seq<NodeModel>, c: int, st: EvalState) -> (
    EvalState,
    Result<VarModel, ErrModel>,
) {
    let (st1, r) = spec_eval_seq(ns, c, st);
    match r {
        Ok(vs) => (st1, Ok(collapse_values(vs))),
        Err(e) => (st1, Err(e)),
    }
}

/// Prefixing already-produced values onto a statement list's outcome.
pub open spec fn chain_values(
    r: (EvalState, Result<Seq<VarModel>, ErrModel>),
    pre: Seq<VarModel>,
) -> (EvalState, Result<Seq<VarModel>, ErrModel>) {
    match r.1 {
        Ok(vs) => (r.0, Ok(pre + vs)),
        Err(e) => (r.0, Err(e)),
    }
}

/// Collapses a list of produced values to the single one when there is
/// exactly one.
fn collapse_vec(vs: Vec<Var>) -> (r: Var)
    ensures
        r@ == collapse_values(vars_view(vs@)),
{
    proof {
        lemma_vars_view(vs@);
    }
    if vs.len() == 1 {
        let mut vs = vs;
        let x = vs.pop().unwrap();
        x
    } else {
        Var::List(vs)
    }
}

/// An Evaluator evaluates an abstract syntax tree, owning for the run's
/// whole life the arena of scopes the program's blocks open and the two
/// host channels the `DISPLAY` and `INPUT` builtins touch.
pub struct Evaluator {
    contexts: Vec<Context>,
    host: Host,
}

impl View for Evaluator {
    type V = EvalState;

    closed spec fn view(&self) -> EvalState {
        EvalState { ctxs: self.contexts@.map_values(|c: Context| c@), host: self.host@ }
    }
}

impl Evaluator {
    /// Whether every scope's parent link points strictly earlier in the
    /// arena.  `new` establishes it and every method preserves it.
    pub open spec fn wf(&self) -> bool {
        wf_state(self@)
    }

    /// An evaluator whose arena holds the given context as its root.  A
    /// good context to pass is `Context::std()`, so that the code run by
    /// this evaluator can reach the standard library.
    pub fn new(context: Context) -> (r: Evaluator)
        requires
            context@.parent is None,
        ensures
            r@.ctxs == seq![context@],
            r@.host.out == Seq::<Seq<char>>::empty(),
            r@.host.inp == Seq::<Seq<char>>::empty(),
            r.wf(),
    {
        let mut contexts: Vec<Context> = Vec::new();
        contexts.push(context);
        let r = Evaluator { contexts, host: Host { output: Vec::new(), input: Vec::new() } };
        proof {
            assert(r@.ctxs =~= seq![context@]);
            assert(r@.host.out =~= Seq::<Seq<char>>::empty());
            assert(r@.host.inp =~= Seq::<Seq<char>>::empty());
        }
        r
    }

    /// Queues one line for the `INPUT` builtin to consume.
    pub fn queue_input(&mut self, line: String)
        ensures
            final(self)@.ctxs == old(self)@.ctxs,
            final(self)@.host.out == old(self)@.host.out,
            final(self)@.host.inp == old(self)@.host.inp.push(line@),
            old(self).wf() ==> final(self).wf(),
    {
        let ghost lv = line@;
        self.host.input.push(line);
        proof {
            assert(final(self)@.host.inp =~= old(self)@.host.inp.push(lv));
        }
    }

    /// The lines `DISPLAY` has pushed to the host so far, in order.
    pub fn outputs(&self) -> (r: &Vec<String>)
        ensures
            r@.map_values(|s: String| s@) == self@.host.out,
    {
        &self.host.output
    }

    /// Hands over the whole output log, consuming the evaluator.
    pub fn into_outputs(self) -> (r: Vec<String>)
        ensures
            r@.map_values(|s: String| s@) == self@.host.out,
    {
        self.host.output
    }

    /// Opens a new empty scope whose parent is `parent`, and returns its
    /// index.
    fn new_ctx(&mut self, parent: usize) -> (r: usize)
        requires
            old(self).wf(),
            parent < old(self)@.ctxs.len(),
        ensures
            r == old(self)@.ctxs.len(),
            final(self)@.ctxs == old(self)@.ctxs.push(
                CtxModel { map: Map::empty(), parent: Some(parent as int) },
            ),
            final(self)@.host == old(self)@.host,
            final(self).wf(),
    {
        let r = self.contexts.len();
        self.contexts.push(Context::empty_child(parent));
        proof {
            assert(final(self)@.ctxs =~= old(self)@.ctxs.push(
                CtxModel { map: Map::empty(), parent: Some(parent as int) },
            ));
        }
        r
    }

    /// Recursively searches the given scope, then its ancestors, for the
    /// value bound to an identifier.
    fn fetch(&self, ctx: usize, id: &String) -> (r: Result<&Var, EvalError>)
        requires
            self.wf(),
            ctx < self@.ctxs.len(),
        ensures
            match r {
                Ok(v) => lookup(self@.ctxs, ctx as int, id@) == Some(v@),
                Err(e) => lookup(self@.ctxs, ctx as int, id@) is None && e@
                    == ErrModel::UnknownIdentifier(id@),
            },
        decreases ctx,
    {
        match self.contexts[ctx].map.get(id) {
            Some(v) => Ok(v),
            None => match self.contexts[ctx].parent {
                Some(p) => self.fetch(p, id),
                None => Err(EvalError::UnknownIdentifier(id.clone())),
            },
        }
    }

    /// Stores a value in the given scope itself, never in an ancestor:
    /// binding a name already bound in an outer scope shadows it.
    fn assign(&mut self, ctx: usize, id: String, to: Var)
        requires
            old(self).wf(),
            ctx < old(self)@.ctxs.len(),
        ensures
            final(self)@.ctxs == old(self)@.ctxs.update(
                ctx as int,
                CtxModel {
                    map: old(self)@.ctxs[ctx as int].map.insert(id@, to@),
                    parent: old(self)@.ctxs[ctx as int].parent,
                },
            ),
            final(self)@.host == old(self)@.host,
            final(self).wf(),
    {
        let ghost idv = id@;
        let ghost tov = to@;
        let c = &mut self.contexts[ctx];
        c.map.insert(id, to);
        proof {
            assert(final(self)@.ctxs =~= old(self)@.ctxs.update(
                ctx as int,
                CtxModel {
                    map: old(self)@.ctxs[ctx as int].map.insert(idv, tov),
                    parent: old(self)@.ctxs[ctx as int].parent,
                },
            ));
        }
    }

    /// Evaluates one node in the given scope: the worked half of
    /// `spec_eval_node`.
    fn eval_node(&mut self, n: &Node, ctx: usize) -> (r: Result<Option<Var>, EvalError>)
        requires
            old(self).wf(),
            ctx < old(self)@.ctxs.len(),
        ensures
            final(self).wf(),
            final(self)@.ctxs.len() >= old(self)@.ctxs.len(),
            match r {
                Ok(opt) => spec_eval_node(node_view(*n), ctx as int, old(self)@) == (
                    final(self)@,
                    Ok::<Option<VarModel>, ErrModel>(
                        match opt {
                            Some(v) => Some(v@),
                            None => None,
                        },
                    ),
                ),
                Err(e) => spec_eval_node(node_view(*n), ctx as int, old(self)@) == (
                    final(self)@,
                    Err::<Option<VarModel>, ErrModel>(e@),
                ),
            },
        decreases *n,
    {
        match n {
            Node::Block(ch) => {
                let newc = self.new_ctx(ctx);
                let vs = match self.eval_vec(ch, newc) {
                    Ok(vs) => vs,
                    Err(e) => {
                        return Err(e);
                    },
                };
                Ok(Some(collapse_vec(vs)))
            },
            Node::List(ch) => {
                let vs = match self.eval_vec(ch, ctx) {
                    Ok(vs) => vs,
                    Err(e) => {
                        return Err(e);
                    },
                };
                Ok(Some(collapse_vec(vs)))
            },
            Node::Value(raw) => Ok(Some(Var::Raw(raw.dup()))),
            Node::Var(id) => {
                let looked = self.fetch(ctx, id);
                match looked {
                    Ok(v) => match v {
                        Var::Raw(r) => {
                            let out = Var::Raw(r.dup());
                            Ok(Some(out))
                        },
                        _ => Err(EvalError::UnsupportedVariableKind(id.clone())),
                    },
                    Err(e) => Err(e),
                }
            },
            Node::Assign(id, rhs) => {
                let opt = match self.eval_node(rhs, ctx) {
                    Ok(opt) => opt,
                    Err(e) => {
                        return Err(e);
                    },
                };
                let v = match opt {
                    Some(v) => v,
                    None => Var::List(Vec::new()),
                };
                proof {
                    assert(vars_view(Seq::<Var>::empty()) =~= Seq::<VarModel>::empty());
                }
                self.assign(ctx, id.clone(), v);
                Ok(None)
            },
            Node::Call(id, args) => {
                let vs = match self.eval_vec(args, ctx) {
                    Ok(vs) => vs,
                    Err(e) => {
                        return Err(e);
                    },
                };
                let arg = collapse_vec(vs);
                let actual: Vec<Var> = match arg {
                    Var::List(items) => items,
                    other => {
                        let mut one: Vec<Var> = Vec::new();
                        one.push(other);
                        proof {
                            assert(one@.drop_last() =~= Seq::<Var>::empty());
                            assert(vars_view(Seq::<Var>::empty()) =~= Seq::<VarModel>::empty());
                            assert(vars_view(one@) =~= seq![var_view(one@.last())]);
                        }
                        one
                    },
                };
                let b = {
                    let looked = self.fetch(ctx, id);
                    match looked {
                        Ok(v) => match v {
                            Var::Function(bb) => *bb,
                            _ => {
                                return Err(EvalError::NotCallable);
                            },
                        },
                        Err(e) => {
                            return Err(e);
                        },
                    }
                };
                let rb = apply_builtin(b, &actual, &mut self.host);
                match rb {
                    Ok(v) => Ok(Some(v)),
                    Err(e) => Err(e),
                }
            },
            Node::Lambda(body) => Ok(Some(Var::Lambda(body.dup()))),
        }
    }

    /// Evaluates a statement list left to right in the given scope,
    /// collecting the values the statements produce: the worked half of
    /// `spec_eval_seq`.
    #[verifier::loop_isolation(false)]
    fn eval_vec(&mut self, ns: &Vec<Node>, ctx: usize) -> (r: Result<Vec<Var>, EvalError>)
        requires
            old(self).wf(),
            ctx < old(self)@.ctxs.len(),
        ensures
            final(self).wf(),
            final(self)@.ctxs.len() >= old(self)@.ctxs.len(),
            match r {
                Ok(vs) => spec_eval_seq(nodes_view(ns@), ctx as int, old(self)@) == (
                    final(self)@,
                    Ok::<Seq<VarModel>, ErrModel>(vars_view(vs@)),
                ),
                Err(e) => spec_eval_seq(nodes_view(ns@), ctx as int, old(self)@) == (
                    final(self)@,
                    Err::<Seq<VarModel>, ErrModel>(e@),
                ),
            },
        decreases *ns,
    {
        let ghost whole = nodes_view(ns@);
        let ghost st0 = self@;
        proof {
            lemma_nodes_view(ns@);
            assert(whole.subrange(0, whole.len() as int) =~= whole);
        }
        let mut out: Vec<Var> = Vec::new();
        let mut i: usize = 0;
        while i < ns.len()
            invariant
                i <= ns@.len(),
                whole == nodes_view(ns@),
                whole.len() == ns@.len(),
                self.wf(),
                ctx < self@.ctxs.len(),
                self@.ctxs.len() >= st0.ctxs.len(),
                spec_eval_seq(whole, ctx as int, st0) == chain_values(
                    spec_eval_seq(
                        whole.subrange(i as int, whole.len() as int),
                        ctx as int,
                        self@,
                    ),
                    vars_view(out@),
                ),
            decreases ns@.len() - i,
        {
            proof {
                vstd::seq::axiom_seq_index_decreases(ns@, i as int);
                lemma_nodes_view(ns@);
                let suf = whole.subrange(i as int, whole.len() as int);
                assert(suf[0] == whole[i as int]);
                assert(suf.drop_first() =~= whole.subrange(i as int + 1, whole.len() as int));
            }
            let ghost out_before = out@;
            let opt = match self.eval_node(&ns[i], ctx) {
                Ok(opt) => opt,
                Err(e) => {
                    return Err(e);
                },
            };
            match opt {
                Some(v) => {
                    let ghost vv = v@;
                    out.push(v);
                    proof {
                        lemma_vars_view_push(out_before, out@.last());
                        assert(out@.drop_last() =~= out_before);
                        assert(out@ =~= out_before.push(out@.last()));
                        assert(vars_view(out@) =~= vars_view(out_before).push(vv));
                        let suf2 = whole.subrange(i as int + 1, whole.len() as int);
                        if spec_eval_seq(suf2, ctx as int, self@).1 is Ok {
                            let rest = spec_eval_seq(suf2, ctx as int, self@).1->Ok_0;
                            assert(vars_view(out_before) + (seq![vv] + rest)
                                =~= vars_view(out@) + rest);
                        }
                    }
                },
                None => {
                },
            }
            i = i + 1;
        }
        proof {
            assert(whole.subrange(whole.len() as int, whole.len() as int)
                =~= Seq::<NodeModel>::empty());
            if spec_eval_seq(whole, ctx as int, st0).1 is Ok {
                assert(vars_view(out@) + Seq::<VarModel>::empty() =~= vars_view(out@));
            }
        }
        Ok(out)
    }

    /// Runs a statement list in the given scope and returns what it is
    /// worth: the single produced value, or the list of them.
    pub fn eval(&mut self, ast: Vec<Node>, ctx: usize) -> (r: Result<Var, EvalError>)
        requires
            old(self).wf(),
            ctx < old(self)@.ctxs.len(),
        ensures
            final(self).wf(),
            match r {
                Ok(v) => spec_eval(nodes_view(ast@), ctx as int, old(self)@) == (
                    final(self)@,
                    Ok::<VarModel, ErrModel>(v@),
                ),
                Err(e) => spec_eval(nodes_view(ast@), ctx as int, old(self)@) == (
                    final(self)@,
                    Err::<VarModel, ErrModel>(e@),
                ),
            },
    {
        let vs = match self.eval_vec(&ast, ctx) {
            Ok(vs) => vs,
            Err(e) => {
                return Err(e);
            },
        };
        Ok(collapse_vec(vs))
    }
}

} // verus!
