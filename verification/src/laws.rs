//! Laws of the evaluator, proved once and for all over its mathematical
//! model: what block scoping preserves, what assignment overwrites, which
//! statements contribute values to a block's worth, what a display call
//! echoes, and why an operator call can never fail hard.

use vstd::prelude::*;
use crate::ast::{NodeModel, RawModel};
use crate::context::CtxModel;
use crate::eval::{spec_eval_node, spec_eval_seq, EvalState};
use crate::builtins::{spec_builtin, ErrModel, HostModel};
use crate::var::{Builtin, VarModel};

verus! {

/// Evaluating one node can touch only the scope it runs in and scopes
/// created after it: every other pre-existing scope is left exactly as it
/// was, and even the running scope keeps its parent link.  The arena only
/// ever grows.
pub proof fn lemma_eval_node_frame(n: NodeModel, c: int, st: EvalState)
    requires
        0 <= c < st.ctxs.len(),
    ensures
        spec_eval_node(n, c, st).0.ctxs.len() >= st.ctxs.len(),
        forall|i: int|
            0 <= i < st.ctxs.len() && i != c ==> spec_eval_node(n, c, st).0.ctxs[i]
                == st.ctxs[i],
        spec_eval_node(n, c, st).0.ctxs[c].parent == st.ctxs[c].parent,
    decreases n,
{
    let fin = spec_eval_node(n, c, st).0;
    match n {
        NodeModel::Block(ch) => {
            let newc = st.ctxs.len() as int;
            let opened = EvalState {
                ctxs: st.ctxs.push(CtxModel { map: Map::empty(), parent: Some(c) }),
                host: st.host,
            };
            lemma_eval_seq_frame(ch, newc, opened);
            let mid = spec_eval_seq(ch, newc, opened).0;
            assert(fin == mid);
            assert forall|i: int| 0 <= i < st.ctxs.len() && i != c implies fin.ctxs[i]
                == st.ctxs[i] by {
                assert(mid.ctxs[i] == opened.ctxs[i]);
                assert(opened.ctxs[i] == st.ctxs[i]);
            }
            assert(fin.ctxs[c].parent == st.ctxs[c].parent) by {
                assert(mid.ctxs[c] == opened.ctxs[c]);
            }
        },
        NodeModel::List(ch) => {
            lemma_eval_seq_frame(ch, c, st);
            let mid = spec_eval_seq(ch, c, st).0;
            assert(fin == mid);
            assert forall|i: int| 0 <= i < st.ctxs.len() && i != c implies fin.ctxs[i]
                == st.ctxs[i] by {
                assert(mid.ctxs[i] == st.ctxs[i]);
            }
        },
        NodeModel::Value(_) => {},
        NodeModel::Var(_) => {},
        NodeModel::Assign(id, rhs) => {
            lemma_eval_node_frame(*rhs, c, st);
            let mid = spec_eval_node(*rhs, c, st).0;
            assert forall|i: int| 0 <= i < st.ctxs.len() && i != c implies fin.ctxs[i]
                == st.ctxs[i] by {
                assert(mid.ctxs[i] == st.ctxs[i]);
            }
        },
        NodeModel::Call(id, args) => {
            lemma_eval_seq_frame(args, c, st);
            let mid = spec_eval_seq(args, c, st).0;
            assert forall|i: int| 0 <= i < st.ctxs.len() && i != c implies fin.ctxs[i]
                == st.ctxs[i] by {
                assert(mid.ctxs[i] == st.ctxs[i]);
            }
            assert(fin.ctxs[c].parent == st.ctxs[c].parent) by {
                assert(mid.ctxs[c].parent == st.ctxs[c].parent);
                assert(fin.ctxs == mid.ctxs);
            }
        },
        NodeModel::Lambda(_) => {},
    }
}

/// The same frame property for a whole statement list.
pub proof fn lemma_eval_seq_frame(ns: Seq<NodeModel>, c: int, st: EvalState)
    requires
        0 <= c < st.ctxs.len(),
    ensures
        spec_eval_seq(ns, c, st).0.ctxs.len() >= st.ctxs.len(),
        forall|i: int|
            0 <= i < st.ctxs.len() && i != c ==> spec_eval_seq(ns, c, st).0.ctxs[i]
                == st.ctxs[i],
        spec_eval_seq(ns, c, st).0.ctxs[c].parent == st.ctxs[c].parent,
    decreases ns,
{
    let fin = spec_eval_seq(ns, c, st).0;
    if ns.len() > 0 {
        lemma_eval_node_frame(ns[0], c, st);
        let (st1, r1) = spec_eval_node(ns[0], c, st);
        if r1 is Ok {
            lemma_eval_seq_frame(ns.drop_first(), c, st1);
            let mid = spec_eval_seq(ns.drop_first(), c, st1).0;
            assert(fin == mid);
            assert forall|i: int| 0 <= i < st.ctxs.len() && i != c implies fin.ctxs[i]
                == st.ctxs[i] by {
                assert(st1.ctxs[i] == st.ctxs[i]);
                assert(mid.ctxs[i] == st1.ctxs[i]);
            }
            assert(fin.ctxs[c].parent == st.ctxs[c].parent) by {
                assert(st1.ctxs[c].parent == st.ctxs[c].parent);
                assert(mid.ctxs[c].parent == st1.ctxs[c].parent);
            }
        }
    }
}

/// Scope shadowing, seen from outside: a block runs its statements in a
/// fresh child scope, so every scope that existed before the block — the
/// enclosing one included — holds exactly the same bindings afterwards.
/// Reassigning an identifier inside a nested block can never alter the
/// outer binding that it shadows.
pub proof fn lemma_block_preserves_outer_scopes(ch: Seq<NodeModel>, c: int, st: EvalState)
    requires
        0 <= c < st.ctxs.len(),
    ensures
        forall|i: int|
            0 <= i < st.ctxs.len() ==> spec_eval_node(NodeModel::Block(ch), c, st).0.ctxs[i]
                == st.ctxs[i],
{
    let newc = st.ctxs.len() as int;
    let opened = EvalState {
        ctxs: st.ctxs.push(CtxModel { map: Map::empty(), parent: Some(c) }),
        host: st.host,
    };
    lemma_eval_seq_frame(ch, newc, opened);
    let fin = spec_eval_node(NodeModel::Block(ch), c, st).0;
    let mid = spec_eval_seq(ch, newc, opened).0;
    assert(fin == mid);
    assert forall|i: int| 0 <= i < st.ctxs.len() implies fin.ctxs[i] == st.ctxs[i] by {
        assert(mid.ctxs[i] == opened.ctxs[i]);
        assert(opened.ctxs[i] == st.ctxs[i]);
    }
}

/// Scope shadowing, seen from inside: two sequential assignments of literal
/// values to the same identifier in the same scope overwrite one binding
/// rather than stacking two — afterwards the scope's map is the old map
/// with the identifier bound once, to the second value, no new scope has
/// appeared, no other scope has changed, and nothing was produced or
/// displayed.
pub proof fn lemma_assign_overwrites(
    id: Seq<char>,
    r1: RawModel,
    r2: RawModel,
    c: int,
    st: EvalState,
)
    requires
        0 <= c < st.ctxs.len(),
    ensures
        ({
            let ns = seq![
                NodeModel::Assign(id, Box::new(NodeModel::Value(r1))),
                NodeModel::Assign(id, Box::new(NodeModel::Value(r2))),
            ];
            let (st2, r) = spec_eval_seq(ns, c, st);
            &&& r == Ok::<Seq<VarModel>, ErrModel>(Seq::empty())
            &&& st2.ctxs.len() == st.ctxs.len()
            &&& st2.ctxs[c].map == st.ctxs[c].map.insert(id, VarModel::Raw(r2))
            &&& forall|i: int| 0 <= i < st.ctxs.len() && i != c ==> st2.ctxs[i] == st.ctxs[i]
            &&& st2.host == st.host
        }),
{
    let ns = seq![
        NodeModel::Assign(id, Box::new(NodeModel::Value(r1))),
        NodeModel::Assign(id, Box::new(NodeModel::Value(r2))),
    ];
    let a1 = ns[0];
    let a2 = ns[1];
    assert(ns.drop_first() =~= seq![a2]);
    assert(seq![a2].drop_first() =~= Seq::<NodeModel>::empty());
    assert(a1 == NodeModel::Assign(id, Box::new(NodeModel::Value(r1))));
    assert(a2 == NodeModel::Assign(id, Box::new(NodeModel::Value(r2))));
    let (stm, rm) = spec_eval_node(a1, c, st);
    let (st2, r2r) = spec_eval_node(a2, c, stm);
    assert(spec_eval_node(NodeModel::Value(r1), c, st)
        == (st, Ok::<Option<VarModel>, ErrModel>(Some(VarModel::Raw(r1)))));
    assert(spec_eval_node(NodeModel::Value(r2), c, stm)
        == (stm, Ok::<Option<VarModel>, ErrModel>(Some(VarModel::Raw(r2)))));
    assert(rm == Ok::<Option<VarModel>, ErrModel>(None::<VarModel>));
    assert(r2r == Ok::<Option<VarModel>, ErrModel>(None::<VarModel>));
    assert(stm.ctxs[c].map =~= st.ctxs[c].map.insert(id, VarModel::Raw(r1)));
    assert(st2.ctxs[c].map =~= st.ctxs[c].map.insert(id, VarModel::Raw(r2)));
    assert(st2.ctxs =~= st.ctxs.update(c, st2.ctxs[c]));
    assert(spec_eval_seq(Seq::<NodeModel>::empty(), c, st2)
        == (st2, Ok::<Seq<VarModel>, ErrModel>(Seq::empty())));
    assert(spec_eval_seq(seq![a2], c, stm)
        == (st2, Ok::<Seq<VarModel>, ErrModel>(Seq::empty())));
    assert(spec_eval_seq(ns.drop_first(), c, stm)
        == (st2, Ok::<Seq<VarModel>, ErrModel>(Seq::empty())));
    assert(spec_eval_seq(ns, c, st)
        == (st2, Ok::<Seq<VarModel>, ErrModel>(Seq::empty())));
}

/// A call that resolves to the `DISPLAY` builtin and succeeds appends
/// exactly one line to the output channel, and its value is that very line
/// as a text value.  Together with `lemma_trailing_calls_produce_the_values`
/// this pins a program that ends in displays: its worth is the list of the
/// displayed lines, in statement order.
pub proof fn lemma_display_call_echoes_its_line(
    id: Seq<char>,
    args: Seq<NodeModel>,
    c: int,
    st: EvalState,
)
    requires
        ({
            let (st1, r) = spec_eval_seq(args, c, st);
            r is Ok && crate::eval::lookup(st1.ctxs, c, id) == Some(
                VarModel::Function(Builtin::Display),
            )
        }),
        spec_eval_node(NodeModel::Call(id, args), c, st).1 is Ok,
    ensures
        ({
            let mid = spec_eval_seq(args, c, st).0;
            let (st2, r) = spec_eval_node(NodeModel::Call(id, args), c, st);
            &&& st2.host.out == mid.host.out.push(st2.host.out.last())
            &&& r->Ok_0 == Some(VarModel::Raw(crate::ast::RawModel::Text(st2.host.out.last())))
        }),
{
}

/// The soft half of the failure duality: an operator call always succeeds
/// and never touches the host channels, whatever values it is handed and in
/// whatever number — when no candidate shape matches (a number compared to a
/// text among them), the result is the textual diagnostic value, data that
/// flows on through the program.  Only `DISPLAY` and `INPUT` can fail hard.
pub proof fn lemma_operators_never_fail_hard(b: Builtin, args: Seq<VarModel>, h: HostModel)
    requires
        !(b is Display),
        !(b is Input),
    ensures
        spec_builtin(b, args, h).0 == h,
        spec_builtin(b, args, h).1 is Ok,
{
}

/// Assignments produce no value and calls produce exactly one, so when the
/// last `k` statements of a list are calls and everything before them is an
/// assignment, a successful run produces exactly `k` values: the call
/// results, in statement order.  The list's worth is then the single call's
/// value when `k == 1`, and the list of the `k` values otherwise.
pub proof fn lemma_trailing_calls_produce_the_values(
    ns: Seq<NodeModel>,
    k: int,
    c: int,
    st: EvalState,
)
    requires
        0 <= k <= ns.len(),
        forall|i: int| 0 <= i < ns.len() - k ==> (#[trigger] ns[i]) is Assign,
        forall|i: int| ns.len() - k <= i < ns.len() ==> (#[trigger] ns[i]) is Call,
        spec_eval_seq(ns, c, st).1 is Ok,
    ensures
        spec_eval_seq(ns, c, st).1->Ok_0.len() == k,
    decreases ns,
{
    if ns.len() > 0 {
        let (st1, r1) = spec_eval_node(ns[0], c, st);
        let rest = ns.drop_first();
        if ns.len() - k > 0 {
            assert(ns[0] is Assign);
            assert forall|i: int| 0 <= i < rest.len() - k implies (#[trigger] rest[i])
                is Assign by {
                assert(rest[i] == ns[i + 1]);
            }
            assert forall|i: int| rest.len() - k <= i < rest.len() implies (#[trigger] rest[i])
                is Call by {
                assert(rest[i] == ns[i + 1]);
            }
            lemma_trailing_calls_produce_the_values(rest, k, c, st1);
        } else {
            assert(ns[0] is Call);
            assert forall|i: int| 0 <= i < rest.len() implies (#[trigger] rest[i]) is Call by {
                assert(rest[i] == ns[i + 1]);
            }
            assert(rest.len() - (k - 1) <= 0);
            lemma_trailing_calls_produce_the_values(rest, k - 1, c, st1);
        }
    }
}

} // verus!
