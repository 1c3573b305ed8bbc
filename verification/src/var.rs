//! The runtime value model: literals, lists, deferred nodes, and callables.

use vstd::prelude::*;
use vstd::seq::axiom_seq_index_decreases;
use crate::ast::{Node, NodeModel, Raw, RawModel};
use crate::render::{num_to_string, push_char, spec_num_str};

verus! {

/// A named built-in callable.  Operators dispatch on the shapes of their two
/// arguments; `Display` and `Input` are the two host channels.
#[derive(Debug, Clone, Copy, PartialEq, Eq)]
pub enum Builtin {
    Add,
    Sub,
    Mul,
    Div,
    Mod,
    Eq,
    Gt,
    Lt,
    And,
    Or,
    Display,
    Input,
}

/// Mathematical model of a runtime value.
pub ghost enum VarModel {
    Raw(RawModel),
    List(Seq<VarModel>),
    Lambda(NodeModel),
    Function(Builtin),
}

/// A value that programs manipulate: a literal, a list of values, an
/// unevaluated node captured for later invocation, or a native callable.
/// `Function` and `Lambda` values can never be formatted for display or
/// coerced to a number, string or boolean: attempting so is an error.
#[derive(Debug, PartialEq)]
pub enum Var {
    Raw(Raw),
    List(Vec<Var>),
    Lambda(Node),
    Function(Builtin),
}

/// The model of a value.
pub open spec fn var_view(v: Var) -> VarModel
    decreases v,
{
    match v {
        Var::Raw(r) => VarModel::Raw(r@),
        Var::List(items) => VarModel::List(vars_view(items@)),
        Var::Lambda(n) => VarModel::Lambda(n@),
        Var::Function(b) => VarModel::Function(b),
    }
}

/// The models of a sequence of values.
pub open spec fn vars_view(s: Seq<Var>) -> Seq<VarModel>
    decreases s,
{
    if s.len() == 0 {
        Seq::empty()
    } else {
        vars_view(s.drop_last()).push(var_view(s.last()))
    }
}

impl View for Var {
    type V = VarModel;

    open spec fn view(&self) -> VarModel {
        var_view(*self)
    }
}

/// `vars_view` maps `var_view` over the sequence, element by element.
pub proof fn lemma_vars_view(s: Seq<Var>)
    ensures
        vars_view(s).len() == s.len(),
        forall|i: int| 0 <= i < s.len() ==> vars_view(s)[i] == var_view(#[trigger] s[i]),
    decreases s,
{
    if s.len() > 0 {
        lemma_vars_view(s.drop_last());
        assert forall|i: int| 0 <= i < s.len() implies vars_view(s)[i] == var_view(s[i]) by {
            if i < s.len() - 1 {
                assert(s.drop_last()[i] == s[i]);
                assert(vars_view(s)[i] == vars_view(s.drop_last())[i]);
            } else {
                assert(s.last() == s[i]);
            }
        }
    }
}

/// Viewing commutes with appending one value.
pub proof fn lemma_vars_view_push(s: Seq<Var>, v: Var)
    ensures
        vars_view(s.push(v)) == vars_view(s).push(var_view(v)),
{
    assert(s.push(v).drop_last() =~= s);
    assert(s.push(v).last() == v);
}

/// The rendering of a literal: numbers in decimal (or as a reduced
/// fraction), text in quotes, booleans as `true`/`false`.
pub open spec fn raw_text(r: RawModel) -> Seq<char> {
    match r {
        RawModel::Number(x) => spec_num_str(x),
        RawModel::Text(t) => seq!['"'] + t + seq!['"'],
        RawModel::Bool(b) => if b {
            seq!['t', 'r', 'u', 'e']
        } else {
            seq!['f', 'a', 'l', 's', 'e']
        },
    }
}

/// The rendering of a value, or `None` where a `Function` or `Lambda` stands
/// anywhere inside it: callables have no displayable form.
pub open spec fn var_text(v: VarModel) -> Option<Seq<char>>
    decreases v,
{
    match v {
        VarModel::Raw(r) => Some(raw_text(r)),
        VarModel::List(items) => match list_texts(items) {
            Some(body) => Some(seq!['['] + body + seq![']']),
            None => None,
        },
        VarModel::Lambda(_) => None,
        VarModel::Function(_) => None,
    }
}

/// The comma-separated renderings of a list's items.
pub open spec fn list_texts(items: Seq<VarModel>) -> Option<Seq<char>>
    decreases items,
{
    if items.len() == 0 {
        Some(Seq::empty())
    } else {
        match (list_texts(items.drop_last()), var_text(items.last())) {
            (Some(acc), Some(t)) => Some(
                if items.len() == 1 {
                    t
                } else {
                    acc + seq![',', ' '] + t
                },
            ),
            _ => None,
        }
    }
}

/// Appends `true` or `false` to a string.
fn push_bool(out: &mut String, b: bool)
    ensures
        final(out)@ == old(out)@ + raw_text(RawModel::Bool(b)),
{
    if b {
        push_char(out, 't');
        push_char(out, 'r');
        push_char(out, 'u');
        push_char(out, 'e');
        proof {
            assert(final(out)@ =~= old(out)@ + raw_text(RawModel::Bool(b)));
        }
    } else {
        push_char(out, 'f');
        push_char(out, 'a');
        push_char(out, 'l');
        push_char(out, 's');
        push_char(out, 'e');
        proof {
            assert(final(out)@ =~= old(out)@ + raw_text(RawModel::Bool(b)));
        }
    }
}

/// Appends the rendering of a literal to a string.
fn push_raw_text(out: &mut String, r: &Raw)
    ensures
        final(out)@ == old(out)@ + raw_text(r@),
{
    match r {
        Raw::Number(x) => {
            let s = num_to_string(x);
            out.append(s.as_str());
        },
        Raw::Text(t) => {
            push_char(out, '"');
            out.append(t.as_str());
            push_char(out, '"');
            proof {
                assert(final(out)@ =~= old(out)@ + raw_text(r@));
            }
        },
        Raw::Bool(b) => {
            push_bool(out, *b);
        },
    }
}

impl Var {
    /// An owned copy with the same value.
    pub fn dup(&self) -> (r: Var)
        ensures
            r@ == self@,
        decreases *self,
    {
        match self {
            Var::Raw(r) => Var::Raw(r.dup()),
            Var::List(items) => Var::List(dup_vars(items)),
            Var::Lambda(n) => Var::Lambda(n.dup()),
            Var::Function(b) => Var::Function(*b),
        }
    }

    /// The displayable rendering of this value; a `Function` or `Lambda`
    /// has no such form.
    pub fn text(&self) -> (r: Option<String>)
        ensures
            match r {
                Some(s) => var_text(self@) == Some(s@),
                None => var_text(self@) is None,
            },
        decreases *self,
    {
        match self {
            Var::Raw(raw) => {
                let mut out = String::new();
                push_raw_text(&mut out, raw);
                proof {
                    assert(out@ =~= raw_text(raw@));
                }
                Some(out)
            },
            Var::List(items) => {
                let body = match vars_body_text(items) {
                    Some(b) => b,
                    None => {
                        return None;
                    },
                };
                let mut out = String::new();
                push_char(&mut out, '[');
                out.append(body.as_str());
                push_char(&mut out, ']');
                proof {
                    assert(out@ =~= seq!['['] + body@ + seq![']']);
                }
                Some(out)
            },
            Var::Lambda(_) => None,
            Var::Function(_) => None,
        }
    }
}

/// An owned copy of a sequence of values.
fn dup_vars(items: &Vec<Var>) -> (r: Vec<Var>)
    ensures
        vars_view(r@) == vars_view(items@),
    decreases *items,
{
    let mut out: Vec<Var> = Vec::new();
    let mut i: usize = 0;
    while i < items.len()
        invariant
            i <= items@.len(),
            out@.len() == i,
            forall|k: int| 0 <= k < i ==> var_view(#[trigger] out@[k]) == var_view(items@[k]),
        decreases items@.len() - i,
    {
        proof {
            axiom_seq_index_decreases(items@, i as int);
        }
        out.push(items[i].dup());
        i = i + 1;
    }
    proof {
        lemma_vars_view(out@);
        lemma_vars_view(items@);
        assert forall|k: int| 0 <= k < items@.len() implies vars_view(out@)[k] == vars_view(
            items@,
        )[k] by {
            assert(var_view(out@[k]) == var_view(items@[k]));
        }
        assert(vars_view(out@) =~= vars_view(items@));
    }
    out
}

/// The comma-separated renderings of the values, or nothing when one of
/// them has no displayable form.
fn vars_body_text(items: &Vec<Var>) -> (r: Option<String>)
    ensures
        match r {
            Some(s) => list_texts(vars_view(items@)) == Some(s@),
            None => list_texts(vars_view(items@)) is None,
        },
    decreases *items,
{
    let mut body = String::new();
    let mut i: usize = 0;
    while i < items.len()
        invariant
            i <= items@.len(),
            list_texts(vars_view(items@).subrange(0, i as int)) == Some(body@),
        decreases items@.len() - i,
    {
        proof {
            axiom_seq_index_decreases(items@, i as int);
            lemma_vars_view(items@);
        }
        let ghost body_start = body@;
        match items[i].text() {
            Some(t) => {
                if i > 0 {
                    push_char(&mut body, ',');
                    push_char(&mut body, ' ');
                }
                let ghost with_sep = body@;
                body.append(t.as_str());
                proof {
                    let vm = vars_view(items@);
                    let pre = vm.subrange(0, i as int + 1);
                    assert(pre.drop_last() =~= vm.subrange(0, i as int));
                    assert(pre.last() == vm[i as int]);
                    assert(var_text(vm[i as int]) == Some(t@));
                    if i == 0 {
                        assert(body_start =~= Seq::<char>::empty());
                        assert(body@ =~= t@);
                    } else {
                        assert(with_sep =~= body_start + seq![',', ' ']);
                        assert(body@ =~= body_start + seq![',', ' '] + t@);
                    }
                    assert(list_texts(pre) == Some(body@));
                }
            },
            None => {
                proof {
                    lemma_list_texts_none(vars_view(items@), i as int);
                }
                return None;
            },
        }
        i = i + 1;
    }
    proof {
        assert(vars_view(items@).subrange(0, vars_view(items@).len() as int)
            =~= vars_view(items@));
        lemma_vars_view(items@);
    }
    Some(body)
}

/// A list with an undisplayable item at `i` has no rendering at all.
proof fn lemma_list_texts_none(items: Seq<VarModel>, i: int)
    requires
        0 <= i < items.len(),
        var_text(items[i]) is None,
    ensures
        list_texts(items) is None,
    decreases items.len(),
{
    if items.len() > 0 {
        if i == items.len() - 1 {
        } else {
            lemma_list_texts_none(items.drop_last(), i);
        }
    }
}

} // verus!
