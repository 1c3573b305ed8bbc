//! The standard library's callables, and how a call dispatches on the
//! shapes of its arguments.
//!
//! An operator tries its candidate shapes in a fixed order and computes on
//! the first that both arguments satisfy, with no cross-type coercion.  When
//! no shape matches, the call still succeeds and returns a textual
//! diagnostic value: operator dispatch failure is data, not an error.  The
//! same soft policy covers division by zero and results too large to
//! represent.  `DISPLAY` and `INPUT` are the two host channels; a value with
//! no displayable form makes `DISPLAY` fail hard.

use vstd::prelude::*;
use crate::ast::{Raw, RawModel};
use crate::rational::{Rat, rat_add, rat_div, rat_eq, rat_lt, rat_mod, rat_mul, rat_sub};
use crate::var::{
    Builtin, Var, VarModel, lemma_vars_view, var_text, vars_view,
};

verus! {

/// Mathematical model of a hard evaluation failure.
pub ghost enum ErrModel {
    /// No scope in the chain binds the identifier.
    UnknownIdentifier(Seq<char>),
    /// The call site resolved to a value that is not a `Function`.
    NotCallable,
    /// A bare variable read resolved to a `Function`, `List` or `Lambda`.
    UnsupportedVariableKind(Seq<char>),
    /// `DISPLAY` was handed a value with no displayable form.
    NotDisplayable,
    /// `INPUT` was called with no host input left.
    InputExhausted,
}

/// A hard evaluation failure: it aborts the whole program run.
#[derive(Debug, PartialEq)]
pub enum EvalError {
    UnknownIdentifier(String),
    NotCallable,
    UnsupportedVariableKind(String),
    NotDisplayable,
    InputExhausted,
}

impl View for EvalError {
    type V = ErrModel;

    open spec fn view(&self) -> ErrModel {
        match self {
            EvalError::UnknownIdentifier(id) => ErrModel::UnknownIdentifier(id@),
            EvalError::NotCallable => ErrModel::NotCallable,
            EvalError::UnsupportedVariableKind(id) => ErrModel::UnsupportedVariableKind(id@),
            EvalError::NotDisplayable => ErrModel::NotDisplayable,
            EvalError::InputExhausted => ErrModel::InputExhausted,
        }
    }
}

/// The message a hard evaluation failure is reported with.
pub open spec fn eval_err_text(e: ErrModel) -> Seq<char> {
    match e {
        ErrModel::UnknownIdentifier(id) => "couldn't find variable with identifier "@ + id,
        ErrModel::NotCallable => "only functions can be called"@,
        ErrModel::UnsupportedVariableKind(id) => "variable "@ + id
            + " doesn't hold a plain value"@,
        ErrModel::NotDisplayable => "can't display a function"@,
        ErrModel::InputExhausted => "no input is available"@,
    }
}

impl EvalError {
    /// The message this failure is reported with.
    pub fn message(&self) -> (r: String)
        ensures
            r@ == eval_err_text(self@),
    {
        match self {
            EvalError::UnknownIdentifier(id) => {
                let m = String::from_str("couldn't find variable with identifier ");
                m.concat(id.as_str())
            },
            EvalError::NotCallable => String::from_str("only functions can be called"),
            EvalError::UnsupportedVariableKind(id) => {
                let m = String::from_str("variable ");
                let m = m.concat(id.as_str());
                m.concat(" doesn't hold a plain value")
            },
            EvalError::NotDisplayable => String::from_str("can't display a function"),
            EvalError::InputExhausted => String::from_str("no input is available"),
        }
    }
}

/// Mathematical model of the host channels: the lines displayed so far, and
/// the input lines not yet consumed.
pub ghost struct HostModel {
    pub out: Seq<Seq<char>>,
    pub inp: Seq<Seq<char>>,
}

/// The two host channels: a one-way output log that `DISPLAY` appends to,
/// and a queue of input lines that `INPUT` consumes from the front.
pub struct Host {
    pub output: Vec<String>,
    pub input: Vec<String>,
}

impl View for Host {
    type V = HostModel;

    open spec fn view(&self) -> HostModel {
        HostModel {
            out: self.output@.map_values(|s: String| s@),
            inp: self.input@.map_values(|s: String| s@),
        }
    }
}

/// The diagnostic text an operator returns when no candidate shape matches
/// its arguments.
pub open spec fn soft_text(b: Builtin) -> Seq<char> {
    match b {
        Builtin::Add => "Can only apply the add operation to numbers or strings!"@,
        Builtin::Sub => "Can only apply the subtract operation to numbers!"@,
        Builtin::Mul => "Can only apply the multiply operation to numbers!"@,
        Builtin::Div => "Can only apply the divide operation to numbers!"@,
        Builtin::Mod => "Can only apply the modulo operation to numbers!"@,
        Builtin::Eq => "Can only apply the equals operation to numbers, booleans or strings!"@,
        Builtin::Gt => "Can only apply the greater than operation to numbers!"@,
        Builtin::Lt => "Can only apply the less than operation to numbers!"@,
        Builtin::And => "Can only apply the AND operation to booleans!"@,
        Builtin::Or => "Can only apply the OR operation to booleans!"@,
        _ => Seq::empty(),
    }
}

/// The diagnostic text for an exact result that does not fit the numeric
/// representation.
pub open spec fn range_text() -> Seq<char> {
    "The result is out of range!"@
}

/// The diagnostic text for a division by zero.
pub open spec fn div_zero_text() -> Seq<char> {
    "Can't divide by zero!"@
}

/// The diagnostic text for a `MOD` by zero.
pub open spec fn mod_zero_text() -> Seq<char> {
    "Can't take MOD by zero!"@
}

/// A soft diagnostic as a value.
pub open spec fn soft_value(t: Seq<char>) -> VarModel {
    VarModel::Raw(RawModel::Text(t))
}

/// A numeric result, or the out-of-range diagnostic.
pub open spec fn num_or_range(z: Option<Rat>) -> VarModel {
    match z {
        Some(v) => VarModel::Raw(RawModel::Number(v)),
        None => soft_value(range_text()),
    }
}

/// What an operator computes from two literal arguments.
pub open spec fn spec_operator_raw(b: Builtin, ra: RawModel, rb: RawModel) -> VarModel {
    match b {
        Builtin::Add => match (ra, rb) {
            (RawModel::Number(x), RawModel::Number(y)) => num_or_range(rat_add(x, y)),
            (RawModel::Text(s), RawModel::Text(t)) => VarModel::Raw(RawModel::Text(s + t)),
            _ => soft_value(soft_text(b)),
        },
        Builtin::Sub => match (ra, rb) {
            (RawModel::Number(x), RawModel::Number(y)) => num_or_range(rat_sub(x, y)),
            _ => soft_value(soft_text(b)),
        },
        Builtin::Mul => match (ra, rb) {
            (RawModel::Number(x), RawModel::Number(y)) => num_or_range(rat_mul(x, y)),
            _ => soft_value(soft_text(b)),
        },
        Builtin::Div => match (ra, rb) {
            (RawModel::Number(x), RawModel::Number(y)) => if y.n == 0 {
                soft_value(div_zero_text())
            } else {
                num_or_range(rat_div(x, y))
            },
            _ => soft_value(soft_text(b)),
        },
        Builtin::Mod => match (ra, rb) {
            (RawModel::Number(x), RawModel::Number(y)) => if y.n == 0 {
                soft_value(mod_zero_text())
            } else {
                num_or_range(rat_mod(x, y))
            },
            _ => soft_value(soft_text(b)),
        },
        Builtin::Eq => match (ra, rb) {
            (RawModel::Number(x), RawModel::Number(y)) => VarModel::Raw(
                RawModel::Bool(rat_eq(x, y)),
            ),
            (RawModel::Bool(x), RawModel::Bool(y)) => VarModel::Raw(RawModel::Bool(x == y)),
            (RawModel::Text(s), RawModel::Text(t)) => VarModel::Raw(RawModel::Bool(s == t)),
            _ => soft_value(soft_text(b)),
        },
        Builtin::Gt => match (ra, rb) {
            (RawModel::Number(x), RawModel::Number(y)) => VarModel::Raw(
                RawModel::Bool(rat_lt(y, x)),
            ),
            _ => soft_value(soft_text(b)),
        },
        Builtin::Lt => match (ra, rb) {
            (RawModel::Number(x), RawModel::Number(y)) => VarModel::Raw(
                RawModel::Bool(rat_lt(x, y)),
            ),
            _ => soft_value(soft_text(b)),
        },
        Builtin::And => match (ra, rb) {
            (RawModel::Bool(x), RawModel::Bool(y)) => VarModel::Raw(RawModel::Bool(x && y)),
            _ => soft_value(soft_text(b)),
        },
        Builtin::Or => match (ra, rb) {
            (RawModel::Bool(x), RawModel::Bool(y)) => VarModel::Raw(RawModel::Bool(x || y)),
            _ => soft_value(soft_text(b)),
        },
        _ => soft_value(soft_text(b)),
    }
}

/// What an operator computes: its two-literal dispatch when it gets exactly
/// two literal arguments, else the soft diagnostic.
pub open spec fn spec_operator(b: Builtin, args: Seq<VarModel>) -> VarModel {
    if args.len() == 2 {
        match (args[0], args[1]) {
            (VarModel::Raw(ra), VarModel::Raw(rb)) => spec_operator_raw(b, ra, rb),
            _ => soft_value(soft_text(b)),
        }
    } else {
        soft_value(soft_text(b))
    }
}

/// The space-joined renderings of the displayed values, left to right, or
/// `None` where one of them has no displayable form.
pub open spec fn display_join(items: Seq<VarModel>) -> Option<Seq<char>>
    decreases items,
{
    if items.len() == 0 {
        Some(Seq::empty())
    } else {
        match (display_join(items.drop_last()), var_text(items.last())) {
            (Some(acc), Some(t)) => Some(
                if items.len() == 1 {
                    t
                } else {
                    acc + seq![' '] + t
                },
            ),
            _ => None,
        }
    }
}

/// A display of values with an undisplayable one at `i` has no joined form.
proof fn lemma_display_join_none(items: Seq<VarModel>, i: int)
    requires
        0 <= i < items.len(),
        var_text(items[i]) is None,
    ensures
        display_join(items) is None,
    decreases items.len(),
{
    if items.len() > 0 {
        if i < items.len() - 1 {
            lemma_display_join_none(items.drop_last(), i);
        }
    }
}

/// What invoking a builtin does to the host channels and returns.
pub open spec fn spec_builtin(b: Builtin, args: Seq<VarModel>, h: HostModel) -> (
    HostModel,
    Result<VarModel, ErrModel>,
) {
    match b {
        Builtin::Display => match display_join(args) {
            Some(t) => (
                HostModel { out: h.out.push(t), inp: h.inp },
                Ok(VarModel::Raw(RawModel::Text(t))),
            ),
            None => (h, Err(ErrModel::NotDisplayable)),
        },
        Builtin::Input => if h.inp.len() > 0 {
            (
                HostModel { out: h.out, inp: h.inp.drop_first() },
                Ok(VarModel::Raw(RawModel::Text(h.inp[0]))),
            )
        } else {
            (h, Err(ErrModel::InputExhausted))
        },
        _ => (h, Ok(spec_operator(b, args))),
    }
}

/// The soft diagnostic for `b`, as a runtime value.
fn soft_var(b: Builtin) -> (r: Var)
    requires
        !(b is Display),
        !(b is Input),
    ensures
        r@ == soft_value(soft_text(b)),
{
    let m = match b {
        Builtin::Add => String::from_str("Can only apply the add operation to numbers or strings!"),
        Builtin::Sub => String::from_str("Can only apply the subtract operation to numbers!"),
        Builtin::Mul => String::from_str("Can only apply the multiply operation to numbers!"),
        Builtin::Div => String::from_str("Can only apply the divide operation to numbers!"),
        Builtin::Mod => String::from_str("Can only apply the modulo operation to numbers!"),
        Builtin::Eq => String::from_str(
            "Can only apply the equals operation to numbers, booleans or strings!",
        ),
        Builtin::Gt => String::from_str("Can only apply the greater than operation to numbers!"),
        Builtin::Lt => String::from_str("Can only apply the less than operation to numbers!"),
        Builtin::And => String::from_str("Can only apply the AND operation to booleans!"),
        _ => String::from_str("Can only apply the OR operation to booleans!"),
    };
    Var::Raw(Raw::Text(m))
}

/// One operator step on two literals.
fn exec_operator_raw(b: Builtin, ra: &Raw, rb: &Raw) -> (r: Var)
    requires
        !(b is Display),
        !(b is Input),
    ensures
        r@ == spec_operator_raw(b, ra@, rb@),
{
    match b {
        Builtin::Add => match (ra, rb) {
            (Raw::Number(x), Raw::Number(y)) => match x.add(y) {
                Some(z) => Var::Raw(Raw::Number(z)),
                None => Var::Raw(Raw::Text(String::from_str("The result is out of range!"))),
            },
            (Raw::Text(s), Raw::Text(t)) => Var::Raw(Raw::Text(s.clone().concat(t.as_str()))),
            _ => soft_var(b),
        },
        Builtin::Sub => match (ra, rb) {
            (Raw::Number(x), Raw::Number(y)) => match x.sub(y) {
                Some(z) => Var::Raw(Raw::Number(z)),
                None => Var::Raw(Raw::Text(String::from_str("The result is out of range!"))),
            },
            _ => soft_var(b),
        },
        Builtin::Mul => match (ra, rb) {
            (Raw::Number(x), Raw::Number(y)) => match x.mul(y) {
                Some(z) => Var::Raw(Raw::Number(z)),
                None => Var::Raw(Raw::Text(String::from_str("The result is out of range!"))),
            },
            _ => soft_var(b),
        },
        Builtin::Div => match (ra, rb) {
            (Raw::Number(x), Raw::Number(y)) => if y.is_zero() {
                Var::Raw(Raw::Text(String::from_str("Can't divide by zero!")))
            } else {
                match x.div(y) {
                    Some(z) => Var::Raw(Raw::Number(z)),
                    None => Var::Raw(Raw::Text(String::from_str("The result is out of range!"))),
                }
            },
            _ => soft_var(b),
        },
        Builtin::Mod => match (ra, rb) {
            (Raw::Number(x), Raw::Number(y)) => if y.is_zero() {
                Var::Raw(Raw::Text(String::from_str("Can't take MOD by zero!")))
            } else {
                match x.rem(y) {
                    Some(z) => Var::Raw(Raw::Number(z)),
                    None => Var::Raw(Raw::Text(String::from_str("The result is out of range!"))),
                }
            },
            _ => soft_var(b),
        },
        Builtin::Eq => match (ra, rb) {
            (Raw::Number(x), Raw::Number(y)) => {
                let bv = x.eq_value(y);
                let out = Var::Raw(Raw::Bool(bv));
                proof {
                    assert(out@ == spec_operator_raw(b, ra@, rb@));
                }
                out
            },
            (Raw::Bool(x), Raw::Bool(y)) => {
                let out = Var::Raw(Raw::Bool(*x == *y));
                proof {
                    assert(out@ == spec_operator_raw(b, ra@, rb@));
                }
                out
            },
            (Raw::Text(s), Raw::Text(t)) => {
                let bv = *s == *t;
                let out = Var::Raw(Raw::Bool(bv));
                proof {
                    assert(out@ == spec_operator_raw(b, ra@, rb@));
                }
                out
            },
            _ => soft_var(b),
        },
        Builtin::Gt => match (ra, rb) {
            (Raw::Number(x), Raw::Number(y)) => {
                let out = Var::Raw(Raw::Bool(y.lt_value(x)));
                proof {
                    assert(out@ == spec_operator_raw(b, ra@, rb@));
                }
                out
            },
            _ => soft_var(b),
        },
        Builtin::Lt => match (ra, rb) {
            (Raw::Number(x), Raw::Number(y)) => {
                let out = Var::Raw(Raw::Bool(x.lt_value(y)));
                proof {
                    assert(out@ == spec_operator_raw(b, ra@, rb@));
                }
                out
            },
            _ => soft_var(b),
        },
        Builtin::And => match (ra, rb) {
            (Raw::Bool(x), Raw::Bool(y)) => {
                let out = Var::Raw(Raw::Bool(*x && *y));
                proof {
                    assert(out@ == spec_operator_raw(b, ra@, rb@));
                }
                out
            },
            _ => soft_var(b),
        },
        Builtin::Or => match (ra, rb) {
            (Raw::Bool(x), Raw::Bool(y)) => {
                let out = Var::Raw(Raw::Bool(*x || *y));
                proof {
                    assert(out@ == spec_operator_raw(b, ra@, rb@));
                }
                out
            },
            _ => soft_var(b),
        },
        _ => soft_var(b),
    }
}

/// The space-joined renderings of the values, or the hard failure that one
/// of them has no displayable form.
fn join_displayed(args: &Vec<Var>) -> (r: Result<String, EvalError>)
    ensures
        match r {
            Ok(s) => display_join(vars_view(args@)) == Some(s@),
            Err(e) => display_join(vars_view(args@)) is None && e@ == ErrModel::NotDisplayable,
        },
{
    let mut acc = String::new();
    let mut i: usize = 0;
    while i < args.len()
        invariant
            i <= args@.len(),
            display_join(vars_view(args@).subrange(0, i as int)) == Some(acc@),
        decreases args@.len() - i,
    {
        proof {
            lemma_vars_view(args@);
        }
        let ghost acc_start = acc@;
        match args[i].text() {
            Some(t) => {
                if i > 0 {
                    crate::render::push_char(&mut acc, ' ');
                }
                let ghost with_sep = acc@;
                acc.append(t.as_str());
                proof {
                    let vm = vars_view(args@);
                    let pre = vm.subrange(0, i as int + 1);
                    assert(pre.drop_last() =~= vm.subrange(0, i as int));
                    assert(pre.last() == vm[i as int]);
                    assert(var_text(vm[i as int]) == Some(t@));
                    if i == 0 {
                        assert(acc_start =~= Seq::<char>::empty());
                        assert(acc@ =~= t@);
                    } else {
                        assert(with_sep =~= acc_start + seq![' ']);
                        assert(acc@ =~= acc_start + seq![' '] + t@);
                    }
                    assert(display_join(pre) == Some(acc@));
                }
            },
            None => {
                proof {
                    lemma_display_join_none(vars_view(args@), i as int);
                }
                return Err(EvalError::NotDisplayable);
            },
        }
        i = i + 1;
    }
    proof {
        lemma_vars_view(args@);
        assert(vars_view(args@).subrange(0, vars_view(args@).len() as int) =~= vars_view(args@));
    }
    Ok(acc)
}

/// Invokes a builtin on evaluated arguments, against the host channels.
pub fn apply_builtin(b: Builtin, args: &Vec<Var>, host: &mut Host) -> (r: Result<Var, EvalError>)
    ensures
        final(host)@ == spec_builtin(b, vars_view(args@), old(host)@).0,
        match r {
            Ok(v) => spec_builtin(b, vars_view(args@), old(host)@).1 == Ok::<VarModel, ErrModel>(
                v@,
            ),
            Err(e) => spec_builtin(b, vars_view(args@), old(host)@).1 == Err::<VarModel, ErrModel>(
                e@,
            ),
        },
{
    match b {
        Builtin::Display => {
            let joined = match join_displayed(args) {
                Ok(s) => s,
                Err(e) => {
                    return Err(e);
                },
            };
            let echo = joined.clone();
            host.output.push(joined);
            proof {
                assert(host.output@.drop_last() =~= old(host).output@);
                assert(final(host)@.out
                    =~= old(host)@.out.push(host.output@.last()@));
            }
            Ok(Var::Raw(Raw::Text(echo)))
        },
        Builtin::Input => {
            if host.input.len() > 0 {
                let line = host.input.remove(0);
                proof {
                    assert(final(host)@.inp =~= old(host)@.inp.drop_first());
                    assert(line@ == old(host)@.inp[0]);
                }
                Ok(Var::Raw(Raw::Text(line)))
            } else {
                proof {
                    assert(old(host)@.inp.len() == 0);
                }
                Err(EvalError::InputExhausted)
            }
        },
        _ => {
            proof {
                lemma_vars_view(args@);
            }
            if args.len() == 2 {
                match (&args[0], &args[1]) {
                    (Var::Raw(ra), Var::Raw(rb)) => Ok(exec_operator_raw(b, ra, rb)),
                    _ => Ok(soft_var(b)),
                }
            } else {
                Ok(soft_var(b))
            }
        },
    }
}

impl Var {
    /// Invokes this value as a callable with the given arguments, against
    /// the host channels; only a `Function` can be invoked.
    pub fn fn_call(&self, args: &Vec<Var>, host: &mut Host) -> (r: Result<Var, EvalError>)
        ensures
            match self@ {
                VarModel::Function(b) => {
                    &&& final(host)@ == spec_builtin(b, vars_view(args@), old(host)@).0
                    &&& match r {
                        Ok(v) => spec_builtin(b, vars_view(args@), old(host)@).1 == Ok::<
                            VarModel,
                            ErrModel,
                        >(v@),
                        Err(e) => spec_builtin(b, vars_view(args@), old(host)@).1 == Err::<
                            VarModel,
                            ErrModel,
                        >(e@),
                    }
                },
                _ => final(host)@ == old(host)@ && r == Err::<Var, EvalError>(
                    EvalError::NotCallable,
                ),
            },
    {
        match self {
            Var::Function(b) => apply_builtin(*b, args, host),
            _ => Err(EvalError::NotCallable),
        }
    }
}

} // verus!
