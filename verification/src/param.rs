//! Argument lists handed to callables, with their coercions.

use vstd::prelude::*;
use crate::ast::{Raw, RawModel};
use crate::rational::{Num, Rat};
use crate::render::{num_to_string, spec_num_str};
use crate::var::{Var, VarModel, raw_text, vars_view, lemma_vars_view};

verus! {

/// What coercing one value to a number yields: the number, or the message
/// explaining why not.
pub open spec fn var_number(v: VarModel) -> Result<Rat, Seq<char>> {
    match v {
        VarModel::Raw(RawModel::Number(x)) => Ok(x),
        VarModel::Raw(RawModel::Text(_)) => Err("Can't coerce Text into number"@),
        VarModel::Raw(RawModel::Bool(_)) => Err("Can't coerce Bool into number"@),
        _ => Err("Can't coerce functions into numbers"@),
    }
}

/// What coercing one value to a string yields: numbers in decimal, booleans
/// as `true`/`false`, text unquoted.
pub open spec fn var_string(v: VarModel) -> Result<Seq<char>, Seq<char>> {
    match v {
        VarModel::Raw(RawModel::Number(x)) => Ok(spec_num_str(x)),
        VarModel::Raw(RawModel::Text(t)) => Ok(t),
        VarModel::Raw(RawModel::Bool(b)) => Ok(raw_text(RawModel::Bool(b))),
        _ => Err("Can't coerce functions into strings"@),
    }
}

/// What coercing one value to a boolean yields.
pub open spec fn var_boolean(v: VarModel) -> Result<bool, Seq<char>> {
    match v {
        VarModel::Raw(RawModel::Bool(b)) => Ok(b),
        VarModel::Raw(RawModel::Number(_)) => Err("Can't turn Number into bool"@),
        VarModel::Raw(RawModel::Text(_)) => Err("Can't turn Text into bool"@),
        _ => Err("Can't parse functions into booleans"@),
    }
}

impl Var {
    /// The number this value holds, or the message explaining why it has
    /// none.
    pub fn number(&self) -> (r: Result<Num, String>)
        ensures
            match r {
                Ok(n) => var_number(self@) == Ok::<Rat, Seq<char>>(n@),
                Err(m) => var_number(self@) == Err::<Rat, Seq<char>>(m@),
            },
    {
        match self {
            Var::Raw(Raw::Number(x)) => Ok(*x),
            Var::Raw(Raw::Text(_)) => Err(String::from_str("Can't coerce Text into number")),
            Var::Raw(Raw::Bool(_)) => Err(String::from_str("Can't coerce Bool into number")),
            _ => Err(String::from_str("Can't coerce functions into numbers")),
        }
    }

    /// The textual form of this value, numbers in decimal and text unquoted,
    /// or the message explaining why it has none.
    pub fn string(&self) -> (r: Result<String, String>)
        ensures
            match r {
                Ok(s) => var_string(self@) == Ok::<Seq<char>, Seq<char>>(s@),
                Err(m) => var_string(self@) == Err::<Seq<char>, Seq<char>>(m@),
            },
    {
        match self {
            Var::Raw(Raw::Number(x)) => Ok(num_to_string(x)),
            Var::Raw(Raw::Text(t)) => Ok(t.clone()),
            Var::Raw(Raw::Bool(b)) => {
                if *b {
                    let s = String::from_str("true");
                    proof {
                        reveal_strlit("true");
                        assert(s@ =~= raw_text(RawModel::Bool(true)));
                    }
                    Ok(s)
                } else {
                    let s = String::from_str("false");
                    proof {
                        reveal_strlit("false");
                        assert(s@ =~= raw_text(RawModel::Bool(false)));
                    }
                    Ok(s)
                }
            },
            _ => Err(String::from_str("Can't coerce functions into strings")),
        }
    }

    /// The boolean this value holds, or the message explaining why it has
    /// none.
    pub fn boolean(&self) -> (r: Result<bool, String>)
        ensures
            match r {
                Ok(b) => var_boolean(self@) == Ok::<bool, Seq<char>>(b),
                Err(m) => var_boolean(self@) == Err::<bool, Seq<char>>(m@),
            },
    {
        match self {
            Var::Raw(Raw::Bool(b)) => Ok(*b),
            Var::Raw(Raw::Number(_)) => Err(String::from_str("Can't turn Number into bool")),
            Var::Raw(Raw::Text(_)) => Err(String::from_str("Can't turn Text into bool")),
            _ => Err(String::from_str("Can't parse functions into booleans")),
        }
    }
}

/// Coercing a sequence of values to numbers: all of them, or the first
/// failure from the left.
pub open spec fn seq_numbers(s: Seq<VarModel>) -> Result<Seq<Rat>, Seq<char>>
    decreases s.len(),
{
    if s.len() == 0 {
        Ok(Seq::empty())
    } else {
        match var_number(s[0]) {
            Ok(x) => match seq_numbers(s.drop_first()) {
                Ok(rest) => Ok(seq![x] + rest),
                Err(e) => Err(e),
            },
            Err(e) => Err(e),
        }
    }
}

/// Coercing a sequence of values to strings, first failure from the left.
pub open spec fn seq_strings(s: Seq<VarModel>) -> Result<Seq<Seq<char>>, Seq<char>>
    decreases s.len(),
{
    if s.len() == 0 {
        Ok(Seq::empty())
    } else {
        match var_string(s[0]) {
            Ok(x) => match seq_strings(s.drop_first()) {
                Ok(rest) => Ok(seq![x] + rest),
                Err(e) => Err(e),
            },
            Err(e) => Err(e),
        }
    }
}

/// Coercing a sequence of values to booleans, first failure from the left.
pub open spec fn seq_booleans(s: Seq<VarModel>) -> Result<Seq<bool>, Seq<char>>
    decreases s.len(),
{
    if s.len() == 0 {
        Ok(Seq::empty())
    } else {
        match var_boolean(s[0]) {
            Ok(x) => match seq_booleans(s.drop_first()) {
                Ok(rest) => Ok(seq![x] + rest),
                Err(e) => Err(e),
            },
            Err(e) => Err(e),
        }
    }
}

/// The evaluated arguments of one call.
pub struct Parameters(pub Vec<Var>);

impl Parameters {
    /// All arguments as numbers, or the first coercion failure.
    pub fn numbers(&self) -> (r: Result<Vec<Num>, String>)
        ensures
            match r {
                Ok(xs) => seq_numbers(vars_view(self.0@)) == Ok::<Seq<Rat>, Seq<char>>(
                    xs@.map_values(|x: Num| x@),
                ),
                Err(m) => seq_numbers(vars_view(self.0@)) == Err::<Seq<Rat>, Seq<char>>(m@),
            },
    {
        let ghost whole = vars_view(self.0@);
        proof {
            lemma_vars_view(self.0@);
        }
        let mut out: Vec<Num> = Vec::new();
        let mut i: usize = 0;
        proof {
            assert(whole.subrange(0, whole.len() as int) =~= whole);
        }
        while i < self.0.len()
            invariant
                i <= self.0@.len(),
                whole == vars_view(self.0@),
                out@.len() == i,
                seq_numbers(whole) == match seq_numbers(whole.subrange(i as int, whole.len() as int)) {
                    Ok(rest) => Ok::<Seq<Rat>, Seq<char>>(out@.map_values(|x: Num| x@) + rest),
                    Err(e) => Err::<Seq<Rat>, Seq<char>>(e),
                },
            decreases self.0@.len() - i,
        {
            proof {
                lemma_vars_view(self.0@);
                let suf = whole.subrange(i as int, whole.len() as int);
                assert(suf[0] == whole[i as int]);
                assert(suf.drop_first() =~= whole.subrange(i as int + 1, whole.len() as int));
            }
            let ghost out_before = out@;
            let ghost suf2 = whole.subrange(i as int + 1, whole.len() as int);
            match self.0[i].number() {
                Ok(x) => {
                    out.push(x);
                    proof {
                        assert(out@.map_values(|q: Num| q@)
                            =~= out_before.map_values(|q: Num| q@) + seq![x@]);
                        if seq_numbers(suf2) is Ok {
                            let rest = seq_numbers(suf2)->Ok_0;
                            assert(out_before.map_values(|q: Num| q@) + (seq![x@] + rest)
                                =~= out@.map_values(|q: Num| q@) + rest);
                        }
                    }
                },
                Err(m) => {
                    return Err(m);
                },
            }
            i = i + 1;
        }
        proof {
            assert(whole.subrange(whole.len() as int, whole.len() as int)
                =~= Seq::<VarModel>::empty());
            if seq_numbers(whole) is Ok {
                assert(out@.map_values(|q: Num| q@) + Seq::<Rat>::empty()
                    =~= out@.map_values(|q: Num| q@));
            }
        }
        Ok(out)
    }

    /// All arguments as strings, or the first coercion failure.
    pub fn strings(&self) -> (r: Result<Vec<String>, String>)
        ensures
            match r {
                Ok(xs) => seq_strings(vars_view(self.0@)) == Ok::<Seq<Seq<char>>, Seq<char>>(
                    xs@.map_values(|x: String| x@),
                ),
                Err(m) => seq_strings(vars_view(self.0@)) == Err::<Seq<Seq<char>>, Seq<char>>(m@),
            },
    {
        let ghost whole = vars_view(self.0@);
        proof {
            lemma_vars_view(self.0@);
        }
        let mut out: Vec<String> = Vec::new();
        let mut i: usize = 0;
        proof {
            assert(whole.subrange(0, whole.len() as int) =~= whole);
        }
        while i < self.0.len()
            invariant
                i <= self.0@.len(),
                whole == vars_view(self.0@),
                out@.len() == i,
                seq_strings(whole) == match seq_strings(whole.subrange(i as int, whole.len() as int)) {
                    Ok(rest) => Ok::<Seq<Seq<char>>, Seq<char>>(
                        out@.map_values(|x: String| x@) + rest,
                    ),
                    Err(e) => Err::<Seq<Seq<char>>, Seq<char>>(e),
                },
            decreases self.0@.len() - i,
        {
            proof {
                lemma_vars_view(self.0@);
                let suf = whole.subrange(i as int, whole.len() as int);
                assert(suf[0] == whole[i as int]);
                assert(suf.drop_first() =~= whole.subrange(i as int + 1, whole.len() as int));
            }
            let ghost out_before = out@;
            let ghost suf2 = whole.subrange(i as int + 1, whole.len() as int);
            match self.0[i].string() {
                Ok(x) => {
                    let ghost xv = x@;
                    out.push(x);
                    proof {
                        assert(out@.map_values(|q: String| q@)
                            =~= out_before.map_values(|q: String| q@) + seq![xv]);
                        if seq_strings(suf2) is Ok {
                            let rest = seq_strings(suf2)->Ok_0;
                            assert(out_before.map_values(|q: String| q@) + (seq![xv] + rest)
                                =~= out@.map_values(|q: String| q@) + rest);
                        }
                    }
                },
                Err(m) => {
                    return Err(m);
                },
            }
            i = i + 1;
        }
        proof {
            assert(whole.subrange(whole.len() as int, whole.len() as int)
                =~= Seq::<VarModel>::empty());
            if seq_strings(whole) is Ok {
                assert(out@.map_values(|q: String| q@) + Seq::<Seq<char>>::empty()
                    =~= out@.map_values(|q: String| q@));
            }
        }
        Ok(out)
    }

    /// All arguments as booleans, or the first coercion failure.
    pub fn booleans(&self) -> (r: Result<Vec<bool>, String>)
        ensures
            match r {
                Ok(xs) => seq_booleans(vars_view(self.0@)) == Ok::<Seq<bool>, Seq<char>>(xs@),
                Err(m) => seq_booleans(vars_view(self.0@)) == Err::<Seq<bool>, Seq<char>>(m@),
            },
    {
        let ghost whole = vars_view(self.0@);
        proof {
            lemma_vars_view(self.0@);
        }
        let mut out: Vec<bool> = Vec::new();
        let mut i: usize = 0;
        proof {
            assert(whole.subrange(0, whole.len() as int) =~= whole);
        }
        while i < self.0.len()
            invariant
                i <= self.0@.len(),
                whole == vars_view(self.0@),
                out@.len() == i,
                seq_booleans(whole) == match seq_booleans(
                    whole.subrange(i as int, whole.len() as int),
                ) {
                    Ok(rest) => Ok::<Seq<bool>, Seq<char>>(out@ + rest),
                    Err(e) => Err::<Seq<bool>, Seq<char>>(e),
                },
            decreases self.0@.len() - i,
        {
            proof {
                lemma_vars_view(self.0@);
                let suf = whole.subrange(i as int, whole.len() as int);
                assert(suf[0] == whole[i as int]);
                assert(suf.drop_first() =~= whole.subrange(i as int + 1, whole.len() as int));
            }
            let ghost out_before = out@;
            let ghost suf2 = whole.subrange(i as int + 1, whole.len() as int);
            match self.0[i].boolean() {
                Ok(x) => {
                    out.push(x);
                    proof {
                        assert(out@ =~= out_before + seq![x]);
                        if seq_booleans(suf2) is Ok {
                            let rest = seq_booleans(suf2)->Ok_0;
                            assert(out_before + (seq![x] + rest) =~= out@ + rest);
                        }
                    }
                },
                Err(m) => {
                    return Err(m);
                },
            }
            i = i + 1;
        }
        proof {
            assert(whole.subrange(whole.len() as int, whole.len() as int)
                =~= Seq::<VarModel>::empty());
            if seq_booleans(whole) is Ok {
                assert(out@ + Seq::<bool>::empty() =~= out@);
            }
        }
        Ok(out)
    }
}

} // verus!
