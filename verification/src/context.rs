//! Lexical scopes: bindings from identifiers to values, chained by parent
//! indices into the evaluator's arena.

use vstd::prelude::*;
use crate::ast::{Raw, RawModel};
use crate::var::{Builtin, Var, VarModel};

verus! {

/// Mathematical model of one scope.
pub ghost struct CtxModel {
    pub map: Map<Seq<char>, VarModel>,
    pub parent: Option<int>,
}

/// The bindings of one scope.  Later insertions shadow earlier ones; the
/// model is the finished mapping, where each key holds its last value.
pub struct Bindings {
    entries: Vec<(String, Var)>,
}

/// The mapping an entry list denotes: inserted left to right, so the last
/// entry for a key wins.
pub open spec fn entries_map(s: Seq<(String, Var)>) -> Map<Seq<char>, VarModel>
    decreases s,
{
    if s.len() == 0 {
        Map::empty()
    } else {
        entries_map(s.drop_last()).insert(s.last().0@, s.last().1@)
    }
}

impl View for Bindings {
    type V = Map<Seq<char>, VarModel>;

    closed spec fn view(&self) -> Map<Seq<char>, VarModel> {
        entries_map(self.entries@)
    }
}

impl Bindings {
    /// No bindings at all.
    pub fn new() -> (r: Bindings)
        ensures
            r@ == Map::<Seq<char>, VarModel>::empty(),
    {
        let b = Bindings { entries: Vec::new() };
        proof {
            assert(b@ =~= Map::<Seq<char>, VarModel>::empty());
        }
        b
    }

    /// Binds `id` to `v`, shadowing any earlier binding of the same name.
    pub fn insert(&mut self, id: String, v: Var)
        ensures
            final(self)@ == old(self)@.insert(id@, v@),
    {
        let ghost before = self.entries@;
        let ghost idv = id@;
        let ghost vv = v@;
        self.entries.push((id, v));
        proof {
            assert(self.entries@.drop_last() =~= before);
            assert(self.entries@.last().0@ == idv);
            assert(self.entries@.last().1@ == vv);
        }
    }

    /// The value bound to `id`, if any.
    pub fn get(&self, id: &String) -> (r: Option<&Var>)
        ensures
            match r {
                Some(v) => self@.contains_key(id@) && v@ == self@[id@],
                None => !self@.contains_key(id@),
            },
    {
        let mut j = self.entries.len();
        proof {
            assert(self.entries@.subrange(0, self.entries@.len() as int) =~= self.entries@);
        }
        while j > 0
            invariant
                j <= self.entries@.len(),
                entries_map(self.entries@).contains_key(id@) == entries_map(
                    self.entries@.subrange(0, j as int),
                ).contains_key(id@),
                entries_map(self.entries@).contains_key(id@) ==> entries_map(
                    self.entries@,
                )[id@] == entries_map(self.entries@.subrange(0, j as int))[id@],
            decreases j,
        {
            proof {
                assert(self.entries@.subrange(0, j as int).drop_last()
                    =~= self.entries@.subrange(0, j as int - 1));
            }
            if self.entries[j - 1].0 == *id {
                return Some(&self.entries[j - 1].1);
            }
            j = j - 1;
        }
        proof {
            assert(self.entries@.subrange(0, 0) =~= Seq::<(String, Var)>::empty());
        }
        None
    }
}

/// One lexical scope: its bindings, and the index of its enclosing scope in
/// the evaluator's arena (`None` only for the root).
pub struct Context {
    pub map: Bindings,
    pub parent: Option<usize>,
}

impl View for Context {
    type V = CtxModel;

    open spec fn view(&self) -> CtxModel {
        CtxModel {
            map: self.map@,
            parent: match self.parent {
                Some(p) => Some(p as int),
                None => None,
            },
        }
    }
}

/// The bindings of the standard library: the boolean literals, every
/// operator, and the two host channels.
pub open spec fn std_bindings() -> Map<Seq<char>, VarModel> {
    Map::<Seq<char>, VarModel>::empty().insert("true"@, VarModel::Raw(RawModel::Bool(true))).insert(
        "false"@,
        VarModel::Raw(RawModel::Bool(false)),
    ).insert("="@, VarModel::Function(Builtin::Eq)).insert(
        "+"@,
        VarModel::Function(Builtin::Add),
    ).insert("-"@, VarModel::Function(Builtin::Sub)).insert(
        "/"@,
        VarModel::Function(Builtin::Div),
    ).insert("*"@, VarModel::Function(Builtin::Mul)).insert(
        "MOD"@,
        VarModel::Function(Builtin::Mod),
    ).insert(">"@, VarModel::Function(Builtin::Gt)).insert(
        "<"@,
        VarModel::Function(Builtin::Lt),
    ).insert("AND"@, VarModel::Function(Builtin::And)).insert(
        "OR"@,
        VarModel::Function(Builtin::Or),
    ).insert("DISPLAY"@, VarModel::Function(Builtin::Display)).insert(
        "INPUT"@,
        VarModel::Function(Builtin::Input),
    )
}

impl Context {
    /// The root scope holding the standard library: `true` and `false` as
    /// plain values, the operators, `DISPLAY` and `INPUT` as callables.
    pub fn standard() -> (r: Context)
        ensures
            r@.map == std_bindings(),
            r@.parent is None,
    {
        let mut map = Bindings::new();
        map.insert(String::from_str("true"), Var::Raw(Raw::Bool(true)));
        map.insert(String::from_str("false"), Var::Raw(Raw::Bool(false)));
        map.insert(String::from_str("="), Var::Function(Builtin::Eq));
        map.insert(String::from_str("+"), Var::Function(Builtin::Add));
        map.insert(String::from_str("-"), Var::Function(Builtin::Sub));
        map.insert(String::from_str("/"), Var::Function(Builtin::Div));
        map.insert(String::from_str("*"), Var::Function(Builtin::Mul));
        map.insert(String::from_str("MOD"), Var::Function(Builtin::Mod));
        map.insert(String::from_str(">"), Var::Function(Builtin::Gt));
        map.insert(String::from_str("<"), Var::Function(Builtin::Lt));
        map.insert(String::from_str("AND"), Var::Function(Builtin::And));
        map.insert(String::from_str("OR"), Var::Function(Builtin::Or));
        map.insert(String::from_str("DISPLAY"), Var::Function(Builtin::Display));
        map.insert(String::from_str("INPUT"), Var::Function(Builtin::Input));
        Context { map, parent: None }
    }

    /// The empty scope a new block starts with, enclosed by `parent`.
    pub fn empty_child(parent: usize) -> (r: Context)
        ensures
            r@.map == Map::<Seq<char>, VarModel>::empty(),
            r@.parent == Some(parent as int),
    {
        Context { map: Bindings::new(), parent: Some(parent) }
    }
}

} // verus!
