//! The data of the language: atoms, S-expressions, macros, types and the
//! compile-time and run-time contexts.
use vstd::prelude::*;
use crate::table::{NameTable, lemma_bindings_map_agree};

verus! {

/// A name (of a symbol, a macro, a function or a pattern variable).
pub type Name = String;

/// An atom of the language.
///
/// A float keeps the decimal literal it was written as.
#[derive(Debug)]
pub enum Atom {
    Nil,
    Bool(bool),
    Int(i64),
    Uint(u64),
    Float(String),
    Char(char),
    Str(String),
    Sym(Name),
}

/// An S-expression: an atom or a list of S-expressions.
#[derive(Debug)]
pub enum SExpr {
    Atom(Atom),
    List(Vec<SExpr>),
}

/// What an [`Atom`] stands for.
pub enum AtomModel {
    Nil,
    Bool(bool),
    Int(i64),
    Uint(u64),
    Float(Seq<char>),
    Char(char),
    Str(Seq<char>),
    Sym(Seq<char>),
}

/// What an [`SExpr`] stands for.
pub enum SExprModel {
    Atom(AtomModel),
    List(Seq<SExprModel>),
}

impl View for Atom {
    type V = AtomModel;

    open spec fn view(&self) -> AtomModel {
        match self {
            Atom::Nil => AtomModel::Nil,
            Atom::Bool(b) => AtomModel::Bool(*b),
            Atom::Int(i) => AtomModel::Int(*i),
            Atom::Uint(u) => AtomModel::Uint(*u),
            Atom::Float(f) => AtomModel::Float(f@),
            Atom::Char(c) => AtomModel::Char(*c),
            Atom::Str(s) => AtomModel::Str(s@),
            Atom::Sym(s) => AtomModel::Sym(s@),
        }
    }
}

impl View for SExpr {
    type V = SExprModel;

    open spec fn view(&self) -> SExprModel
        decreases self,
    {
        match self {
            SExpr::Atom(a) => SExprModel::Atom(a@),
            SExpr::List(v) => SExprModel::List(models(v@)),
        }
    }
}

/// The models of a sequence of expressions.
pub open spec fn models(s: Seq<SExpr>) -> Seq<SExprModel>
    decreases s,
{
    if s.len() == 0 {
        Seq::empty()
    } else {
        models(s.drop_last()).push(s.last().view())
    }
}

/// The model of each expression stands at its place.
pub proof fn lemma_models(s: Seq<SExpr>)
    ensures
        models(s).len() == s.len(),
        forall|i: int| 0 <= i < s.len() ==> #[trigger] models(s)[i] == s[i]@,
    decreases s.len(),
{
    if s.len() == 0 {
        assert(models(s).len() == 0);
    } else {
        lemma_models(s.drop_last());
        assert(models(s) == models(s.drop_last()).push(s.last().view()));
        assert forall|i: int| 0 <= i < s.len() implies #[trigger] models(s)[i] == s[i]@ by {
            if i < s.len() - 1 {
                assert(s.drop_last()[i] == s[i]);
            }
        }
    }
}

/// Two sequences of expressions have the same models when their items do.
pub proof fn lemma_models_ext(a: Seq<SExpr>, b: Seq<SExpr>)
    requires
        a.len() == b.len(),
        forall|i: int| 0 <= i < a.len() ==> #[trigger] a[i]@ == b[i]@,
    ensures
        models(a) == models(b),
{
    lemma_models(a);
    lemma_models(b);
    assert(models(a) =~= models(b));
}

/// The model of a list is the list of the models of its items.
pub proof fn lemma_list_view(v: Vec<SExpr>)
    ensures
        SExpr::List(v)@ == SExprModel::List(models(v@)),
        models(v@).len() == v@.len(),
        forall|i: int| 0 <= i < v@.len() ==> #[trigger] models(v@)[i] == v@[i]@,
{
    lemma_models(v@);
}

/// The model of an expression, by its shape.
pub proof fn lemma_view_shape(e: SExpr)
    ensures
        e matches SExpr::Atom(a) ==> e@ == SExprModel::Atom(a@),
        e matches SExpr::List(v) ==> e@ == SExprModel::List(models(v@)),
{
}

/// The model of an atom expression is the model of the atom.
pub proof fn lemma_atom_view(a: Atom)
    ensures
        SExpr::Atom(a)@ == SExprModel::Atom(a@),
{
}

/// The symbol model named by `n`.
pub open spec fn sym_model(n: Seq<char>) -> SExprModel {
    SExprModel::Atom(AtomModel::Sym(n))
}

/// The error of a failed compilation step.
#[derive(Debug)]
pub struct CompileError();

/// The result of a compilation step that yields an expression.
pub type CResult = Result<SExpr, CompileError>;

impl Atom {
    /// A copy of this atom.
    pub fn copy(&self) -> (r: Atom)
        ensures
            r@ == self@,
    {
        match self {
            Atom::Nil => Atom::Nil,
            Atom::Bool(b) => Atom::Bool(*b),
            Atom::Int(i) => Atom::Int(*i),
            Atom::Uint(u) => Atom::Uint(*u),
            Atom::Float(f) => Atom::Float(f.clone()),
            Atom::Char(c) => Atom::Char(*c),
            Atom::Str(s) => Atom::Str(s.clone()),
            Atom::Sym(s) => Atom::Sym(s.clone()),
        }
    }

    /// Whether two atoms are the same.
    pub fn equal(&self, other: &Atom) -> (r: bool)
        ensures
            r == (self@ == other@),
    {
        match (self, other) {
            (Atom::Nil, Atom::Nil) => true,
            (Atom::Bool(a), Atom::Bool(b)) => *a == *b,
            (Atom::Int(a), Atom::Int(b)) => *a == *b,
            (Atom::Uint(a), Atom::Uint(b)) => *a == *b,
            (Atom::Float(a), Atom::Float(b)) => crate::text::str_equal(a.as_str(), b.as_str()),
            (Atom::Char(a), Atom::Char(b)) => *a == *b,
            (Atom::Str(a), Atom::Str(b)) => crate::text::str_equal(a.as_str(), b.as_str()),
            (Atom::Sym(a), Atom::Sym(b)) => crate::text::str_equal(a.as_str(), b.as_str()),
            _ => false,
        }
    }
}

/// Copies of the expressions of `v`.
pub fn copy_exprs(v: &Vec<SExpr>) -> (r: Vec<SExpr>)
    ensures
        models(r@) == models(v@),
    decreases v, 0nat,
{
    let mut r: Vec<SExpr> = Vec::new();
    let mut i: usize = 0;
    while i < v.len()
        invariant
            i <= v@.len(),
            r@.len() == i,
            forall|j: int| 0 <= j < i ==> #[trigger] r@[j]@ == v@[j]@,
        decreases v@.len() - i,
    {
        assert(decreases_to!(v => v@[i as int]));
        r.push(v[i].copy());
        i = i + 1;
    }
    proof {
        lemma_models_ext(r@, v@);
    }
    r
}

/// Copies of `v[..n]`.
pub fn copy_exprs_take(v: &Vec<SExpr>, n: usize) -> (r: Vec<SExpr>)
    requires
        n <= v@.len(),
    ensures
        models(r@) == models(v@.take(n as int)),
{
    let mut r: Vec<SExpr> = Vec::new();
    let mut i: usize = 0;
    while i < n
        invariant
            n <= v@.len(),
            i <= n,
            r@.len() == i,
            forall|j: int| 0 <= j < i ==> #[trigger] r@[j]@ == v@[j]@,
        decreases n - i,
    {
        r.push(v[i].copy());
        i = i + 1;
    }
    proof {
        lemma_models_ext(r@, v@.take(n as int));
    }
    r
}

/// Copies of `v[from..]`.
pub fn copy_exprs_from(v: &Vec<SExpr>, from: usize) -> (r: Vec<SExpr>)
    requires
        from <= v@.len(),
    ensures
        models(r@) == models(v@.subrange(from as int, v@.len() as int)),
{
    let mut r: Vec<SExpr> = Vec::new();
    let mut i: usize = from;
    while i < v.len()
        invariant
            from <= i <= v@.len(),
            r@.len() == i - from,
            forall|j: int| 0 <= j < i - from ==> #[trigger] r@[j]@ == v@[j + from]@,
        decreases v@.len() - i,
    {
        r.push(v[i].copy());
        i = i + 1;
    }
    proof {
        lemma_models_ext(r@, v@.subrange(from as int, v@.len() as int));
    }
    r
}

impl SExpr {
    /// A copy of this expression.
    pub fn copy(&self) -> (r: SExpr)
        ensures
            r@ == self@,
        decreases self, 1nat,
    {
        match self {
            SExpr::Atom(a) => SExpr::Atom(a.copy()),
            SExpr::List(v) => {
                let r = copy_exprs(v);
                proof {
                    lemma_list_view(*v);
                    lemma_list_view(r);
                }
                SExpr::List(r)
            },
        }
    }

    /// Whether two expressions are the same.
    pub fn equal(&self, other: &SExpr) -> (r: bool)
        ensures
            r == (self@ == other@),
        decreases self,
    {
        match self {
            SExpr::Atom(a) => match other {
                SExpr::Atom(b) => a.equal(b),
                SExpr::List(_) => false,
            },
            SExpr::List(a) => match other {
                SExpr::Atom(_) => false,
                SExpr::List(b) => {
                    proof {
                        lemma_list_view(*a);
                        lemma_list_view(*b);
                    }
                    if a.len() != b.len() {
                        assert(models(a@).len() != models(b@).len());
                        return false;
                    }
                    let mut i: usize = 0;
                    while i < a.len()
                        invariant
                            *self == SExpr::List(*a),
                            self@ == SExprModel::List(models(a@)),
                            other@ == SExprModel::List(models(b@)),
                            a@.len() == b@.len(),
                            i <= a@.len(),
                            forall|j: int| 0 <= j < i ==> a@[j]@ == b@[j]@,
                        decreases a@.len() - i,
                    {
                        assert(decreases_to!(self => a@[i as int]));
                        if !a[i].equal(&b[i]) {
                            proof {
                                lemma_list_view(*a);
                                lemma_list_view(*b);
                                assert(models(a@)[i as int] != models(b@)[i as int]);
                            }
                            return false;
                        }
                        i = i + 1;
                    }
                    proof {
                        lemma_models_ext(a@, b@);
                    }
                    true
                },
            },
        }
    }

    /// Whether this expression is a symbol.
    pub fn is_sym(&self) -> (r: bool)
        ensures
            r == (self@ is Atom && self@->Atom_0 is Sym),
    {
        if let SExpr::Atom(Atom::Sym(_)) = self {
            true
        } else {
            false
        }
    }

    /// The items of this list expression.
    pub fn get_list(&self) -> (r: Vec<SExpr>)
        requires
            self@ is List,
        ensures
            SExprModel::List(models(r@)) == self@,
    {
        match self {
            SExpr::List(v) => {
                proof {
                    lemma_list_view(*v);
                }
                copy_exprs(v)
            },
            SExpr::Atom(_) => {
                proof {
                    assert(false);
                }
                Vec::new()
            },
        }
    }

    /// The name of this symbol expression.
    pub fn get_sym(&self) -> (r: Name)
        requires
            self@ is Atom && self@->Atom_0 is Sym,
        ensures
            sym_model(r@) == self@,
    {
        match self {
            SExpr::Atom(Atom::Sym(n)) => n.clone(),
            _ => {
                proof {
                    assert(false);
                }
                String::new()
            },
        }
    }
}

impl Clone for SExpr {
    fn clone(&self) -> (r: SExpr)
        ensures
            r@ == self@,
    {
        self.copy()
    }
}

impl Clone for Atom {
    fn clone(&self) -> (r: Atom)
        ensures
            r@ == self@,
    {
        self.copy()
    }
}

/// The `nil` atom as an expression.
pub fn nil() -> (r: SExpr)
    ensures
        r@ == SExprModel::Atom(AtomModel::Nil),
{
    SExpr::Atom(Atom::Nil)
}

/// The symbol named `i` as an expression.
pub fn sym(i: &str) -> (r: SExpr)
    ensures
        r@ == sym_model(i@),
{
    SExpr::Atom(Atom::Sym(i.to_owned()))
}

/// The process macros that the library implements natively.
#[derive(Debug, Clone, Copy, PartialEq, Eq, Structural)]
pub enum MacroFun {
    /// `macro`: defines a syntax-rule macro from a name and its rules.
    MacroDefineWrapper,
}

/// A natively implemented process macro: its name, the pattern that
/// describes its arguments, and its implementation.
#[derive(Debug)]
pub struct PMNI(pub Name, pub SExpr, pub MacroFun);

/// A syntax-rule macro: its name and its (pattern, template) rules, tried in order.
#[derive(Debug)]
pub struct SyntaxRuleDefine(pub Name, pub Vec<(SExpr, SExpr)>);

/// A macro definition.
#[derive(Debug)]
pub enum MacroDefine {
    ProcessMacro(PMNI),
    SyntaxRule(SyntaxRuleDefine),
}

/// What a [`MacroDefine`] stands for.
pub enum MacroModel {
    Process(Seq<char>, SExprModel, MacroFun),
    Rules(Seq<char>, Seq<(SExprModel, SExprModel)>),
}

/// The models of a sequence of rules.
pub open spec fn rule_models(rules: Seq<(SExpr, SExpr)>) -> Seq<(SExprModel, SExprModel)> {
    rules.map_values(|r: (SExpr, SExpr)| (r.0@, r.1@))
}

impl View for MacroDefine {
    type V = MacroModel;

    open spec fn view(&self) -> MacroModel {
        match self {
            MacroDefine::ProcessMacro(PMNI(n, d, f)) => MacroModel::Process(n@, d@, *f),
            MacroDefine::SyntaxRule(SyntaxRuleDefine(n, rules)) => MacroModel::Rules(
                n@,
                rule_models(rules@),
            ),
        }
    }
}

impl MacroDefine {
    /// A copy of this definition.
    pub fn copy(&self) -> (r: MacroDefine)
        ensures
            r@ == self@,
    {
        match self {
            MacroDefine::ProcessMacro(PMNI(n, d, f)) => MacroDefine::ProcessMacro(
                PMNI(n.clone(), d.copy(), *f),
            ),
            MacroDefine::SyntaxRule(SyntaxRuleDefine(n, rules)) => {
                let mut out: Vec<(SExpr, SExpr)> = Vec::new();
                let mut i: usize = 0;
                while i < rules.len()
                    invariant
                        i <= rules@.len(),
                        out@.len() == i,
                        forall|j: int|
                            0 <= j < i ==> #[trigger] out@[j].0@ == rules@[j].0@ && out@[j].1@
                                == rules@[j].1@,
                    decreases rules@.len() - i,
                {
                    let p = rules[i].0.copy();
                    let t = rules[i].1.copy();
                    out.push((p, t));
                    i = i + 1;
                }
                assert(rule_models(out@) =~= rule_models(rules@));
                MacroDefine::SyntaxRule(SyntaxRuleDefine(n.clone(), out))
            },
        }
    }
}

/// The built-in types.
#[derive(Debug, Copy, Clone, Eq, PartialEq, Structural)]
pub enum BuiltinType {
    Top,
    Bot,
    Unit,
    Bool,
    Char,
    U8,
    U32,
    U64,
    I32,
    I64,
    F32,
    F64,
    Str,
    Arr,
}

/// Whether a value of type `a` may stand where `b` is expected: `Top` and
/// `Bot` stand anywhere, and every other type but `Str` and `Arr` stands for
/// itself.
pub open spec fn builtin_accepts(a: BuiltinType, b: BuiltinType) -> bool {
    ||| a == BuiltinType::Top
    ||| a == BuiltinType::Bot
    ||| (a == b && a != BuiltinType::Str && a != BuiltinType::Arr)
}

impl BuiltinType {
    /// Checks that `self` may stand where `other` is expected, and gives back `self`.
    pub fn assert_type(&self, other: &Self) -> (r: Result<Self, CompileError>)
        ensures
            r is Ok <==> builtin_accepts(*self, *other),
            r matches Ok(t) ==> t == *self,
    {
        match (self, other) {
            (BuiltinType::Top, _)
            | (BuiltinType::Bot, _)
            | (BuiltinType::Unit, BuiltinType::Unit)
            | (BuiltinType::Bool, BuiltinType::Bool)
            | (BuiltinType::Char, BuiltinType::Char)
            | (BuiltinType::U8, BuiltinType::U8)
            | (BuiltinType::U32, BuiltinType::U32)
            | (BuiltinType::U64, BuiltinType::U64)
            | (BuiltinType::I32, BuiltinType::I32)
            | (BuiltinType::I64, BuiltinType::I64)
            | (BuiltinType::F32, BuiltinType::F32)
            | (BuiltinType::F64, BuiltinType::F64) => Ok(*self),
            _ => Err(CompileError()),
        }
    }
}

/// A type expression.
#[derive(Debug)]
pub enum TypeExpr {
    Built(BuiltinType),
    Tuple(Vec<TypeExpr>),
    Union(Vec<TypeExpr>),
    Arrow(Vec<TypeExpr>),
    Aplay(Name, Vec<TypeExpr>),
}

impl TypeExpr {
    /// Checks that `self` may stand where `other` is expected; only built-in
    /// types are compared.
    pub fn assert_type(&self, other: &Self) -> (r: Result<Self, CompileError>)
        requires
            *self is Built,
            *other is Built,
        ensures
            r is Ok <==> builtin_accepts(self->Built_0, other->Built_0),
            r matches Ok(t) ==> t == *self,
    {
        match (self, other) {
            (TypeExpr::Built(t1), TypeExpr::Built(t2)) => match t1.assert_type(t2) {
                Ok(e) => Ok(TypeExpr::Built(e)),
                Err(e) => Err(e),
            },
            _ => {
                proof {
                    assert(false);
                }
                Err(CompileError())
            },
        }
    }
}

/// A function definition.
#[derive(Debug)]
pub struct FunctionDefine {
    pub name: Name,
    pub pure_flag: Option<bool>,
    pub typeinfo: Option<TypeExpr>,
    pub args: Vec<Name>,
    pub code_block: Vec<SExpr>,
}

/// What a [`FunctionDefine`] stands for.
pub struct FunctionModel {
    pub name: Seq<char>,
    pub pure_flag: Option<bool>,
    pub typeinfo: Option<TypeModel>,
    pub args: Seq<Seq<char>>,
    pub code: Seq<SExprModel>,
}

/// The names of a sequence of strings.
pub open spec fn names_of(v: Seq<String>) -> Seq<Seq<char>> {
    v.map_values(|n: String| n@)
}

impl View for FunctionDefine {
    type V = FunctionModel;

    open spec fn view(&self) -> FunctionModel {
        FunctionModel {
            name: self.name@,
            pure_flag: self.pure_flag,
            typeinfo: match self.typeinfo {
                Some(t) => Some(t@),
                None => None,
            },
            args: names_of(self.args@),
            code: models(self.code_block@),
        }
    }
}

/// A type definition: named type expressions.
#[derive(Debug)]
pub struct TypeDefine {
    pub record: NameTable<TypeExpr>,
}

/// What a [`TypeExpr`] stands for.
pub enum TypeModel {
    Built(BuiltinType),
    Tuple(Seq<TypeModel>),
    Union(Seq<TypeModel>),
    Arrow(Seq<TypeModel>),
    Aplay(Seq<char>, Seq<TypeModel>),
}

impl View for TypeExpr {
    type V = TypeModel;

    open spec fn view(&self) -> TypeModel
        decreases self,
    {
        match self {
            TypeExpr::Built(b) => TypeModel::Built(*b),
            TypeExpr::Tuple(v) => TypeModel::Tuple(type_models(v@)),
            TypeExpr::Union(v) => TypeModel::Union(type_models(v@)),
            TypeExpr::Arrow(v) => TypeModel::Arrow(type_models(v@)),
            TypeExpr::Aplay(n, v) => TypeModel::Aplay(n@, type_models(v@)),
        }
    }
}

/// The models of a sequence of type expressions.
pub open spec fn type_models(s: Seq<TypeExpr>) -> Seq<TypeModel>
    decreases s,
{
    if s.len() == 0 {
        Seq::empty()
    } else {
        type_models(s.drop_last()).push(s.last().view())
    }
}

/// The model of each type expression stands at its place.
pub proof fn lemma_type_models(s: Seq<TypeExpr>)
    ensures
        type_models(s).len() == s.len(),
        forall|i: int| 0 <= i < s.len() ==> #[trigger] type_models(s)[i] == s[i]@,
    decreases s.len(),
{
    if s.len() == 0 {
        assert(type_models(s).len() == 0);
    } else {
        lemma_type_models(s.drop_last());
        assert(type_models(s) == type_models(s.drop_last()).push(s.last().view()));
        assert forall|i: int| 0 <= i < s.len() implies #[trigger] type_models(s)[i] == s[i]@ by {
            if i < s.len() - 1 {
                assert(s.drop_last()[i] == s[i]);
            }
        }
    }
}

/// Copies of the type expressions of `v`.
pub fn copy_types(v: &Vec<TypeExpr>) -> (r: Vec<TypeExpr>)
    ensures
        type_models(r@) == type_models(v@),
    decreases v, 0nat,
{
    let mut r: Vec<TypeExpr> = Vec::new();
    let mut i: usize = 0;
    while i < v.len()
        invariant
            i <= v@.len(),
            r@.len() == i,
            forall|j: int| 0 <= j < i ==> #[trigger] r@[j]@ == v@[j]@,
        decreases v@.len() - i,
    {
        assert(decreases_to!(v => v@[i as int]));
        r.push(v[i].copy());
        i = i + 1;
    }
    proof {
        lemma_type_models(r@);
        lemma_type_models(v@);
        assert(type_models(r@) =~= type_models(v@));
    }
    r
}

impl TypeExpr {
    /// A copy of this type expression.
    pub fn copy(&self) -> (r: TypeExpr)
        ensures
            r@ == self@,
        decreases self, 1nat,
    {
        match self {
            TypeExpr::Built(b) => TypeExpr::Built(*b),
            TypeExpr::Tuple(v) => TypeExpr::Tuple(copy_types(v)),
            TypeExpr::Union(v) => TypeExpr::Union(copy_types(v)),
            TypeExpr::Arrow(v) => TypeExpr::Arrow(copy_types(v)),
            TypeExpr::Aplay(n, v) => TypeExpr::Aplay(n.clone(), copy_types(v)),
        }
    }
}

impl FunctionDefine {
    /// A copy of this definition.
    pub fn copy(&self) -> (r: FunctionDefine)
        ensures
            r@ == self@,
    {
        let typeinfo = match &self.typeinfo {
            Some(t) => Some(t.copy()),
            None => None,
        };
        let mut args: Vec<Name> = Vec::new();
        let mut i: usize = 0;
        while i < self.args.len()
            invariant
                i <= self.args@.len(),
                args@.len() == i,
                forall|j: int| 0 <= j < i ==> #[trigger] args@[j]@ == self.args@[j]@,
            decreases self.args@.len() - i,
        {
            args.push(self.args[i].clone());
            i = i + 1;
        }
        assert(names_of(args@) =~= names_of(self.args@));
        FunctionDefine {
            name: self.name.clone(),
            pure_flag: self.pure_flag,
            typeinfo,
            args,
            code_block: copy_exprs(&self.code_block),
        }
    }
}

/// The models of a table of type expressions.
pub open spec fn type_table_model(t: NameTable<TypeExpr>) -> Map<Seq<char>, TypeModel> {
    t.map().map_values(|x: TypeExpr| x@)
}

/// The models of a table of type definitions.
pub open spec fn typedef_table_model(t: NameTable<TypeDefine>) -> Map<
    Seq<char>,
    Map<Seq<char>, TypeModel>,
> {
    t.map().map_values(|x: TypeDefine| x@)
}

/// The models of a table of function definitions.
pub open spec fn function_table_model(t: NameTable<FunctionDefine>) -> Map<Seq<char>, FunctionModel> {
    t.map().map_values(|x: FunctionDefine| x@)
}

impl View for TypeDefine {
    type V = Map<Seq<char>, TypeModel>;

    open spec fn view(&self) -> Map<Seq<char>, TypeModel> {
        type_table_model(self.record)
    }
}

/// A copy of a table of type expressions.
pub fn copy_type_table(t: &NameTable<TypeExpr>) -> (r: NameTable<TypeExpr>)
    ensures
        t.wf() ==> r.wf(),
        type_table_model(r) == type_table_model(*t),
{
    let mut entries: Vec<(String, TypeExpr)> = Vec::new();
    let mut i: usize = 0;
    while i < t.entries.len()
        invariant
            i <= t.entries@.len(),
            entries@.len() == i,
            forall|j: int|
                #![trigger entries@[j]]
                0 <= j < i ==> entries@[j].0@ == t.entries@[j].0@ && entries@[j].1@ == t.entries@[j].1@,
        decreases t.entries@.len() - i,
    {
        entries.push((t.entries[i].0.clone(), t.entries[i].1.copy()));
        i = i + 1;
    }
    let r = NameTable { entries };
    proof {
        lemma_bindings_map_agree(t.entries@, r.entries@, |x: TypeExpr| x@, |x: TypeExpr| x@);
        assert(type_table_model(r) =~= type_table_model(*t));
    }
    r
}

impl TypeDefine {
    /// A copy of this definition.
    pub fn copy(&self) -> (r: TypeDefine)
        ensures
            r@ == self@,
            self.record.wf() ==> r.record.wf(),
    {
        TypeDefine { record: copy_type_table(&self.record) }
    }
}

/// A copy of a table of type definitions.
pub fn copy_typedef_table(t: &NameTable<TypeDefine>) -> (r: NameTable<TypeDefine>)
    ensures
        t.wf() ==> r.wf(),
        typedef_table_model(r) == typedef_table_model(*t),
{
    let mut entries: Vec<(String, TypeDefine)> = Vec::new();
    let mut i: usize = 0;
    while i < t.entries.len()
        invariant
            i <= t.entries@.len(),
            entries@.len() == i,
            forall|j: int|
                #![trigger entries@[j]]
                0 <= j < i ==> entries@[j].0@ == t.entries@[j].0@ && entries@[j].1@ == t.entries@[j].1@,
        decreases t.entries@.len() - i,
    {
        entries.push((t.entries[i].0.clone(), t.entries[i].1.copy()));
        i = i + 1;
    }
    let r = NameTable { entries };
    proof {
        lemma_bindings_map_agree(t.entries@, r.entries@, |x: TypeDefine| x@, |x: TypeDefine| x@);
        assert(typedef_table_model(r) =~= typedef_table_model(*t));
    }
    r
}

/// A copy of a table of function definitions.
pub fn copy_function_table(t: &NameTable<FunctionDefine>) -> (r: NameTable<FunctionDefine>)
    ensures
        t.wf() ==> r.wf(),
        function_table_model(r) == function_table_model(*t),
{
    let mut entries: Vec<(String, FunctionDefine)> = Vec::new();
    let mut i: usize = 0;
    while i < t.entries.len()
        invariant
            i <= t.entries@.len(),
            entries@.len() == i,
            forall|j: int|
                #![trigger entries@[j]]
                0 <= j < i ==> entries@[j].0@ == t.entries@[j].0@ && entries@[j].1@ == t.entries@[j].1@,
        decreases t.entries@.len() - i,
    {
        entries.push((t.entries[i].0.clone(), t.entries[i].1.copy()));
        i = i + 1;
    }
    let r = NameTable { entries };
    proof {
        lemma_bindings_map_agree(
            t.entries@,
            r.entries@,
            |x: FunctionDefine| x@,
            |x: FunctionDefine| x@,
        );
        assert(function_table_model(r) =~= function_table_model(*t));
    }
    r
}

/// What the compiler knows while it expands macros: the defined macros and types.
#[derive(Debug)]
pub struct CompileContext {
    pub macro_defines: NameTable<MacroDefine>,
    pub type_defines: NameTable<TypeDefine>,
}

/// The models of a table of macros.
pub open spec fn macro_models(t: NameTable<MacroDefine>) -> Map<Seq<char>, MacroModel> {
    t.map().map_values(|m: MacroDefine| m@)
}

impl CompileContext {
    /// Both tables are well formed.
    pub open spec fn wf(&self) -> bool {
        self.macro_defines.wf() && self.type_defines.wf()
    }

    /// The macros defined, by name.
    pub open spec fn macros(&self) -> Map<Seq<char>, MacroModel> {
        macro_models(self.macro_defines)
    }

    /// A context with no macros and no types.
    pub fn new() -> (c: Self)
        ensures
            c.wf(),
            c.macros() == Map::<Seq<char>, MacroModel>::empty(),
            c.type_defines.map() == Map::<Seq<char>, TypeDefine>::empty(),
    {
        let c = CompileContext { macro_defines: NameTable::new(), type_defines: NameTable::new() };
        assert(c.macros() =~= Map::empty());
        c
    }

    /// Defines (or redefines) the macro `k`.
    pub fn register_macro(&mut self, k: &Name, v: MacroDefine)
        requires
            old(self).wf(),
        ensures
            final(self).wf(),
            final(self).macros() == old(self).macros().insert(k@, v@),
            final(self).type_defines == old(self).type_defines,
    {
        let ghost before = self.macro_defines.map();
        let ghost vm = v@;
        self.macro_defines.insert(k.clone(), v);
        assert(self.macros() =~= before.map_values(|m: MacroDefine| m@).insert(k@, vm));
    }

    /// Defines (or redefines) the process macro `k`, described by the
    /// pattern `description` and implemented by `v`.
    pub fn register_native_macro(&mut self, k: &Name, description: SExpr, v: MacroFun)
        requires
            old(self).wf(),
        ensures
            final(self).wf(),
            final(self).macros() == old(self).macros().insert(
                k@,
                MacroModel::Process(k@, description@, v),
            ),
            final(self).type_defines == old(self).type_defines,
    {
        self.register_macro(k, MacroDefine::ProcessMacro(PMNI(k.clone(), description, v)));
    }

    /// A copy of the definition of the macro `k`, if there is one.
    pub fn find_macro(&self, k: &str) -> (r: Option<MacroDefine>)
        requires
            self.wf(),
        ensures
            r is Some <==> self.macros().contains_key(k@),
            r matches Some(m) ==> m@ == self.macros()[k@],
    {
        match self.macro_defines.get(k) {
            Some(m) => Some(m.copy()),
            None => None,
        }
    }
}

impl Default for CompileContext {
    fn default() -> (c: Self)
        ensures
            c.wf(),
            c.macros() == Map::<Seq<char>, MacroModel>::empty(),
            c.type_defines.map() == Map::<Seq<char>, TypeDefine>::empty(),
    {
        CompileContext::new()
    }
}

/// A block of code with what is known of it.
#[derive(Debug)]
pub struct CodeBlock {
    pub pure_flag: bool,
    pub typeinfo: Vec<TypeExpr>,
    pub code: Vec<SExpr>,
}

impl Default for CodeBlock {
    fn default() -> (b: Self)
        ensures
            !b.pure_flag,
            b.typeinfo@.len() == 0,
            b.code@.len() == 0,
    {
        CodeBlock { pure_flag: false, typeinfo: Vec::new(), code: Vec::new() }
    }
}

/// What the code generator knows: the defined types and functions.
#[derive(Debug)]
pub struct RuntimeContext {
    pub type_defines: NameTable<TypeDefine>,
    pub function_defines: NameTable<FunctionDefine>,
}

impl Default for RuntimeContext {
    fn default() -> (c: Self)
        ensures
            c.wf(),
            c.functions() == Map::<Seq<char>, FunctionModel>::empty(),
            c.function_defines.map() == Map::<Seq<char>, FunctionDefine>::empty(),
            c.types() == Map::<Seq<char>, Map<Seq<char>, TypeModel>>::empty(),
            c.type_defines.map() == Map::<Seq<char>, TypeDefine>::empty(),
    {
        RuntimeContext::new()
    }
}

impl RuntimeContext {
    /// Both tables are well formed.
    pub open spec fn wf(&self) -> bool {
        self.type_defines.wf() && self.function_defines.wf()
    }

    /// The functions defined, by name.
    pub open spec fn functions(&self) -> Map<Seq<char>, FunctionModel> {
        function_table_model(self.function_defines)
    }

    /// The types defined, by name.
    pub open spec fn types(&self) -> Map<Seq<char>, Map<Seq<char>, TypeModel>> {
        typedef_table_model(self.type_defines)
    }

    /// A copy of this context: the same functions and the same types.
    pub fn copy(&self) -> (r: RuntimeContext)
        requires
            self.wf(),
        ensures
            r.wf(),
            r.functions() == self.functions(),
            r.types() == self.types(),
    {
        RuntimeContext {
            type_defines: copy_typedef_table(&self.type_defines),
            function_defines: copy_function_table(&self.function_defines),
        }
    }

    /// A context with no types and no functions.
    pub fn new() -> (c: Self)
        ensures
            c.wf(),
            c.functions() == Map::<Seq<char>, FunctionModel>::empty(),
            c.function_defines.map() == Map::<Seq<char>, FunctionDefine>::empty(),
            c.types() == Map::<Seq<char>, Map<Seq<char>, TypeModel>>::empty(),
            c.type_defines.map() == Map::<Seq<char>, TypeDefine>::empty(),
    {
        let c = RuntimeContext { type_defines: NameTable::new(), function_defines: NameTable::new() };
        assert(c.functions() =~= Map::empty());
        assert(c.types() =~= Map::empty());
        c
    }

    /// Defines (or redefines) the function `k`.
    pub fn register_function(&mut self, k: &Name, v: FunctionDefine)
        requires
            old(self).wf(),
        ensures
            final(self).wf(),
            final(self).function_defines.map() == old(self).function_defines.map().insert(k@, v),
            final(self).functions() == old(self).functions().insert(k@, v@),
            final(self).type_defines == old(self).type_defines,
    {
        let ghost before = self.function_defines.map();
        let ghost vm = v@;
        self.function_defines.insert(k.clone(), v);
        assert(self.functions() =~= before.map_values(|f: FunctionDefine| f@).insert(k@, vm));
    }

    /// The definition of the function `sym`, if there is one.
    pub fn find_function(&self, sym: &str) -> (r: Option<&FunctionDefine>)
        requires
            self.wf(),
        ensures
            r is Some <==> self.function_defines.map().contains_key(sym@),
            r matches Some(f) ==> *f == self.function_defines.map()[sym@],
    {
        self.function_defines.get(sym)
    }
}

} // verus!
