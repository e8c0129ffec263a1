use vstd::prelude::*;
use crate::text::push_text;

verus! {

/// The built-in operations that the evaluator can invoke by reference.
#[derive(Clone, Copy, Debug, PartialEq, Eq, Structural)]
pub enum Builtin {
    Add,
    Sub,
    Mul,
    Div,
    Prn,
    List,
    IsList,
    IsEmpty,
    Count,
    Equal,
    Gt,
    Gte,
    Lt,
    Lte,
}

/// A runtime value of the language.
///
/// Each dictionary is held as two association lists, one for string keys and one
/// for keyword keys; within each list the keys are unique (`env::dict_keys_unique`), which
/// the reader and the evaluator keep.
#[derive(Debug)]
pub enum MalType {
    Boolean(bool),
    Dictionary(Vec<(String, MalType)>, Vec<(String, MalType)>),
    Function(Vec<MalType>, Box<MalType>),
    Intrinsic(Builtin),
    Keyword(String),
    List(Vec<MalType>),
    NoValue,
    Number(i64),
    Str(String),
    Symbol(String),
    Vector(Vec<MalType>),
}

/// The mathematical model of a value.
pub enum Val {
    Boolean(bool),
    Dictionary(Seq<(Seq<char>, Val)>, Seq<(Seq<char>, Val)>),
    Function(Seq<Val>, Box<Val>),
    Intrinsic(Builtin),
    Keyword(Seq<char>),
    List(Seq<Val>),
    NoValue,
    Number(i64),
    Str(Seq<char>),
    Symbol(Seq<char>),
    Vector(Seq<Val>),
}

pub open spec fn view_seq(s: Seq<MalType>) -> Seq<Val>
    decreases s,
{
    if s.len() == 0 {
        Seq::empty()
    } else {
        view_seq(s.drop_last()).push(s.last().view_val())
    }
}

pub open spec fn view_entries(s: Seq<(String, MalType)>) -> Seq<(Seq<char>, Val)>
    decreases s,
{
    if s.len() == 0 {
        Seq::empty()
    } else {
        view_entries(s.drop_last()).push((s.last().0@, s.last().1.view_val()))
    }
}

impl MalType {
    pub open spec fn view_val(self) -> Val
        decreases self,
    {
        match self {
            MalType::Boolean(b) => Val::Boolean(b),
            MalType::Dictionary(s, k) => Val::Dictionary(view_entries(s@), view_entries(k@)),
            MalType::Function(p, b) => Val::Function(view_seq(p@), Box::new((*b).view_val())),
            MalType::Intrinsic(f) => Val::Intrinsic(f),
            MalType::Keyword(k) => Val::Keyword(k@),
            MalType::List(l) => Val::List(view_seq(l@)),
            MalType::NoValue => Val::NoValue,
            MalType::Number(n) => Val::Number(n),
            MalType::Str(s) => Val::Str(s@),
            MalType::Symbol(s) => Val::Symbol(s@),
            MalType::Vector(l) => Val::Vector(view_seq(l@)),
        }
    }
}

impl View for MalType {
    type V = Val;

    open spec fn view(&self) -> Val {
        self.view_val()
    }
}


pub proof fn lemma_view_seq(s: Seq<MalType>)
    ensures
        view_seq(s).len() == s.len(),
        forall|i: int| 0 <= i < s.len() ==> #[trigger] view_seq(s)[i] == s[i]@,
    decreases s.len(),
{
    if s.len() > 0 {
        lemma_view_seq(s.drop_last());
    }
}

pub proof fn lemma_view_entries(s: Seq<(String, MalType)>)
    ensures
        view_entries(s).len() == s.len(),
        forall|i: int|
            0 <= i < s.len() ==> #[trigger] view_entries(s)[i] == (s[i].0@, s[i].1@),
    decreases s.len(),
{
    if s.len() > 0 {
        lemma_view_entries(s.drop_last());
    }
}

pub proof fn lemma_view_seq_push(s: Seq<MalType>, x: MalType)
    ensures
        view_seq(s.push(x)) == view_seq(s).push(x@),
{
    assert(s.push(x).drop_last() == s);
}

pub proof fn lemma_view_entries_push(s: Seq<(String, MalType)>, x: (String, MalType))
    ensures
        view_entries(s.push(x)) == view_entries(s).push((x.0@, x.1@)),
{
    assert(s.push(x).drop_last() == s);
}

pub fn copy_vec(v: &Vec<MalType>) -> (r: Vec<MalType>)
    ensures
        view_seq(r@) == view_seq(v@),
    decreases v,
{
    let mut r: Vec<MalType> = Vec::new();
    let mut i: usize = 0;
    while i < v.len()
        invariant
            i <= v.len(),
            view_seq(r@) == view_seq(v@.take(i as int)),
        decreases v.len() - i,
    {
        proof {
            assert(decreases_to!(v => v[i as int]));
        }
        let x = v[i].deep_copy();
        proof {
            lemma_view_seq_push(r@, x);
            lemma_view_seq_push(v@.take(i as int), v@[i as int]);
            assert(v@.take(i + 1) =~= v@.take(i as int).push(v@[i as int]));
        }
        r.push(x);
        i += 1;
    }
    proof {
        assert(v@.take(v.len() as int) =~= v@);
    }
    r
}

pub fn copy_entries(v: &Vec<(String, MalType)>) -> (r: Vec<(String, MalType)>)
    ensures
        view_entries(r@) == view_entries(v@),
    decreases v,
{
    let mut r: Vec<(String, MalType)> = Vec::new();
    let mut i: usize = 0;
    while i < v.len()
        invariant
            i <= v.len(),
            view_entries(r@) == view_entries(v@.take(i as int)),
        decreases v.len() - i,
    {
        proof {
            assert(decreases_to!(v => v[i as int]));
        }
        let x = (v[i].0.clone(), v[i].1.deep_copy());
        proof {
            lemma_view_entries_push(r@, x);
            lemma_view_entries_push(v@.take(i as int), v@[i as int]);
            assert(v@.take(i + 1) =~= v@.take(i as int).push(v@[i as int]));
        }
        r.push(x);
        i += 1;
    }
    proof {
        assert(v@.take(v.len() as int) =~= v@);
    }
    r
}

impl MalType {
    /// An independent copy of the value, equal to it in every part.
    pub fn deep_copy(&self) -> (r: MalType)
        ensures
            r@ == self@,
        decreases self,
    {
        match self {
            MalType::Boolean(b) => MalType::Boolean(*b),
            MalType::Dictionary(s, k) => MalType::Dictionary(copy_entries(s), copy_entries(k)),
            MalType::Function(p, b) => {
                let body = b.deep_copy();
                MalType::Function(copy_vec(p), Box::new(body))
            },
            MalType::Intrinsic(f) => MalType::Intrinsic(*f),
            MalType::Keyword(k) => MalType::Keyword(k.clone()),
            MalType::List(l) => MalType::List(copy_vec(l)),
            MalType::NoValue => MalType::NoValue,
            MalType::Number(n) => MalType::Number(*n),
            MalType::Str(s) => MalType::Str(s.clone()),
            MalType::Symbol(s) => MalType::Symbol(s.clone()),
            MalType::Vector(l) => MalType::Vector(copy_vec(l)),
        }
    }
}

impl Clone for MalType {
    fn clone(&self) -> (r: Self)
        ensures
            r@ == self@,
    {
        self.deep_copy()
    }
}

/// An evaluation error.
#[derive(Debug)]
pub enum MalErr {
    /// Expected kind, actual kind, and where the mismatch happened.
    TypeErr1(String, String, String),
    /// Expected count, actual count.
    ElementErr1(String, String),
    /// A condition that should never arise.
    InternalErr2(&'static str),
    /// A symbol with no binding.
    SymbolErr1(String),
    /// Any other failure, such as an unsupported comparison or an arithmetic overflow.
    Generic1(String),
    /// Evaluation nested deeper than the depth it was given.
    DepthErr,
}

/// The mathematical model of an error.
pub enum ErrV {
    Type(Seq<char>, Seq<char>, Seq<char>),
    Element(Seq<char>, Seq<char>),
    Internal(Seq<char>),
    Symbol(Seq<char>),
    Generic(Seq<char>),
    Depth,
}

impl View for MalErr {
    type V = ErrV;

    open spec fn view(&self) -> ErrV {
        match self {
            MalErr::TypeErr1(a, b, c) => ErrV::Type(a@, b@, c@),
            MalErr::ElementErr1(a, b) => ErrV::Element(a@, b@),
            MalErr::InternalErr2(a) => ErrV::Internal(a@),
            MalErr::SymbolErr1(a) => ErrV::Symbol(a@),
            MalErr::Generic1(a) => ErrV::Generic(a@),
            MalErr::DepthErr => ErrV::Depth,
        }
    }
}

/// The message that describes an error.
pub open spec fn err_text(e: ErrV) -> Seq<char> {
    match e {
        ErrV::Type(a, b, c) => "Type Error: expected a(n) "@ + a + " but got a(n) "@ + b + " for "@
            + c + "."@,
        ErrV::Element(a, b) => "List Element Error: expected "@ + a + " but got "@ + b + "."@,
        ErrV::Internal(a) => "Internal Error: "@ + a + "."@,
        ErrV::Symbol(a) => "Symbol Error: '"@ + a + "' not found"@,
        ErrV::Generic(a) => "Generic Error: "@ + a,
        ErrV::Depth => "Depth Error: evaluation nested too deeply"@,
    }
}

impl MalErr {
    /// The message that describes this error.
    pub fn message(&self) -> (r: String)
        ensures
            r@ == err_text(self@),
    {
        let mut r = String::new();
        match self {
            MalErr::TypeErr1(a, b, c) => {
                push_text(&mut r, "Type Error: expected a(n) ");
                push_text(&mut r, a.as_str());
                push_text(&mut r, " but got a(n) ");
                push_text(&mut r, b.as_str());
                push_text(&mut r, " for ");
                push_text(&mut r, c.as_str());
                push_text(&mut r, ".");
            },
            MalErr::ElementErr1(a, b) => {
                push_text(&mut r, "List Element Error: expected ");
                push_text(&mut r, a.as_str());
                push_text(&mut r, " but got ");
                push_text(&mut r, b.as_str());
                push_text(&mut r, ".");
            },
            MalErr::InternalErr2(a) => {
                push_text(&mut r, "Internal Error: ");
                push_text(&mut r, a);
                push_text(&mut r, ".");
            },
            MalErr::SymbolErr1(a) => {
                push_text(&mut r, "Symbol Error: '");
                push_text(&mut r, a.as_str());
                push_text(&mut r, "' not found");
            },
            MalErr::Generic1(a) => {
                push_text(&mut r, "Generic Error: ");
                push_text(&mut r, a.as_str());
            },
            MalErr::DepthErr => {
                push_text(&mut r, "Depth Error: evaluation nested too deeply");
            },
        }
        proof {
            assert(Seq::<char>::empty() + "Generic Error: "@ =~= "Generic Error: "@);
            assert(r@ =~= err_text(self@));
        }
        r
    }
}

/// The model of an evaluation result.
pub open spec fn res_view(r: Result<MalType, MalErr>) -> Result<Val, ErrV> {
    match r {
        Ok(v) => Ok(v@),
        Err(e) => Err(e@),
    }
}

/// The name of a value's kind, as error messages give it.
pub open spec fn kind_name(v: Val) -> Seq<char> {
    match v {
        Val::Boolean(_) => "boolean"@,
        Val::Dictionary(_, _) => "dictionary"@,
        Val::Function(_, _) => "function"@,
        Val::Intrinsic(_) => "intrinsic"@,
        Val::Keyword(_) => "keyword"@,
        Val::List(_) => "list"@,
        Val::NoValue => "nil"@,
        Val::Number(_) => "number"@,
        Val::Str(_) => "string"@,
        Val::Symbol(_) => "symbol"@,
        Val::Vector(_) => "vector"@,
    }
}

impl MalType {
    pub fn prt_type(&self) -> (r: &'static str)
        ensures
            r@ == kind_name(self@),
    {
        match self {
            MalType::Boolean(_) => "boolean",
            MalType::Dictionary(_, _) => "dictionary",
            MalType::Function(_, _) => "function",
            MalType::Intrinsic(_) => "intrinsic",
            MalType::Keyword(_) => "keyword",
            MalType::List(_) => "list",
            MalType::NoValue => "nil",
            MalType::Number(_) => "number",
            MalType::Str(_) => "string",
            MalType::Symbol(_) => "symbol",
            MalType::Vector(_) => "vector",
        }
    }
}

} // verus!
