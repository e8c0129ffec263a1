use vstd::prelude::*;
use crate::types::{MalType, MalErr, ErrV, Val, Builtin, kind_name, view_seq, res_view, copy_vec, lemma_view_seq};
use crate::text::{digits, usize_to_text, push_text};
use crate::printer::{print_val, pr_str};
use crate::env::{MalEnv, env_set, FrameV};
use crate::reader::toks;

verus! {

// ---------------------------------------------------------------- errors

/// A wrong count: what was expected, and the count given, in `unit`s.
pub open spec fn count_err(what: Seq<char>, n: nat, unit: Seq<char>) -> ErrV {
    ErrV::Element(what, digits(n) + unit)
}

pub open spec fn arity_err(what: Seq<char>, n: nat) -> ErrV {
    count_err(what, n, " arguments"@)
}

/// The text of a count followed by its unit.
pub fn count_text(n: usize, unit: &str) -> (r: String)
    ensures
        r@ == digits(n as nat) + unit@,
{
    let mut s = usize_to_text(n);
    push_text(&mut s, unit);
    s
}

pub fn count_error(what: &str, n: usize, unit: &str) -> (e: MalErr)
    ensures
        e@ == count_err(what@, n as nat, unit@),
{
    MalErr::ElementErr1(what.to_owned(), count_text(n, unit))
}

pub fn arity_error(what: &str, n: usize) -> (e: MalErr)
    ensures
        e@ == arity_err(what@, n as nat),
{
    count_error(what, n, " arguments")
}

pub fn type_error(expected: &str, got: &MalType, context: &str) -> (e: MalErr)
    ensures
        e@ == ErrV::Type(expected@, kind_name(got@), context@),
{
    MalErr::TypeErr1(expected.to_owned(), got.prt_type().to_owned(), context.to_owned())
}

pub fn generic_error(msg: &str) -> (e: MalErr)
    ensures
        e@ == ErrV::Generic(msg@),
{
    MalErr::Generic1(msg.to_owned())
}

// ---------------------------------------------------------------- arithmetic

pub fn mal_add(a: i64, b: i64) -> (r: i64)
    requires
        i64::MIN <= a + b <= i64::MAX,
    ensures
        r == a + b,
{
    a + b
}

pub fn mal_sub(a: i64, b: i64) -> (r: i64)
    requires
        i64::MIN <= a - b <= i64::MAX,
    ensures
        r == a - b,
{
    a - b
}

pub fn mal_mul(a: i64, b: i64) -> (r: i64)
    requires
        i64::MIN <= a * b <= i64::MAX,
    ensures
        r == a * b,
{
    a * b
}

/// Division that truncates toward zero, as Rust's `/` does.
pub open spec fn quotient(a: int, b: int) -> int {
    if a == 0 {
        0
    } else if a > 0 && b > 0 {
        a / b
    } else if a < 0 && b < 0 {
        (-a) / (-b)
    } else if a < 0 {
        -((-a) / b)
    } else {
        -(a / (-b))
    }
}

proof fn lemma_quotient_fits(a: int, b: int)
    requires
        b != 0,
        i64::MIN <= a <= i64::MAX,
        i64::MIN <= b <= i64::MAX,
        !(a == i64::MIN && b == -1),
    ensures
        i64::MIN <= quotient(a, b) <= i64::MAX,
{
    let x = if a < 0 { -a } else { a };
    let d = if b < 0 { -b } else { b };
    vstd::arithmetic::div_mod::lemma_div_pos_is_pos(x, d);
    vstd::arithmetic::div_mod::lemma_div_nonincreasing(x, d);
    if x > 0 && d > 1 {
        vstd::arithmetic::div_mod::lemma_div_decreases(x, d);
    }
    vstd::arithmetic::div_mod::lemma_div_basics(x);
}

pub fn mal_div(a: i64, b: i64) -> (r: i64)
    requires
        b != 0,
        !(a == i64::MIN && b == -1),
    ensures
        r == quotient(a as int, b as int),
{
    proof {
        lemma_quotient_fits(a as int, b as int);
    }
    match a.checked_div(b) {
        Some(q) => q,
        None => 0,
    }
}

/// The messages of an arithmetic intrinsic: wrong count, first and second
/// argument not a number, and a result that does not fit.
pub open spec fn arith_msgs(f: Builtin) -> (Seq<char>, Seq<char>, Seq<char>, Seq<char>) {
    match f {
        Builtin::Add => (
            "2 arguments to intrinsic '+' function"@,
            "argument 1 of intrinsic '+' function"@,
            "argument 2 of intrinsic '+' function"@,
            "integer overflow in intrinsic '+' function"@,
        ),
        Builtin::Sub => (
            "2 arguments to intrinsic '-' function"@,
            "argument 1 of intrinsic '-' function"@,
            "argument 2 of intrinsic '-' function"@,
            "integer overflow in intrinsic '-' function"@,
        ),
        Builtin::Mul => (
            "2 arguments to intrinsic '*' function"@,
            "argument 1 of intrinsic '*' function"@,
            "argument 2 of intrinsic '*' function"@,
            "integer overflow in intrinsic '*' function"@,
        ),
        _ => (
            "2 arguments to intrinsic '/' function"@,
            "argument 1 of intrinsic '/' function"@,
            "argument 2 of intrinsic '/' function"@,
            "integer overflow in intrinsic '/' function"@,
        ),
    }
}

fn arith_messages(f: Builtin) -> (r: (&'static str, &'static str, &'static str, &'static str))
    ensures
        (r.0@, r.1@, r.2@, r.3@) == arith_msgs(f),
{
    match f {
        Builtin::Add => (
            "2 arguments to intrinsic '+' function",
            "argument 1 of intrinsic '+' function",
            "argument 2 of intrinsic '+' function",
            "integer overflow in intrinsic '+' function",
        ),
        Builtin::Sub => (
            "2 arguments to intrinsic '-' function",
            "argument 1 of intrinsic '-' function",
            "argument 2 of intrinsic '-' function",
            "integer overflow in intrinsic '-' function",
        ),
        Builtin::Mul => (
            "2 arguments to intrinsic '*' function",
            "argument 1 of intrinsic '*' function",
            "argument 2 of intrinsic '*' function",
            "integer overflow in intrinsic '*' function",
        ),
        _ => (
            "2 arguments to intrinsic '/' function",
            "argument 1 of intrinsic '/' function",
            "argument 2 of intrinsic '/' function",
            "integer overflow in intrinsic '/' function",
        ),
    }
}

/// The exact result of an arithmetic operation on two numbers.
pub open spec fn arith_value(f: Builtin, a: int, b: int) -> int {
    match f {
        Builtin::Add => a + b,
        Builtin::Sub => a - b,
        Builtin::Mul => a * b,
        _ => quotient(a, b),
    }
}

/// What an arithmetic intrinsic returns for its arguments.
pub open spec fn arith_spec(f: Builtin, args: Seq<Val>) -> Result<Val, ErrV> {
    let m = arith_msgs(f);
    if args.len() != 2 {
        Err(arity_err(m.0, args.len()))
    } else {
        match args[0] {
            Val::Number(a) => match args[1] {
                Val::Number(b) => if f == Builtin::Div && b == 0 {
                    Err(ErrV::Generic("division by zero"@))
                } else if i64::MIN <= arith_value(f, a as int, b as int) <= i64::MAX {
                    Ok(Val::Number(arith_value(f, a as int, b as int) as i64))
                } else {
                    Err(ErrV::Generic(m.3))
                },
                _ => Err(ErrV::Type("number"@, kind_name(args[1]), m.2)),
            },
            _ => Err(ErrV::Type("number"@, kind_name(args[0]), m.1)),
        }
    }
}

fn arith(f: Builtin, arg_list: &Vec<MalType>) -> (r: Result<MalType, MalErr>)
    requires
        f == Builtin::Add || f == Builtin::Sub || f == Builtin::Mul || f == Builtin::Div,
    ensures
        res_view(r) == arith_spec(f, view_seq(arg_list@)),
{
    proof {
        lemma_view_seq(arg_list@);
    }
    let m = arith_messages(f);
    if arg_list.len() != 2 {
        return Err(arity_error(m.0, arg_list.len()));
    }
    let n1 = match &arg_list[0] {
        MalType::Number(n) => *n,
        _ => {
            return Err(type_error("number", &arg_list[0], m.1));
        },
    };
    let n2 = match &arg_list[1] {
        MalType::Number(n) => *n,
        _ => {
            return Err(type_error("number", &arg_list[1], m.2));
        },
    };
    let ghost v = arith_value(f, n1 as int, n2 as int);
    match f {
        Builtin::Add => match n1.checked_add(n2) {
            Some(_) => Ok(MalType::Number(mal_add(n1, n2))),
            None => Err(generic_error(m.3)),
        },
        Builtin::Sub => match n1.checked_sub(n2) {
            Some(_) => Ok(MalType::Number(mal_sub(n1, n2))),
            None => Err(generic_error(m.3)),
        },
        Builtin::Mul => match n1.checked_mul(n2) {
            Some(_) => Ok(MalType::Number(mal_mul(n1, n2))),
            None => Err(generic_error(m.3)),
        },
        _ => {
            if n2 == 0 {
                Err(generic_error("division by zero"))
            } else if n1 == i64::MIN && n2 == -1 {
                Err(generic_error(m.3))
            } else {
                proof {
                    lemma_quotient_fits(n1 as int, n2 as int);
                }
                Ok(MalType::Number(mal_div(n1, n2)))
            }
        },
    }
}

pub fn mal_intrinsic_add(arg_list: &Vec<MalType>) -> (r: Result<MalType, MalErr>)
    ensures
        res_view(r) == arith_spec(Builtin::Add, view_seq(arg_list@)),
{
    arith(Builtin::Add, arg_list)
}

pub fn mal_intrinsic_sub(arg_list: &Vec<MalType>) -> (r: Result<MalType, MalErr>)
    ensures
        res_view(r) == arith_spec(Builtin::Sub, view_seq(arg_list@)),
{
    arith(Builtin::Sub, arg_list)
}

pub fn mal_intrinsic_mul(arg_list: &Vec<MalType>) -> (r: Result<MalType, MalErr>)
    ensures
        res_view(r) == arith_spec(Builtin::Mul, view_seq(arg_list@)),
{
    arith(Builtin::Mul, arg_list)
}

pub fn mal_intrinsic_div(arg_list: &Vec<MalType>) -> (r: Result<MalType, MalErr>)
    ensures
        res_view(r) == arith_spec(Builtin::Div, view_seq(arg_list@)),
{
    arith(Builtin::Div, arg_list)
}


// ---------------------------------------------------------------- comparisons

/// The messages of a comparison intrinsic: wrong count, and an argument not a number.
pub open spec fn cmp_msgs(f: Builtin) -> (Seq<char>, Seq<char>) {
    match f {
        Builtin::Gt => ("2 arguments to intrinsic '>' function"@, "intrinsic '>' function"@),
        Builtin::Gte => ("2 arguments to intrinsic '>=' function"@, "intrinsic '>=' function"@),
        Builtin::Lt => ("2 arguments to intrinsic '<' function"@, "intrinsic '<' function"@),
        _ => ("2 arguments to intrinsic '<=' function"@, "intrinsic '<=' function"@),
    }
}

fn cmp_messages(f: Builtin) -> (r: (&'static str, &'static str))
    ensures
        (r.0@, r.1@) == cmp_msgs(f),
{
    match f {
        Builtin::Gt => ("2 arguments to intrinsic '>' function", "intrinsic '>' function"),
        Builtin::Gte => ("2 arguments to intrinsic '>=' function", "intrinsic '>=' function"),
        Builtin::Lt => ("2 arguments to intrinsic '<' function", "intrinsic '<' function"),
        _ => ("2 arguments to intrinsic '<=' function", "intrinsic '<=' function"),
    }
}

pub open spec fn compare(f: Builtin, a: i64, b: i64) -> bool {
    match f {
        Builtin::Gt => a > b,
        Builtin::Gte => a >= b,
        Builtin::Lt => a < b,
        _ => a <= b,
    }
}

/// What a comparison intrinsic returns for its arguments.
pub open spec fn cmp_spec(f: Builtin, args: Seq<Val>) -> Result<Val, ErrV> {
    let m = cmp_msgs(f);
    if args.len() != 2 {
        Err(arity_err(m.0, args.len()))
    } else {
        match args[0] {
            Val::Number(a) => match args[1] {
                Val::Number(b) => Ok(Val::Boolean(compare(f, a, b))),
                _ => Err(ErrV::Type("number"@, kind_name(args[1]), m.1)),
            },
            _ => Err(ErrV::Type("number"@, kind_name(args[0]), m.1)),
        }
    }
}

fn cmp(f: Builtin, arg_list: &Vec<MalType>) -> (r: Result<MalType, MalErr>)
    ensures
        res_view(r) == cmp_spec(f, view_seq(arg_list@)),
{
    proof {
        lemma_view_seq(arg_list@);
    }
    let m = cmp_messages(f);
    if arg_list.len() != 2 {
        return Err(arity_error(m.0, arg_list.len()));
    }
    if let MalType::Number(n1) = &arg_list[0] {
        if let MalType::Number(n2) = &arg_list[1] {
            let b = match f {
                Builtin::Gt => *n1 > *n2,
                Builtin::Gte => *n1 >= *n2,
                Builtin::Lt => *n1 < *n2,
                _ => *n1 <= *n2,
            };
            Ok(MalType::Boolean(b))
        } else {
            Err(type_error("number", &arg_list[1], m.1))
        }
    } else {
        Err(type_error("number", &arg_list[0], m.1))
    }
}

pub fn mal_intrinsic_gt(arg_list: &Vec<MalType>) -> (r: Result<MalType, MalErr>)
    ensures
        res_view(r) == cmp_spec(Builtin::Gt, view_seq(arg_list@)),
{
    cmp(Builtin::Gt, arg_list)
}

pub fn mal_intrinsic_gte(arg_list: &Vec<MalType>) -> (r: Result<MalType, MalErr>)
    ensures
        res_view(r) == cmp_spec(Builtin::Gte, view_seq(arg_list@)),
{
    cmp(Builtin::Gte, arg_list)
}

pub fn mal_intrinsic_lt(arg_list: &Vec<MalType>) -> (r: Result<MalType, MalErr>)
    ensures
        res_view(r) == cmp_spec(Builtin::Lt, view_seq(arg_list@)),
{
    cmp(Builtin::Lt, arg_list)
}

pub fn mal_intrinsic_lte(arg_list: &Vec<MalType>) -> (r: Result<MalType, MalErr>)
    ensures
        res_view(r) == cmp_spec(Builtin::Lte, view_seq(arg_list@)),
{
    cmp(Builtin::Lte, arg_list)
}

// ---------------------------------------------------------------- lists

pub open spec fn is_list_spec(args: Seq<Val>) -> Result<Val, ErrV> {
    if args.len() != 1 {
        Err(arity_err("1 argument to intrinsic 'list?' function"@, args.len()))
    } else {
        Ok(Val::Boolean(args[0] is List))
    }
}

pub open spec fn is_empty_spec(args: Seq<Val>) -> Result<Val, ErrV> {
    if args.len() != 1 {
        Err(arity_err("1 argument to intrinsic 'empty?' function"@, args.len()))
    } else {
        match args[0] {
            Val::List(l) => Ok(Val::Boolean(l.len() == 0)),
            Val::Vector(l) => Ok(Val::Boolean(l.len() == 0)),
            _ => Err(
                ErrV::Type(
                    "list or vector"@,
                    kind_name(args[0]),
                    "argument 1 to intrinsic 'empty?' function"@,
                ),
            ),
        }
    }
}

pub open spec fn count_spec(args: Seq<Val>) -> Result<Val, ErrV> {
    if args.len() != 1 {
        Err(arity_err("1 argument to intrinsic 'count' function"@, args.len()))
    } else {
        match args[0] {
            Val::List(l) => Ok(Val::Number(l.len() as i64)),
            Val::Vector(l) => Ok(Val::Number(l.len() as i64)),
            _ => Err(
                ErrV::Type(
                    "list or vector"@,
                    kind_name(args[0]),
                    "argument 1 to intrinsic 'count' function"@,
                ),
            ),
        }
    }
}

pub fn mal_intrinsic_mk_list(arg_list: &Vec<MalType>) -> (r: Result<MalType, MalErr>)
    ensures
        res_view(r) == Ok::<Val, ErrV>(Val::List(view_seq(arg_list@))),
{
    Ok(MalType::List(copy_vec(arg_list)))
}

pub fn mal_intrinsic_is_list(arg_list: &Vec<MalType>) -> (r: Result<MalType, MalErr>)
    ensures
        res_view(r) == is_list_spec(view_seq(arg_list@)),
{
    proof {
        lemma_view_seq(arg_list@);
    }
    if arg_list.len() != 1 {
        return Err(arity_error("1 argument to intrinsic 'list?' function", arg_list.len()));
    }
    if let MalType::List(_) = &arg_list[0] {
        Ok(MalType::Boolean(true))
    } else {
        Ok(MalType::Boolean(false))
    }
}

pub fn mal_intrinsic_is_empty(arg_list: &Vec<MalType>) -> (r: Result<MalType, MalErr>)
    ensures
        res_view(r) == is_empty_spec(view_seq(arg_list@)),
{
    proof {
        lemma_view_seq(arg_list@);
    }
    if arg_list.len() != 1 {
        return Err(arity_error("1 argument to intrinsic 'empty?' function", arg_list.len()));
    }
    match &arg_list[0] {
        MalType::List(l) => {
            proof {
                lemma_view_seq(l@);
            }
            Ok(MalType::Boolean(l.len() == 0))
        },
        MalType::Vector(v) => {
            proof {
                lemma_view_seq(v@);
            }
            Ok(MalType::Boolean(v.len() == 0))
        },
        _ => Err(
            type_error(
                "list or vector",
                &arg_list[0],
                "argument 1 to intrinsic 'empty?' function",
            ),
        ),
    }
}

pub fn mal_intrinsic_count(arg_list: &Vec<MalType>) -> (r: Result<MalType, MalErr>)
    ensures
        res_view(r) == count_spec(view_seq(arg_list@)),
{
    proof {
        lemma_view_seq(arg_list@);
    }
    if arg_list.len() != 1 {
        return Err(arity_error("1 argument to intrinsic 'count' function", arg_list.len()));
    }
    match &arg_list[0] {
        MalType::List(l) => {
            proof {
                lemma_view_seq(l@);
            }
            Ok(MalType::Number(l.len() as i64))
        },
        MalType::Vector(v) => {
            proof {
                lemma_view_seq(v@);
            }
            Ok(MalType::Number(v.len() as i64))
        },
        _ => Err(
            type_error("list or vector", &arg_list[0], "argument 1 to intrinsic 'count' function"),
        ),
    }
}


// ---------------------------------------------------------------- equality

pub open spec fn mismatch(a: Val, b: Val) -> ErrV {
    ErrV::Type(kind_name(a), kind_name(b), "intrinsic '=' function"@)
}

/// Structural equality: defined on booleans, nil, numbers, strings, lists and
/// vectors of the same kind; comparing different kinds is a type error.
pub open spec fn equal_val(a: Val, b: Val) -> Result<bool, ErrV>
    decreases a,
{
    match a {
        Val::Boolean(x) => match b {
            Val::Boolean(y) => Ok(x == y),
            _ => Err(mismatch(a, b)),
        },
        Val::Dictionary(_, _) => Err(ErrV::Generic("Dictionary comparison not implemented"@)),
        Val::Function(_, _) => Err(ErrV::Generic("Function comparison not implemented"@)),
        Val::Intrinsic(_) => Err(ErrV::Generic("Intrinsic function comparison not implemented"@)),
        Val::Keyword(_) => Err(ErrV::Generic("Keyword comparison not implemented"@)),
        Val::Symbol(_) => Err(ErrV::Generic("Symbol comparison not implemented"@)),
        Val::List(la) => match b {
            Val::List(lb) => if la.len() == lb.len() {
                equal_items(la, lb)
            } else {
                Err(count_err(digits(la.len()) + " list elements"@, lb.len(), " list elements"@))
            },
            _ => Err(mismatch(a, b)),
        },
        Val::Vector(la) => match b {
            Val::Vector(lb) => if la.len() == lb.len() {
                equal_items(la, lb)
            } else {
                Err(
                    count_err(
                        digits(la.len()) + " vector elements"@,
                        lb.len(),
                        " vector elements"@,
                    ),
                )
            },
            _ => Err(mismatch(a, b)),
        },
        Val::NoValue => match b {
            Val::NoValue => Ok(true),
            _ => Err(mismatch(a, b)),
        },
        Val::Number(x) => match b {
            Val::Number(y) => Ok(x == y),
            _ => Err(mismatch(a, b)),
        },
        Val::Str(x) => match b {
            Val::Str(y) => Ok(x == y),
            _ => Err(mismatch(a, b)),
        },
    }
}

/// Pairwise equality from the front, stopping at the first unequal pair or error.
pub open spec fn equal_items(la: Seq<Val>, lb: Seq<Val>) -> Result<bool, ErrV>
    decreases la,
{
    if la.len() == 0 || lb.len() == 0 {
        Ok(true)
    } else {
        match equal_val(la[0], lb[0]) {
            Ok(true) => equal_items(la.skip(1), lb.skip(1)),
            other => other,
        }
    }
}

pub open spec fn equal_spec(args: Seq<Val>) -> Result<Val, ErrV> {
    if args.len() != 2 {
        Err(arity_err("2 arguments to intrinsic '=' function"@, args.len()))
    } else {
        match equal_val(args[0], args[1]) {
            Ok(x) => Ok(Val::Boolean(x)),
            Err(e) => Err(e),
        }
    }
}

fn mismatch_error(a: &MalType, b: &MalType) -> (e: MalErr)
    ensures
        e@ == mismatch(a@, b@),
{
    MalErr::TypeErr1(a.prt_type().to_owned(), b.prt_type().to_owned(), "intrinsic '=' function".to_owned())
}

fn items_equal(la: &Vec<MalType>, lb: &Vec<MalType>) -> (r: Result<bool, MalErr>)
    requires
        la@.len() == lb@.len(),
    ensures
        match r {
            Ok(x) => equal_items(view_seq(la@), view_seq(lb@)) == Ok::<bool, ErrV>(x),
            Err(e) => equal_items(view_seq(la@), view_seq(lb@)) == Err::<bool, ErrV>(e@),
        },
    decreases la,
{
    proof {
        lemma_view_seq(la@);
        lemma_view_seq(lb@);
    }
    let ghost va = view_seq(la@);
    let ghost vb = view_seq(lb@);
    let mut i: usize = 0;
    proof {
        assert(va.skip(0) =~= va);
        assert(vb.skip(0) =~= vb);
    }
    while i < la.len()
        invariant
            i <= la@.len(),
            la@.len() == lb@.len(),
            va == view_seq(la@),
            vb == view_seq(lb@),
            va.len() == la@.len(),
            vb.len() == lb@.len(),
            forall|j: int| 0 <= j < la@.len() ==> #[trigger] va[j] == la@[j]@,
            forall|j: int| 0 <= j < lb@.len() ==> #[trigger] vb[j] == lb@[j]@,
            equal_items(va, vb) == equal_items(va.skip(i as int), vb.skip(i as int)),
        decreases la.len() - i,
    {
        proof {
            assert(decreases_to!(la => la[i as int]));
            assert(va.skip(i as int)[0] == va[i as int]);
            assert(vb.skip(i as int)[0] == vb[i as int]);
            assert(va.skip(i as int).skip(1) =~= va.skip(i + 1));
            assert(vb.skip(i as int).skip(1) =~= vb.skip(i + 1));
        }
        match values_equal(&la[i], &lb[i]) {
            Ok(true) => {},
            Ok(false) => {
                return Ok(false);
            },
            Err(e) => {
                return Err(e);
            },
        }
        i += 1;
    }
    Ok(true)
}

/// Structural equality of two values.
pub fn values_equal(a: &MalType, b: &MalType) -> (r: Result<bool, MalErr>)
    ensures
        match r {
            Ok(x) => equal_val(a@, b@) == Ok::<bool, ErrV>(x),
            Err(e) => equal_val(a@, b@) == Err::<bool, ErrV>(e@),
        },
    decreases a,
{
    match a {
        MalType::Boolean(x) => match b {
            MalType::Boolean(y) => Ok(*x == *y),
            _ => Err(mismatch_error(a, b)),
        },
        MalType::Dictionary(_, _) => Err(generic_error("Dictionary comparison not implemented")),
        MalType::Function(_, _) => Err(generic_error("Function comparison not implemented")),
        MalType::Intrinsic(_) => Err(generic_error("Intrinsic function comparison not implemented")),
        MalType::Keyword(_) => Err(generic_error("Keyword comparison not implemented")),
        MalType::Symbol(_) => Err(generic_error("Symbol comparison not implemented")),
        MalType::List(la) => match b {
            MalType::List(lb) => {
                proof {
                    lemma_view_seq(la@);
                    lemma_view_seq(lb@);
                }
                if la.len() == lb.len() {
                    items_equal(la, lb)
                } else {
                    Err(MalErr::ElementErr1(
                        count_text(la.len(), " list elements"),
                        count_text(lb.len(), " list elements"),
                    ))
                }
            },
            _ => Err(mismatch_error(a, b)),
        },
        MalType::Vector(la) => match b {
            MalType::Vector(lb) => {
                proof {
                    lemma_view_seq(la@);
                    lemma_view_seq(lb@);
                }
                if la.len() == lb.len() {
                    items_equal(la, lb)
                } else {
                    Err(MalErr::ElementErr1(
                        count_text(la.len(), " vector elements"),
                        count_text(lb.len(), " vector elements"),
                    ))
                }
            },
            _ => Err(mismatch_error(a, b)),
        },
        MalType::NoValue => match b {
            MalType::NoValue => Ok(true),
            _ => Err(mismatch_error(a, b)),
        },
        MalType::Number(x) => match b {
            MalType::Number(y) => Ok(*x == *y),
            _ => Err(mismatch_error(a, b)),
        },
        MalType::Str(x) => match b {
            MalType::Str(y) => Ok(*x == *y),
            _ => Err(mismatch_error(a, b)),
        },
    }
}

pub fn mal_intrinsic_equal(arg_list: &Vec<MalType>) -> (r: Result<MalType, MalErr>)
    ensures
        res_view(r) == equal_spec(view_seq(arg_list@)),
{
    proof {
        lemma_view_seq(arg_list@);
    }
    if arg_list.len() != 2 {
        return Err(arity_error("2 arguments to intrinsic '=' function", arg_list.len()));
    }
    match values_equal(&arg_list[0], &arg_list[1]) {
        Ok(x) => Ok(MalType::Boolean(x)),
        Err(e) => Err(e),
    }
}


// ---------------------------------------------------------------- output and dispatch

/// The lines that `prn` emits: its first argument, printed for display.
pub open spec fn prn_lines(args: Seq<Val>) -> Seq<Seq<char>> {
    if args.len() > 0 {
        seq![print_val(args[0], false)]
    } else {
        Seq::empty()
    }
}

/// Emits its first argument, printed for display, as one line of output; returns nil.
pub fn mal_intrinsic_prn(arg_list: &Vec<MalType>, out: &mut Vec<String>) -> (r: Result<MalType, MalErr>)
    ensures
        res_view(r) == Ok::<Val, ErrV>(Val::NoValue),
        toks(final(out)@) == toks(old(out)@) + prn_lines(view_seq(arg_list@)),
{
    proof {
        lemma_view_seq(arg_list@);
    }
    if arg_list.len() > 0 {
        let line = pr_str(&arg_list[0], false);
        out.push(line);
    }
    proof {
        assert(toks(out@) =~= toks(old(out)@) + prn_lines(view_seq(arg_list@)));
    }
    Ok(MalType::NoValue)
}

/// What a built-in returns for its arguments.
pub open spec fn builtin_spec(f: Builtin, args: Seq<Val>) -> Result<Val, ErrV> {
    match f {
        Builtin::Add | Builtin::Sub | Builtin::Mul | Builtin::Div => arith_spec(f, args),
        Builtin::Gt | Builtin::Gte | Builtin::Lt | Builtin::Lte => cmp_spec(f, args),
        Builtin::Prn => Ok(Val::NoValue),
        Builtin::List => Ok(Val::List(args)),
        Builtin::IsList => is_list_spec(args),
        Builtin::IsEmpty => is_empty_spec(args),
        Builtin::Count => count_spec(args),
        Builtin::Equal => equal_spec(args),
    }
}

/// The lines of output that a built-in emits.
pub open spec fn builtin_out(f: Builtin, args: Seq<Val>) -> Seq<Seq<char>> {
    if f == Builtin::Prn {
        prn_lines(args)
    } else {
        Seq::empty()
    }
}

/// Invokes a built-in on evaluated arguments.
pub fn call_builtin(f: Builtin, args: &Vec<MalType>, out: &mut Vec<String>) -> (r: Result<MalType, MalErr>)
    ensures
        res_view(r) == builtin_spec(f, view_seq(args@)),
        toks(final(out)@) == toks(old(out)@) + builtin_out(f, view_seq(args@)),
{
    proof {
        assert(toks(old(out)@) + Seq::<Seq<char>>::empty() =~= toks(old(out)@));
    }
    match f {
        Builtin::Add => mal_intrinsic_add(args),
        Builtin::Sub => mal_intrinsic_sub(args),
        Builtin::Mul => mal_intrinsic_mul(args),
        Builtin::Div => mal_intrinsic_div(args),
        Builtin::Prn => mal_intrinsic_prn(args, out),
        Builtin::List => mal_intrinsic_mk_list(args),
        Builtin::IsList => mal_intrinsic_is_list(args),
        Builtin::IsEmpty => mal_intrinsic_is_empty(args),
        Builtin::Count => mal_intrinsic_count(args),
        Builtin::Equal => mal_intrinsic_equal(args),
        Builtin::Gt => mal_intrinsic_gt(args),
        Builtin::Gte => mal_intrinsic_gte(args),
        Builtin::Lt => mal_intrinsic_lt(args),
        Builtin::Lte => mal_intrinsic_lte(args),
    }
}

/// The name under which each built-in is bound at start-up.
pub open spec fn builtin_table() -> Seq<(Seq<char>, Builtin)> {
    seq![
        ("+"@, Builtin::Add),
        ("-"@, Builtin::Sub),
        ("*"@, Builtin::Mul),
        ("/"@, Builtin::Div),
        ("prn"@, Builtin::Prn),
        ("list"@, Builtin::List),
        ("list?"@, Builtin::IsList),
        ("empty?"@, Builtin::IsEmpty),
        ("count"@, Builtin::Count),
        ("="@, Builtin::Equal),
        (">"@, Builtin::Gt),
        (">="@, Builtin::Gte),
        ("<"@, Builtin::Lt),
        ("<="@, Builtin::Lte),
    ]
}

/// The environment after binding each entry of `t` in turn.
pub open spec fn bind_builtins(e: Seq<FrameV>, t: Seq<(Seq<char>, Builtin)>) -> Seq<FrameV>
    decreases t.len(),
{
    if t.len() == 0 {
        e
    } else {
        env_set(bind_builtins(e, t.drop_last()), t.last().0, Val::Intrinsic(t.last().1))
    }
}

fn builtin_entries() -> (r: Vec<(&'static str, Builtin)>)
    ensures
        r@.len() == builtin_table().len(),
        forall|i: int|
            0 <= i < r@.len() ==> (#[trigger] r@[i].0@, r@[i].1) == builtin_table()[i],
{
    let r = vec![
        ("+", Builtin::Add),
        ("-", Builtin::Sub),
        ("*", Builtin::Mul),
        ("/", Builtin::Div),
        ("prn", Builtin::Prn),
        ("list", Builtin::List),
        ("list?", Builtin::IsList),
        ("empty?", Builtin::IsEmpty),
        ("count", Builtin::Count),
        ("=", Builtin::Equal),
        (">", Builtin::Gt),
        (">=", Builtin::Gte),
        ("<", Builtin::Lt),
        ("<=", Builtin::Lte),
    ];
    proof {
        assert forall|i: int| 0 <= i < r@.len() implies (#[trigger] r@[i].0@, r@[i].1)
            == builtin_table()[i] by {
            assert(r@ == seq![
                ("+", Builtin::Add),
                ("-", Builtin::Sub),
                ("*", Builtin::Mul),
                ("/", Builtin::Div),
                ("prn", Builtin::Prn),
                ("list", Builtin::List),
                ("list?", Builtin::IsList),
                ("empty?", Builtin::IsEmpty),
                ("count", Builtin::Count),
                ("=", Builtin::Equal),
                (">", Builtin::Gt),
                (">=", Builtin::Gte),
                ("<", Builtin::Lt),
                ("<=", Builtin::Lte),
            ]);
        }
    }
    r
}

/// Binds every built-in under its name in the innermost frame.
pub fn initialize_env(repl_env: &mut MalEnv)
    ensures
        final(repl_env)@ == bind_builtins(old(repl_env)@, builtin_table()),
{
    let table = builtin_entries();
    let mut i: usize = 0;
    while i < table.len()
        invariant
            i <= table@.len(),
            table@.len() == builtin_table().len(),
            forall|j: int|
                0 <= j < table@.len() ==> (#[trigger] table@[j].0@, table@[j].1) == builtin_table()[j],
            repl_env@ == bind_builtins(old(repl_env)@, builtin_table().take(i as int)),
        decreases table.len() - i,
    {
        proof {
            assert(builtin_table().take(i + 1).drop_last() =~= builtin_table().take(i as int));
            assert(table@[i as int].0@ == builtin_table()[i as int].0);
        }
        repl_env.set(table[i].0, MalType::Intrinsic(table[i].1));
        i += 1;
    }
    proof {
        assert(builtin_table().take(i as int) =~= builtin_table());
    }
}

} // verus!
