use vstd::prelude::*;
use crate::types::Val;
use crate::text::{digits, digit_char, int_text};
use crate::reader::{
    all_digits, atom_of, digit_value, digits_value, is_digit, is_significant,
    literal_value, parse_number, read_spec, significant, string_literal, unescape,
};
use crate::printer::{escape, escape_char, print_val};
use crate::types::ErrV;
use crate::types::Builtin;
use crate::intrinsics::{builtin_spec, equal_val, equal_items, mismatch};
use crate::eval::{St, eval_spec, apply_spec, if_spec, is_truthy};

verus! {

proof fn lemma_unescape_char(c: char, q: Seq<char>, out: Seq<char>)
    ensures
        unescape(escape_char(c) + q, false, out) == unescape(q, false, out.push(c)),
{
    let e = escape_char(c) + q;
    if c == '\n' || c == '\\' || c == '"' {
        assert(e[0] == '\\');
        assert(e.skip(1) =~= seq![escape_char(c)[1]] + q);
        assert(e.skip(1)[0] == escape_char(c)[1]);
        assert(e.skip(1).skip(1) =~= q);
        assert(unescape(e, false, out) == unescape(e.skip(1), true, out));
        assert(unescape(e.skip(1), true, out) == unescape(q, false, out.push(c)));
    } else {
        assert(e[0] == c);
        assert(e.skip(1) =~= q);
        assert(unescape(e, false, out) == unescape(q, false, out.push(c)));
    }
}

/// Decoding undoes escaping.
proof fn lemma_unescape_escape(x: Seq<char>, q: Seq<char>, out: Seq<char>)
    ensures
        unescape(escape(x) + q, false, out) == unescape(q, false, out + x),
    decreases x.len(),
{
    if x.len() == 0 {
        assert(escape(x) + q =~= q);
        assert(out + x =~= out);
    } else {
        let c = x.last();
        let x1 = x.drop_last();
        assert(escape(x) + q =~= escape(x1) + (escape_char(c) + q));
        lemma_unescape_escape(x1, escape_char(c) + q, out);
        lemma_unescape_char(c, q, out + x1);
        assert((out + x1).push(c) =~= out + x);
    }
}

proof fn lemma_digit_char(d: nat)
    requires
        d < 10,
    ensures
        is_digit(digit_char(d)),
        digit_value(digit_char(d)) == d,
{
}

/// The decimal digits of a number read back as that number.
proof fn lemma_digits(n: nat)
    ensures
        digits(n).len() > 0,
        all_digits(digits(n)),
        digits_value(digits(n)) == n,
    decreases n,
{
    if n < 10 {
        lemma_digit_char(n);
        assert(digits(n).drop_last() =~= Seq::<char>::empty());
        assert(digits_value(Seq::<char>::empty()) == 0);
        assert(digits_value(digits(n)) == 0 * 10 + digit_value(digit_char(n)));
    } else {
        lemma_digits(n / 10);
        lemma_digit_char(n % 10);
        let s = digits(n);
        assert(s.drop_last() =~= digits(n / 10));
        assert(digits_value(s) == digits_value(digits(n / 10)) * 10 + digit_value(
            digit_char(n % 10),
        ));
        assert((n / 10) * 10 + n % 10 == n);
        assert forall|i: int| 0 <= i < s.len() implies #[trigger] is_digit(s[i]) by {
            if i < s.len() - 1 {
                assert(s[i] == digits(n / 10)[i]);
            }
        }
    }
}

proof fn lemma_number_text(n: i64)
    ensures
        parse_number(int_text(n as int)) == Some(n),
        int_text(n as int).len() > 0,
        is_digit(int_text(n as int)[0]) || (int_text(n as int)[0] == '-' && int_text(
            n as int,
        ).len() > 1 && is_digit(int_text(n as int)[1])),
{
    let t = int_text(n as int);
    if n < 0 {
        let m = (-n) as nat;
        lemma_digits(m);
        assert(t.skip(1) =~= digits(m));
        assert(t[0] == '-');
        assert(t[1] == digits(m)[0]);
        assert(literal_value(t) == Some(-(m as int)));
    } else {
        lemma_digits(n as nat);
        assert(is_digit(t[0]));
        assert(t[0] != '-');
    }
}

/// Printing a boolean, number, nil, keyword or string readably gives one token,
/// and reading that token gives back the same value.
pub proof fn lemma_print_read_round_trip(v: Val)
    requires
        v is Boolean || v is Number || v is NoValue || v is Keyword || v is Str,
    ensures
        atom_of(print_val(v, true)) == Ok::<Val, Seq<char>>(v),
        read_spec(seq![print_val(v, true)]) == Ok::<Val, Seq<char>>(v),
{
    reveal_strlit("true");
    reveal_strlit("false");
    reveal_strlit("nil");
    let t = print_val(v, true);
    match v {
        Val::Number(n) => {
            lemma_number_text(n);
        },
        Val::Keyword(k) => {
            assert(t[0] == ':');
            assert(t.skip(1) =~= k);
        },
        Val::Str(s) => {
            assert(t[0] == '"');
            if s.len() == 0 {
                assert(escape(s) =~= Seq::<char>::empty());
                assert(t =~= seq!['"', '"']);
                assert(s =~= Seq::<char>::empty());
            } else {
                assert(escape(s).len() > 0) by {
                    let c = s.last();
                    assert(escape_char(c).len() > 0);
                }
                assert(t.skip(1) =~= escape(s) + seq!['"']);
                lemma_unescape_escape(s, seq!['"'], Seq::empty());
                assert(seq!['"'].skip(1) =~= Seq::<char>::empty());
                assert(Seq::<char>::empty() + s =~= s);
                assert(unescape(seq!['"'], false, s) == Ok::<Seq<char>, Seq<char>>(s));
                assert(t.len() > 2);
            }
            assert(string_literal(t) == Ok::<Seq<char>, Seq<char>>(s));
        },
        _ => {},
    }
    let ts = seq![t];
    assert(is_significant(t));
    assert(ts.drop_last() =~= Seq::<Seq<char>>::empty());
    assert(significant(Seq::<Seq<char>>::empty()) == Seq::<Seq<char>>::empty());
    assert(significant(ts) =~= ts);
}


/// Whether a result is a count error.
pub open spec fn is_count_err<T>(r: Result<T, ErrV>) -> bool {
    r is Err && r->Err_0 is Element
}

/// The number of arguments a built-in takes, where it takes a fixed number.
pub open spec fn builtin_arity(f: Builtin) -> Option<nat> {
    match f {
        Builtin::Prn | Builtin::List => None,
        Builtin::IsList | Builtin::IsEmpty | Builtin::Count => Some(1),
        _ => Some(2),
    }
}

/// Every special form given the wrong number of operands fails with a count error:
/// `def!`, `let*` and `fn*` take two, `if` two or three, `do` at least one.
pub proof fn lemma_special_form_arity(l: Seq<Val>, st: St, fuel: nat)
    requires
        fuel > 0,
        l.len() > 0,
    ensures
        l[0] == Val::Symbol("def!"@) && l.len() != 3 ==> is_count_err(
            eval_spec(Val::List(l), st, fuel).0,
        ),
        l[0] == Val::Symbol("let*"@) && l.len() != 3 ==> is_count_err(
            eval_spec(Val::List(l), st, fuel).0,
        ),
        l[0] == Val::Symbol("fn*"@) && l.len() != 3 ==> is_count_err(
            eval_spec(Val::List(l), st, fuel).0,
        ),
        l[0] == Val::Symbol("if"@) && l.len() != 3 && l.len() != 4 ==> is_count_err(
            eval_spec(Val::List(l), st, fuel).0,
        ),
        l[0] == Val::Symbol("do"@) && l.len() < 2 ==> is_count_err(
            eval_spec(Val::List(l), st, fuel).0,
        ),
{
    reveal_strlit("def!");
    reveal_strlit("let*");
    reveal_strlit("fn*");
    reveal_strlit("if");
    reveal_strlit("do");
    assert("def!"@ != "do"@) by {
        assert("def!"@.len() != "do"@.len());
    }
    assert("def!"@ != "fn*"@) by {
        assert("def!"@.len() != "fn*"@.len());
    }
    assert("def!"@ != "if"@) by {
        assert("def!"@.len() != "if"@.len());
    }
    assert("def!"@ != "let*"@) by {
        assert("def!"@[0] != "let*"@[0]);
    }
    assert("do"@ != "fn*"@) by {
        assert("do"@.len() != "fn*"@.len());
    }
    assert("do"@ != "if"@) by {
        assert("do"@[0] != "if"@[0]);
    }
    assert("do"@ != "let*"@) by {
        assert("do"@.len() != "let*"@.len());
    }
    assert("fn*"@ != "if"@) by {
        assert("fn*"@.len() != "if"@.len());
    }
    assert("fn*"@ != "let*"@) by {
        assert("fn*"@.len() != "let*"@.len());
    }
    assert("if"@ != "let*"@) by {
        assert("if"@.len() != "let*"@.len());
    }
}

/// Every built-in of fixed arity given another number of arguments fails with a count error.
pub proof fn lemma_builtin_arity(f: Builtin, args: Seq<Val>)
    ensures
        builtin_arity(f) is Some && args.len() != builtin_arity(f)->Some_0 ==> is_count_err(
            builtin_spec(f, args),
        ),
{
}

/// Calling a function with a number of arguments other than its number of parameters
/// fails with a count error.
pub proof fn lemma_call_arity(vs: Seq<Val>, st: St, f: nat)
    requires
        vs.len() > 0,
        vs[0] is Function,
        vs.len() - 1 != vs[0]->Function_0.len(),
    ensures
        is_count_err(apply_spec(vs, st, f).0),
{
}


/// Truthiness: only `false` and nil are false, so zero is true; an `if` takes its
/// then-branch on a true condition, else its else-branch, or gives nil without one.
pub proof fn lemma_if_truthiness(l: Seq<Val>, st: St, f: nat)
    requires
        l.len() == 3 || l.len() == 4,
        eval_spec(l[1], st, f).0 is Ok,
    ensures
        is_truthy(Val::Number(0)),
        !is_truthy(Val::Boolean(false)),
        !is_truthy(Val::NoValue),
        ({
            let (r, st1) = eval_spec(l[1], st, f);
            let c = r->Ok_0;
            &&& is_truthy(c) ==> if_spec(l, st, f) == eval_spec(l[2], st1, f)
            &&& !is_truthy(c) && l.len() == 4 ==> if_spec(l, st, f) == eval_spec(l[3], st1, f)
            &&& !is_truthy(c) && l.len() == 3 ==> if_spec(l, st, f) == (
                Ok::<Val, ErrV>(Val::NoValue),
                st1,
            )
        }),
{
}

/// Comparing a list with a value of another kind is a type error, never `false`;
/// two lists of one length compare element by element.
pub proof fn lemma_list_equality(a: Seq<Val>, b: Val)
    ensures
        !(b is List) ==> equal_val(Val::List(a), b) == Err::<bool, ErrV>(mismatch(Val::List(a), b)),
        b is List && b->List_0.len() == a.len() ==> equal_val(Val::List(a), b) == equal_items(
            a,
            b->List_0,
        ),
{
}


/// Lists of one length whose element comparisons all succeed are equal exactly when
/// every pair of elements at the same position is equal.
pub proof fn lemma_list_equality_elementwise(a: Seq<Val>, b: Seq<Val>)
    requires
        a.len() == b.len(),
        forall|i: int| 0 <= i < a.len() ==> #[trigger] equal_val(a[i], b[i]) is Ok,
    ensures
        equal_items(a, b) == Ok::<bool, ErrV>(
            forall|i: int| 0 <= i < a.len() ==> #[trigger] equal_val(a[i], b[i]) == Ok::<bool, ErrV>(true),
        ),
        equal_val(Val::List(a), Val::List(b)) == equal_items(a, b),
        equal_val(Val::Vector(a), Val::Vector(b)) == equal_items(a, b),
    decreases a.len(),
{
    if a.len() > 0 {
        let (a1, b1) = (a.skip(1), b.skip(1));
        assert forall|i: int| 0 <= i < a1.len() implies #[trigger] equal_val(a1[i], b1[i]) is Ok by {
            assert(a1[i] == a[i + 1] && b1[i] == b[i + 1]);
            assert(equal_val(a[i + 1], b[i + 1]) is Ok);
        }
        lemma_list_equality_elementwise(a1, b1);
        assert(equal_val(a[0], b[0]) is Ok);
        if equal_val(a[0], b[0]) == Ok::<bool, ErrV>(true) {
            let all = forall|i: int| 0 <= i < a.len() ==> #[trigger] equal_val(a[i], b[i]) == Ok::<bool, ErrV>(true);
            let all1 = forall|i: int| 0 <= i < a1.len() ==> #[trigger] equal_val(a1[i], b1[i]) == Ok::<bool, ErrV>(true);
            assert(all == all1) by {
                if all1 {
                    assert forall|i: int| 0 <= i < a.len() implies #[trigger] equal_val(a[i], b[i]) == Ok::<bool, ErrV>(true) by {
                        if i > 0 {
                            assert(a1[i - 1] == a[i] && b1[i - 1] == b[i]);
                        }
                    }
                }
                if all {
                    assert forall|i: int| 0 <= i < a1.len() implies #[trigger] equal_val(a1[i], b1[i]) == Ok::<bool, ErrV>(true) by {
                        assert(a1[i] == a[i + 1] && b1[i] == b[i + 1]);
                    }
                }
            }
        }
    }
}

} // verus!
