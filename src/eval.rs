use vstd::prelude::*;
use crate::types::{MalType, MalErr, ErrV, Val, kind_name, view_seq, view_entries, res_view, lemma_view_seq, lemma_view_entries, copy_vec};
use crate::text::{digits, is_text};
use crate::env::{MalEnv, FrameV, env_get, env_set, frame_of, dict_keys_unique, lemma_same_keys_unique};
use crate::reader::{toks, read_str, read_spec, tokens_of};
use crate::printer::{pr_str, print_val};
use crate::scope::{lemma_let_frames, lemma_apply_frames};
use crate::intrinsics::{count_err, builtin_spec, builtin_out, call_builtin, count_error, type_error, count_text};

verus! {

/// The model of what evaluation reads and changes: the scope frames and the lines of
/// output emitted so far.
pub struct St {
    pub env: Seq<FrameV>,
    pub out: Seq<Seq<char>>,
}

pub open spec fn state_of(env: MalEnv, out: Vec<String>) -> St {
    St { env: env@, out: toks(out@) }
}

pub open spec fn pop(st: St) -> St {
    St { env: st.env.drop_last(), out: st.out }
}

pub open spec fn sym_of(v: Val) -> Seq<char> {
    match v {
        Val::Symbol(s) => s,
        _ => Seq::empty(),
    }
}

/// Only `false` and nil are false.
pub open spec fn is_truthy(v: Val) -> bool {
    v != Val::Boolean(false) && v != Val::NoValue
}

/// The first parameter that is not a symbol, as an error.
pub open spec fn params_check(ps: Seq<Val>, ctx: Seq<char>) -> Option<ErrV>
    decreases ps.len(),
{
    if ps.len() == 0 {
        None
    } else if ps[0] is Symbol {
        params_check(ps.skip(1), ctx)
    } else {
        Some(ErrV::Type("symbol"@, kind_name(ps[0]), ctx))
    }
}

/// Each parameter's name bound to the argument at its position.
pub open spec fn param_binds(ps: Seq<Val>, args: Seq<Val>) -> Seq<(Seq<char>, Val)> {
    Seq::new(ps.len(), |i: int| (sym_of(ps[i]), args[i]))
}

/// `(fn* params body)`: a function value; nothing is evaluated.
pub open spec fn fn_spec(l: Seq<Val>) -> Result<Val, ErrV> {
    if l.len() != 3 {
        Err(count_err("3 elements for a function definition"@, l.len(), " elements"@))
    } else {
        match l[1] {
            Val::List(ps) => match params_check(ps, "parameter of function definition"@) {
                Some(e) => Err(e),
                None => Ok(Val::Function(ps, Box::new(l[2]))),
            },
            _ => Err(ErrV::Type("list"@, kind_name(l[1]), "list of parameter names"@)),
        }
    }
}

/// Evaluation of a form, nesting at most `fuel` deep.
pub open spec fn eval_spec(v: Val, st: St, fuel: nat) -> (Result<Val, ErrV>, St)
    decreases fuel, 0int, 0int,
{
    if fuel == 0 {
        (Err(ErrV::Depth), st)
    } else {
        let f = (fuel - 1) as nat;
        match v {
            Val::List(l) => if l.len() == 0 {
                (Ok(Val::List(Seq::empty())), st)
            } else if l[0] == Val::Symbol("def!"@) {
                def_spec(l, st, f)
            } else if l[0] == Val::Symbol("do"@) {
                do_spec(l, st, f)
            } else if l[0] == Val::Symbol("fn*"@) {
                (fn_spec(l), st)
            } else if l[0] == Val::Symbol("if"@) {
                if_spec(l, st, f)
            } else if l[0] == Val::Symbol("let*"@) {
                let_spec(l, st, f)
            } else {
                call_spec(l, st, f)
            },
            _ => ast_spec(v, st, f),
        }
    }
}

/// Evaluation of each form in order, stopping at the first error.
pub open spec fn eval_list_spec(l: Seq<Val>, st: St, f: nat) -> (Result<Seq<Val>, ErrV>, St)
    decreases f, 1int, l.len(),
{
    if l.len() == 0 {
        (Ok(Seq::empty()), st)
    } else {
        let (r, st1) = eval_spec(l[0], st, f);
        match r {
            Err(e) => (Err(e), st1),
            Ok(x) => {
                let (r2, st2) = eval_list_spec(l.skip(1), st1, f);
                (
                    match r2 {
                        Ok(vs) => Ok(seq![x] + vs),
                        Err(e) => Err(e),
                    },
                    st2,
                )
            },
        }
    }
}

/// Evaluation of each entry's value in order, keeping its key.
pub open spec fn eval_entries_spec(d: FrameV, st: St, f: nat) -> (Result<FrameV, ErrV>, St)
    decreases f, 1int, d.len(),
{
    if d.len() == 0 {
        (Ok(Seq::empty()), st)
    } else {
        let (r, st1) = eval_spec(d[0].1, st, f);
        match r {
            Err(e) => (Err(e), st1),
            Ok(x) => {
                let (r2, st2) = eval_entries_spec(d.skip(1), st1, f);
                (
                    match r2 {
                        Ok(vs) => Ok(seq![(d[0].0, x)] + vs),
                        Err(e) => Err(e),
                    },
                    st2,
                )
            },
        }
    }
}

/// Evaluation without special forms: symbols are looked up, containers have their
/// elements evaluated, everything else stands for itself.
pub open spec fn ast_spec(v: Val, st: St, f: nat) -> (Result<Val, ErrV>, St)
    decreases f, 2int, 0int,
{
    match v {
        Val::Symbol(s) => (
            match env_get(st.env, s) {
                Some(x) => Ok(x),
                None => Err(ErrV::Symbol(s)),
            },
            st,
        ),
        Val::List(l) => {
            let (r, st1) = eval_list_spec(l, st, f);
            (
                match r {
                    Ok(vs) => Ok(Val::List(vs)),
                    Err(e) => Err(e),
                },
                st1,
            )
        },
        Val::Vector(l) => {
            let (r, st1) = eval_list_spec(l, st, f);
            (
                match r {
                    Ok(vs) => Ok(Val::Vector(vs)),
                    Err(e) => Err(e),
                },
                st1,
            )
        },
        Val::Dictionary(s, k) => {
            let (r1, st1) = eval_entries_spec(s, st, f);
            match r1 {
                Err(e) => (Err(e), st1),
                Ok(s2) => {
                    let (r2, st2) = eval_entries_spec(k, st1, f);
                    (
                        match r2 {
                            Ok(k2) => Ok(Val::Dictionary(s2, k2)),
                            Err(e) => Err(e),
                        },
                        st2,
                    )
                },
            }
        },
        _ => (Ok(v), st),
    }
}

/// `(def! name expr)`: binds the value of `expr` in the innermost frame.
pub open spec fn def_spec(l: Seq<Val>, st: St, f: nat) -> (Result<Val, ErrV>, St)
    decreases f, 1int, 0int,
{
    if l.len() != 3 {
        (Err(count_err("2 arguments for def!"@, (l.len() - 1) as nat, " argument(s)"@)), st)
    } else {
        let (r, st1) = eval_spec(l[2], st, f);
        match r {
            Err(e) => (Err(e), st1),
            Ok(x) => match l[1] {
                Val::Symbol(name) => (Ok(x), St { env: env_set(st1.env, name, x), out: st1.out }),
                _ => (Err(ErrV::Type("symbol"@, kind_name(l[1]), "argument 1 to def!"@)), st1),
            },
        }
    }
}

/// `(do a b ...)`: each operand without special forms, in order; the last one's value.
pub open spec fn do_spec(l: Seq<Val>, st: St, f: nat) -> (Result<Val, ErrV>, St)
    decreases f, 4int, 0int,
{
    if l.len() < 2 {
        (Err(count_err("at least 1 argument for do"@, (l.len() - 1) as nat, " arguments"@)), st)
    } else {
        do_seq_spec(l.skip(1), st, f)
    }
}

pub open spec fn do_seq_spec(ops: Seq<Val>, st: St, f: nat) -> (Result<Val, ErrV>, St)
    decreases f, 3int, ops.len(),
{
    if ops.len() == 0 {
        (Ok(Val::NoValue), st)
    } else {
        let (r, st1) = ast_spec(ops[0], st, f);
        if ops.len() == 1 {
            (r, st1)
        } else {
            match r {
                Err(e) => (Err(e), st1),
                Ok(_) => do_seq_spec(ops.skip(1), st1, f),
            }
        }
    }
}

/// `(if c then else?)`.
pub open spec fn if_spec(l: Seq<Val>, st: St, f: nat) -> (Result<Val, ErrV>, St)
    decreases f, 1int, 0int,
{
    if l.len() != 3 && l.len() != 4 {
        (Err(count_err("3 or 4 arguments for if"@, l.len(), " arguments"@)), st)
    } else {
        let (r, st1) = eval_spec(l[1], st, f);
        match r {
            Err(e) => (Err(e), st1),
            Ok(c) => if is_truthy(c) {
                eval_spec(l[2], st1, f)
            } else if l.len() == 4 {
                eval_spec(l[3], st1, f)
            } else {
                (Ok(Val::NoValue), st1)
            },
        }
    }
}

/// The bindings of a `let*`, pair by pair, each in the scope the earlier ones made.
pub open spec fn bind_pairs_spec(items: Seq<Val>, st: St, f: nat) -> (Result<(), ErrV>, St)
    decreases f, 1int, items.len(),
{
    if items.len() < 2 {
        (Ok(()), st)
    } else {
        let (r, st1) = eval_spec(items[1], st, f);
        match r {
            Err(e) => (Err(e), st1),
            Ok(x) => match items[0] {
                Val::Symbol(name) => bind_pairs_spec(
                    items.skip(2),
                    St { env: env_set(st1.env, name, x), out: st1.out },
                    f,
                ),
                _ => (Err(ErrV::Type("symbol"@, kind_name(items[0]), "let* binding"@)), st1),
            },
        }
    }
}

/// The items of a `let*` binding form: an even number, bound pair by pair.
pub open spec fn let_items_spec(items: Seq<Val>, st: St, f: nat) -> (Result<(), ErrV>, St)
    decreases f, 2int, 0int,
{
    if items.len() % 2 != 0 {
        (Err(count_err("an even number of list elements"@, items.len(), " list elements"@)), st)
    } else {
        bind_pairs_spec(items, st, f)
    }
}

pub open spec fn bindings_spec(b: Val, st: St, f: nat) -> (Result<(), ErrV>, St)
    decreases f, 2int, 1int,
{
    match b {
        Val::List(items) => let_items_spec(items, st, f),
        Val::Vector(items) => let_items_spec(items, st, f),
        _ => (Err(ErrV::Type("list or vector"@, kind_name(b), "let* binding list"@)), st),
    }
}

/// `(let* bindings body)`: a new frame for the bindings and the body, removed after.
pub open spec fn let_spec(l: Seq<Val>, st: St, f: nat) -> (Result<Val, ErrV>, St)
    decreases f, 3int, 0int,
{
    if l.len() != 3 {
        (Err(count_err("2 arguments for let*"@, (l.len() - 1) as nat, " argument(s)"@)), st)
    } else {
        let st0 = St { env: st.env.push(Seq::empty()), out: st.out };
        let (r, st1) = bindings_spec(l[1], st0, f);
        match r {
            Err(e) => (Err(e), pop(st1)),
            Ok(_) => {
                let (r2, st2) = eval_spec(l[2], st1, f);
                (r2, pop(st2))
            },
        }
    }
}

/// Application of an evaluated list: its head to the rest.
pub open spec fn apply_spec(vs: Seq<Val>, st: St, f: nat) -> (Result<Val, ErrV>, St)
    decreases f, 1int, 0int,
{
    if vs.len() == 0 {
        (Err(count_err("at least 1 list element for function call"@, 0, " elements"@)), st)
    } else {
        match vs[0] {
            Val::Function(ps, body) => if vs.len() - 1 != ps.len() {
                (
                    Err(
                        ErrV::Element(
                            digits(ps.len()) + " arguments for function call"@,
                            digits((vs.len() - 1) as nat) + " arguments"@,
                        ),
                    ),
                    st,
                )
            } else {
                match params_check(ps, "parameter of function call"@) {
                    Some(e) => (Err(e), st),
                    None => {
                        let st0 = St {
                            env: st.env.push(frame_of(param_binds(ps, vs.skip(1)))),
                            out: st.out,
                        };
                        let (r, st1) = eval_spec(*body, st0, f);
                        (r, pop(st1))
                    },
                }
            },
            Val::Intrinsic(b) => (
                builtin_spec(b, vs.skip(1)),
                St { env: st.env, out: st.out + builtin_out(b, vs.skip(1)) },
            ),
            _ => (
                Err(ErrV::Type("function or intrinsic"@, kind_name(vs[0]), "first element of list"@)),
                st,
            ),
        }
    }
}

/// A list whose head is no special form: every element evaluated, then applied.
pub open spec fn call_spec(l: Seq<Val>, st: St, f: nat) -> (Result<Val, ErrV>, St)
    decreases f, 2int, 0int,
{
    let (r, st1) = eval_list_spec(l, st, f);
    match r {
        Err(e) => (Err(e), st1),
        Ok(vs) => apply_spec(vs, st1, f),
    }
}


// ---------------------------------------------------------------- executable evaluator

pub open spec fn list_res_view(r: Result<Vec<MalType>, MalErr>) -> Result<Seq<Val>, ErrV> {
    match r {
        Ok(v) => Ok(view_seq(v@)),
        Err(e) => Err(e@),
    }
}

pub open spec fn entries_res_view(r: Result<Vec<(String, MalType)>, MalErr>) -> Result<FrameV, ErrV> {
    match r {
        Ok(v) => Ok(view_entries(v@)),
        Err(e) => Err(e@),
    }
}

pub open spec fn unit_res_view(r: Result<bool, MalErr>) -> Result<(), ErrV> {
    match r {
        Ok(_) => Ok(()),
        Err(e) => Err(e@),
    }
}

pub open spec fn prepend(acc: Seq<Val>, p: (Result<Seq<Val>, ErrV>, St)) -> (Result<Seq<Val>, ErrV>, St) {
    (
        match p.0 {
            Ok(vs) => Ok(acc + vs),
            Err(e) => Err(e),
        },
        p.1,
    )
}

pub open spec fn prepend_entries(acc: FrameV, p: (Result<FrameV, ErrV>, St)) -> (Result<FrameV, ErrV>, St) {
    (
        match p.0 {
            Ok(vs) => Ok(acc + vs),
            Err(e) => Err(e),
        },
        p.1,
    )
}

fn eval_list(l: &Vec<MalType>, repl_env: &mut MalEnv, out: &mut Vec<String>, f: u64) -> (r: Result<
    Vec<MalType>,
    MalErr,
>)
    ensures
        eval_list_spec(view_seq(l@), state_of(*old(repl_env), *old(out)), f as nat) == (
            list_res_view(r),
            state_of(*final(repl_env), *final(out)),
        ),
        old(repl_env)@.len() > 0 ==> final(repl_env)@.len() == old(repl_env)@.len(),
    decreases f, 1int, l@.len(),
{
    let ghost vl = view_seq(l@);
    let ghost st0 = state_of(*repl_env, *out);
    let ghost n0 = repl_env@.len();
    proof {
        lemma_view_seq(l@);
        assert(vl.skip(0) =~= vl);
        assert(view_seq(Seq::<MalType>::empty()) =~= Seq::<Val>::empty());
        assert(Seq::<Val>::empty() + eval_list_spec(vl, st0, f as nat).0->Ok_0 =~= eval_list_spec(vl, st0, f as nat).0->Ok_0);
    }
    let mut acc: Vec<MalType> = Vec::new();
    let mut i: usize = 0;
    while i < l.len()
        invariant
            i <= l@.len(),
            vl == view_seq(l@),
            vl.len() == l@.len(),
            forall|j: int| 0 <= j < l@.len() ==> #[trigger] vl[j] == l@[j]@,
            n0 > 0 ==> repl_env@.len() == n0,
            n0 == old(repl_env)@.len(),
            st0 == state_of(*old(repl_env), *old(out)),
            eval_list_spec(vl, st0, f as nat) == prepend(
                view_seq(acc@),
                eval_list_spec(vl.skip(i as int), state_of(*repl_env, *out), f as nat),
            ),
        decreases l@.len() - i,
    {
        let ghost st = state_of(*repl_env, *out);
        proof {
            assert(vl.skip(i as int)[0] == vl[i as int]);
            assert(vl.skip(i as int).skip(1) =~= vl.skip(i + 1));
        }
        let x = match eval(&l[i], repl_env, out, f) {
            Ok(x) => x,
            Err(e) => {
                return Err(e);
            },
        };
        proof {
            let e = eval_list_spec(vl.skip(i + 1), state_of(*repl_env, *out), f as nat);
            crate::types::lemma_view_seq_push(acc@, x);
            match e.0 {
                Ok(vs) => {
                    assert(view_seq(acc@) + (seq![x@] + vs) =~= view_seq(acc@).push(x@) + vs);
                },
                Err(_) => {},
            }
        }
        acc.push(x);
        i += 1;
    }
    proof {
        assert(vl.skip(i as int) =~= Seq::<Val>::empty());
        assert(view_seq(acc@) + Seq::<Val>::empty() =~= view_seq(acc@));
    }
    Ok(acc)
}

fn eval_entries(
    d: &Vec<(String, MalType)>,
    repl_env: &mut MalEnv,
    out: &mut Vec<String>,
    f: u64,
) -> (r: Result<Vec<(String, MalType)>, MalErr>)
    ensures
        eval_entries_spec(view_entries(d@), state_of(*old(repl_env), *old(out)), f as nat) == (
            entries_res_view(r),
            state_of(*final(repl_env), *final(out)),
        ),
        r is Ok ==> view_entries(r->Ok_0@).len() == d@.len() && forall|j: int|
            0 <= j < d@.len() ==> #[trigger] view_entries(r->Ok_0@)[j].0 == view_entries(d@)[j].0,
        old(repl_env)@.len() > 0 ==> final(repl_env)@.len() == old(repl_env)@.len(),
    decreases f, 1int, d@.len(),
{
    let ghost vd = view_entries(d@);
    let ghost st0 = state_of(*repl_env, *out);
    let ghost n0 = repl_env@.len();
    proof {
        lemma_view_entries(d@);
        assert(vd.skip(0) =~= vd);
        assert(view_entries(Seq::<(String, MalType)>::empty()) =~= Seq::<(Seq<char>, Val)>::empty());
        assert(Seq::<(Seq<char>, Val)>::empty() + eval_entries_spec(vd, st0, f as nat).0->Ok_0 =~= eval_entries_spec(vd, st0, f as nat).0->Ok_0);
    }
    let mut acc: Vec<(String, MalType)> = Vec::new();
    let mut i: usize = 0;
    while i < d.len()
        invariant
            i <= d@.len(),
            vd == view_entries(d@),
            vd.len() == d@.len(),
            forall|j: int| 0 <= j < d@.len() ==> #[trigger] vd[j] == (d@[j].0@, d@[j].1@),
            n0 > 0 ==> repl_env@.len() == n0,
            n0 == old(repl_env)@.len(),
            st0 == state_of(*old(repl_env), *old(out)),
            view_entries(acc@).len() == i,
            forall|j: int| 0 <= j < i ==> #[trigger] view_entries(acc@)[j].0 == vd[j].0,
            eval_entries_spec(vd, st0, f as nat) == prepend_entries(
                view_entries(acc@),
                eval_entries_spec(vd.skip(i as int), state_of(*repl_env, *out), f as nat),
            ),
        decreases d@.len() - i,
    {
        proof {
            assert(vd.skip(i as int)[0] == vd[i as int]);
            assert(vd.skip(i as int).skip(1) =~= vd.skip(i + 1));
        }
        let x = match eval(&d[i].1, repl_env, out, f) {
            Ok(x) => x,
            Err(e) => {
                return Err(e);
            },
        };
        let entry = (d[i].0.clone(), x);
        proof {
            lemma_view_entries(acc@);
            let e = eval_entries_spec(vd.skip(i + 1), state_of(*repl_env, *out), f as nat);
            crate::types::lemma_view_entries_push(acc@, entry);
            match e.0 {
                Ok(vs) => {
                    assert(view_entries(acc@) + (seq![(vd[i as int].0, x@)] + vs) =~= view_entries(
                        acc@,
                    ).push((entry.0@, entry.1@)) + vs);
                },
                Err(_) => {},
            }
        }
        acc.push(entry);
        i += 1;
    }
    proof {
        lemma_view_entries(acc@);
        assert(vd.skip(i as int) =~= Seq::<(Seq<char>, Val)>::empty());
        assert(view_entries(acc@) + Seq::<(Seq<char>, Val)>::empty() =~= view_entries(acc@));
    }
    Ok(acc)
}

/// Evaluates a form without special forms.
fn eval_ast(mt: &MalType, repl_env: &mut MalEnv, out: &mut Vec<String>, f: u64) -> (r: Result<
    MalType,
    MalErr,
>)
    ensures
        ast_spec(mt@, state_of(*old(repl_env), *old(out)), f as nat) == (
            res_view(r),
            state_of(*final(repl_env), *final(out)),
        ),
        old(repl_env)@.len() > 0 ==> final(repl_env)@.len() == old(repl_env)@.len(),
        mt@ is Dictionary && dict_keys_unique(mt@) && r is Ok ==> r->Ok_0@ is Dictionary
            && dict_keys_unique(r->Ok_0@),
    decreases f, 2int, 0int,
{
    match mt {
        MalType::Symbol(sym) => match repl_env.get(sym.as_str()) {
            Some(x) => Ok(x),
            None => Err(MalErr::SymbolErr1(sym.clone())),
        },
        MalType::List(list) => match eval_list(list, repl_env, out, f) {
            Ok(vs) => Ok(MalType::List(vs)),
            Err(e) => Err(e),
        },
        MalType::Vector(list) => match eval_list(list, repl_env, out, f) {
            Ok(vs) => Ok(MalType::Vector(vs)),
            Err(e) => Err(e),
        },
        MalType::Dictionary(s, k) => {
            let s2 = match eval_entries(s, repl_env, out, f) {
                Ok(x) => x,
                Err(e) => {
                    return Err(e);
                },
            };
            let k2 = match eval_entries(k, repl_env, out, f) {
                Ok(x) => x,
                Err(e) => {
                    return Err(e);
                },
            };
            proof {
                lemma_view_entries(s@);
                lemma_view_entries(k@);
                if dict_keys_unique(mt@) {
                    lemma_same_keys_unique(view_entries(s@), view_entries(s2@));
                    lemma_same_keys_unique(view_entries(k@), view_entries(k2@));
                }
            }
            Ok(MalType::Dictionary(s2, k2))
        },
        _ => Ok(mt.deep_copy()),
    }
}

/// The first parameter that is not a symbol, as an error.
fn check_params(ps: &Vec<MalType>, ctx: &str) -> (r: Option<MalErr>)
    ensures
        match r {
            Some(e) => params_check(view_seq(ps@), ctx@) == Some(e@),
            None => params_check(view_seq(ps@), ctx@) is None,
        },
{
    let ghost vp = view_seq(ps@);
    proof {
        lemma_view_seq(ps@);
        assert(vp.skip(0) =~= vp);
    }
    let mut i: usize = 0;
    while i < ps.len()
        invariant
            i <= ps@.len(),
            vp == view_seq(ps@),
            vp.len() == ps@.len(),
            forall|j: int| 0 <= j < ps@.len() ==> #[trigger] vp[j] == ps@[j]@,
            params_check(vp, ctx@) == params_check(vp.skip(i as int), ctx@),
        decreases ps.len() - i,
    {
        proof {
            assert(vp.skip(i as int)[0] == vp[i as int]);
            assert(vp.skip(i as int).skip(1) =~= vp.skip(i + 1));
        }
        match &ps[i] {
            MalType::Symbol(_) => {},
            other => {
                return Some(type_error("symbol", other, ctx));
            },
        }
        i += 1;
    }
    None
}

fn eval_fn(list: &Vec<MalType>) -> (r: Result<MalType, MalErr>)
    ensures
        res_view(r) == fn_spec(view_seq(list@)),
        list@.len() != 3 ==> r is Err && r->Err_0 is ElementErr1,
{
    proof {
        lemma_view_seq(list@);
    }
    if list.len() != 3 {
        return Err(count_error("3 elements for a function definition", list.len(), " elements"));
    }
    match &list[1] {
        MalType::List(ps) => {
            match check_params(ps, "parameter of function definition") {
                Some(e) => Err(e),
                None => Ok(MalType::Function(copy_vec(ps), Box::new(list[2].deep_copy()))),
            }
        },
        other => Err(type_error("list", other, "list of parameter names")),
    }
}

fn eval_def(list: &Vec<MalType>, repl_env: &mut MalEnv, out: &mut Vec<String>, f: u64) -> (r: Result<
    MalType,
    MalErr,
>)
    requires
        list@.len() > 0,
    ensures
        def_spec(view_seq(list@), state_of(*old(repl_env), *old(out)), f as nat) == (
            res_view(r),
            state_of(*final(repl_env), *final(out)),
        ),
        old(repl_env)@.len() > 0 ==> final(repl_env)@.len() == old(repl_env)@.len(),
        list@.len() != 3 ==> r is Err && r->Err_0 is ElementErr1 && final(repl_env)@ == old(repl_env)@ && final(out)@ == old(out)@,
    decreases f, 1int, 0int,
{
    proof {
        lemma_view_seq(list@);
    }
    if list.len() != 3 {
        return Err(count_error("2 arguments for def!", list.len() - 1, " argument(s)"));
    }
    let evald_second = match eval(&list[2], repl_env, out, f) {
        Ok(x) => x,
        Err(e) => {
            return Err(e);
        },
    };
    match &list[1] {
        MalType::Symbol(sym) => {
            repl_env.set(sym.as_str(), evald_second.deep_copy());
            Ok(evald_second)
        },
        other => Err(type_error("symbol", other, "argument 1 to def!")),
    }
}

fn eval_if(list: &Vec<MalType>, repl_env: &mut MalEnv, out: &mut Vec<String>, f: u64) -> (r: Result<
    MalType,
    MalErr,
>)
    ensures
        if_spec(view_seq(list@), state_of(*old(repl_env), *old(out)), f as nat) == (
            res_view(r),
            state_of(*final(repl_env), *final(out)),
        ),
        old(repl_env)@.len() > 0 ==> final(repl_env)@.len() == old(repl_env)@.len(),
        list@.len() != 3 && list@.len() != 4 ==> r is Err && r->Err_0 is ElementErr1 && final(repl_env)@ == old(repl_env)@ && final(out)@ == old(out)@,
    decreases f, 1int, 0int,
{
    proof {
        lemma_view_seq(list@);
    }
    if list.len() != 3 && list.len() != 4 {
        return Err(count_error("3 or 4 arguments for if", list.len(), " arguments"));
    }
    let cond_result = match eval(&list[1], repl_env, out, f) {
        Ok(x) => x,
        Err(e) => {
            return Err(e);
        },
    };
    let truthy = match cond_result {
        MalType::Boolean(b) => b,
        MalType::NoValue => false,
        _ => true,
    };
    if truthy {
        eval(&list[2], repl_env, out, f)
    } else if list.len() == 4 {
        eval(&list[3], repl_env, out, f)
    } else {
        Ok(MalType::NoValue)
    }
}

fn eval_do(list: &Vec<MalType>, repl_env: &mut MalEnv, out: &mut Vec<String>, f: u64) -> (r: Result<
    MalType,
    MalErr,
>)
    requires
        list@.len() > 0,
    ensures
        do_spec(view_seq(list@), state_of(*old(repl_env), *old(out)), f as nat) == (
            res_view(r),
            state_of(*final(repl_env), *final(out)),
        ),
        old(repl_env)@.len() > 0 ==> final(repl_env)@.len() == old(repl_env)@.len(),
        list@.len() < 2 ==> r is Err && r->Err_0 is ElementErr1 && final(repl_env)@ == old(repl_env)@ && final(out)@ == old(out)@,
    decreases f, 4int, 0int,
{
    let ghost vl = view_seq(list@);
    proof {
        lemma_view_seq(list@);
    }
    if list.len() < 2 {
        return Err(count_error("at least 1 argument for do", list.len() - 1, " arguments"));
    }
    let ghost n0 = repl_env@.len();
    let mut i: usize = 1;
    loop
        invariant
            1 <= i < list@.len(),
            vl == view_seq(list@),
            vl.len() == list@.len(),
            forall|j: int| 0 <= j < list@.len() ==> #[trigger] vl[j] == list@[j]@,
            n0 > 0 ==> repl_env@.len() == n0,
            n0 == old(repl_env)@.len(),
            do_spec(vl, state_of(*old(repl_env), *old(out)), f as nat) == do_seq_spec(
                vl.skip(i as int),
                state_of(*repl_env, *out),
                f as nat,
            ),
        decreases list@.len() - i,
    {
        proof {
            assert(vl.skip(i as int)[0] == vl[i as int]);
            assert(vl.skip(i as int).skip(1) =~= vl.skip(i + 1));
        }
        let r = eval_ast(&list[i], repl_env, out, f);
        if i == list.len() - 1 {
            return r;
        }
        match r {
            Ok(_) => {},
            Err(e) => {
                return Err(e);
            },
        }
        i += 1;
    }
}

fn handle_let_bindings_internal(
    list: &Vec<MalType>,
    repl_env: &mut MalEnv,
    out: &mut Vec<String>,
    f: u64,
) -> (r: Result<bool, MalErr>)
    ensures
        let_items_spec(view_seq(list@), state_of(*old(repl_env), *old(out)), f as nat) == (
            unit_res_view(r),
            state_of(*final(repl_env), *final(out)),
        ),
        old(repl_env)@.len() > 0 ==> final(repl_env)@.len() == old(repl_env)@.len(),
    decreases f, 2int, 0int,
{
    let ghost vl = view_seq(list@);
    let ghost n0 = repl_env@.len();
    proof {
        lemma_view_seq(list@);
        assert(vl.skip(0) =~= vl);
    }
    if list.len() % 2 != 0 {
        return Err(count_error("an even number of list elements", list.len(), " list elements"));
    }
    let mut i: usize = 0;
    while i < list.len()
        invariant
            i <= list@.len(),
            i % 2 == 0,
            list@.len() % 2 == 0,
            vl == view_seq(list@),
            vl.len() == list@.len(),
            forall|j: int| 0 <= j < list@.len() ==> #[trigger] vl[j] == list@[j]@,
            n0 > 0 ==> repl_env@.len() == n0,
            n0 == old(repl_env)@.len(),
            bind_pairs_spec(vl, state_of(*old(repl_env), *old(out)), f as nat) == bind_pairs_spec(
                vl.skip(i as int),
                state_of(*repl_env, *out),
                f as nat,
            ),
        decreases list@.len() - i,
    {
        proof {
            assert(vl.skip(i as int)[0] == vl[i as int]);
            assert(vl.skip(i as int)[1] == vl[i + 1]);
            assert(vl.skip(i as int).skip(2) =~= vl.skip(i + 2));
        }
        let result = match eval(&list[i + 1], repl_env, out, f) {
            Ok(x) => x,
            Err(e) => {
                return Err(e);
            },
        };
        match &list[i] {
            MalType::Symbol(sym) => {
                repl_env.set(sym.as_str(), result);
            },
            other => {
                return Err(type_error("symbol", other, "let* binding"));
            },
        }
        i += 2;
    }
    proof {
        assert(vl.skip(i as int) =~= Seq::<Val>::empty());
    }
    Ok(true)
}

fn handle_let_bindings(mt: &MalType, repl_env: &mut MalEnv, out: &mut Vec<String>, f: u64) -> (r: Result<
    bool,
    MalErr,
>)
    ensures
        bindings_spec(mt@, state_of(*old(repl_env), *old(out)), f as nat) == (
            unit_res_view(r),
            state_of(*final(repl_env), *final(out)),
        ),
        old(repl_env)@.len() > 0 ==> final(repl_env)@.len() == old(repl_env)@.len(),
    decreases f, 2int, 1int,
{
    match mt {
        MalType::List(list) | MalType::Vector(list) => {
            handle_let_bindings_internal(list, repl_env, out, f)
        },
        other => Err(type_error("list or vector", other, "let* binding list")),
    }
}

fn eval_let(list: &Vec<MalType>, repl_env: &mut MalEnv, out: &mut Vec<String>, f: u64) -> (r: Result<
    MalType,
    MalErr,
>)
    requires
        list@.len() > 0,
    ensures
        let_spec(view_seq(list@), state_of(*old(repl_env), *old(out)), f as nat) == (
            res_view(r),
            state_of(*final(repl_env), *final(out)),
        ),
        old(repl_env)@.len() > 0 ==> final(repl_env)@.len() == old(repl_env)@.len(),
        list@.len() != 3 ==> r is Err && r->Err_0 is ElementErr1 && final(repl_env)@ == old(repl_env)@ && final(out)@ == old(out)@,
        final(repl_env)@ == old(repl_env)@,
    decreases f, 3int, 0int,
{
    proof {
        lemma_view_seq(list@);
    }
    if list.len() != 3 {
        return Err(count_error("2 arguments for let*", list.len() - 1, " argument(s)"));
    }
    proof {
        lemma_let_frames(view_seq(list@), state_of(*repl_env, *out), f as nat);
    }
    repl_env.new_env(None);
    let result = handle_let_bindings(&list[1], repl_env, out, f);
    if let Err(malerr) = result {
        repl_env.drop_env();
        return Err(malerr);
    }
    let eval_result = eval(&list[2], repl_env, out, f);
    repl_env.drop_env();
    eval_result
}

/// Applies the head of an evaluated list to the rest.
fn apply(list: &Vec<MalType>, repl_env: &mut MalEnv, out: &mut Vec<String>, f: u64) -> (r: Result<
    MalType,
    MalErr,
>)
    ensures
        apply_spec(view_seq(list@), state_of(*old(repl_env), *old(out)), f as nat) == (
            res_view(r),
            state_of(*final(repl_env), *final(out)),
        ),
        old(repl_env)@.len() > 0 ==> final(repl_env)@.len() == old(repl_env)@.len(),
        final(repl_env)@ == old(repl_env)@,
        list@.len() > 0 && list@[0] is Function && list@.len() - 1 != list@[0]->Function_0@.len()
            ==> r is Err && r->Err_0 is ElementErr1 && final(repl_env)@ == old(repl_env)@ && final(out)@ == old(out)@,
    decreases f, 1int, 0int,
{
    let ghost vl = view_seq(list@);
    proof {
        lemma_view_seq(list@);
        lemma_apply_frames(vl, state_of(*repl_env, *out), f as nat);
    }
    if list.len() < 1 {
        return Err(
            count_error("at least 1 list element for function call", list.len(), " elements"),
        );
    }
    let mut args: Vec<MalType> = Vec::new();
    let mut i: usize = 1;
    while i < list.len()
        invariant
            1 <= i <= list@.len(),
            vl == view_seq(list@),
            vl.len() == list@.len(),
            forall|j: int| 0 <= j < list@.len() ==> #[trigger] vl[j] == list@[j]@,
            view_seq(args@) == vl.subrange(1, i as int),
        decreases list@.len() - i,
    {
        let x = list[i].deep_copy();
        proof {
            crate::types::lemma_view_seq_push(args@, x);
            assert(vl.subrange(1, i + 1) =~= vl.subrange(1, i as int).push(vl[i as int]));
        }
        args.push(x);
        i += 1;
    }
    proof {
        assert(vl.subrange(1, i as int) =~= vl.skip(1));
        lemma_view_seq(args@);
    }
    match &list[0] {
        MalType::Function(fparms, fbody) => {
            proof {
                lemma_view_seq(fparms@);
            }
            if list.len() - 1 != fparms.len() {
                return Err(
                    MalErr::ElementErr1(
                        count_text(fparms.len(), " arguments for function call"),
                        count_text(list.len() - 1, " arguments"),
                    ),
                );
            }
            match check_params(fparms, "parameter of function call") {
                Some(e) => {
                    return Err(e);
                },
                None => {},
            }
            let ghost vp = view_seq(fparms@);
            let mut pairs: Vec<(String, MalType)> = Vec::new();
            let mut j: usize = 0;
            while j < fparms.len()
                invariant
                    j <= fparms@.len(),
                    fparms@.len() == args@.len(),
                    vp == view_seq(fparms@),
                    vp.len() == fparms@.len(),
                    forall|k: int| 0 <= k < fparms@.len() ==> #[trigger] vp[k] == fparms@[k]@,
                    view_seq(args@).len() == args@.len(),
                    forall|k: int| 0 <= k < args@.len() ==> #[trigger] view_seq(args@)[k] == args@[k]@,
                    view_entries(pairs@) == param_binds(vp, view_seq(args@)).take(j as int),
                decreases fparms@.len() - j,
            {
                let name = match &fparms[j] {
                    MalType::Symbol(s) => s.clone(),
                    _ => String::new(),
                };
                proof {
                    assert(name@ == sym_of(vp[j as int])) by {
                        reveal_strlit("");
                    }
                }
                let entry = (name, args[j].deep_copy());
                proof {
                    crate::types::lemma_view_entries_push(pairs@, entry);
                    assert(param_binds(vp, view_seq(args@)).take(j + 1) =~= param_binds(
                        vp,
                        view_seq(args@),
                    ).take(j as int).push((entry.0@, entry.1@)));
                }
                pairs.push(entry);
                j += 1;
            }
            proof {
                assert(param_binds(vp, view_seq(args@)).take(j as int) =~= param_binds(
                    vp,
                    view_seq(args@),
                ));
            }
            repl_env.new_env(Some(pairs));
            let ret_val = eval(fbody, repl_env, out, f);
            repl_env.drop_env();
            ret_val
        },
        MalType::Intrinsic(b) => call_builtin(*b, &args, out),
        other => Err(type_error("function or intrinsic", other, "first element of list")),
    }
}

/// Evaluates a form.
pub fn eval(mt: &MalType, repl_env: &mut MalEnv, out: &mut Vec<String>, fuel: u64) -> (r: Result<
    MalType,
    MalErr,
>)
    ensures
        eval_spec(mt@, state_of(*old(repl_env), *old(out)), fuel as nat) == (
            res_view(r),
            state_of(*final(repl_env), *final(out)),
        ),
        old(repl_env)@.len() > 0 ==> final(repl_env)@.len() == old(repl_env)@.len(),
    decreases fuel, 0int, 0int,
{
    if fuel == 0 {
        return Err(MalErr::DepthErr);
    }
    let f = fuel - 1;
    match mt {
        MalType::List(list) => {
            if list.len() == 0 {
                proof {
                    assert(view_seq(list@) =~= Seq::<Val>::empty());
                    assert(view_seq(Seq::<MalType>::empty()) =~= Seq::<Val>::empty());
                }
                return Ok(MalType::List(Vec::new()));
            }
            proof {
                lemma_view_seq(list@);
            }
            if let MalType::Symbol(sym) = &list[0] {
                if is_text(sym, "def!") {
                    return eval_def(list, repl_env, out, f);
                }
                if is_text(sym, "do") {
                    return eval_do(list, repl_env, out, f);
                }
                if is_text(sym, "fn*") {
                    return eval_fn(list);
                }
                if is_text(sym, "if") {
                    return eval_if(list, repl_env, out, f);
                }
                if is_text(sym, "let*") {
                    return eval_let(list, repl_env, out, f);
                }
            }
            let evald_list = match eval_list(list, repl_env, out, f) {
                Ok(l) => l,
                Err(e) => {
                    return Err(e);
                },
            };
            apply(&evald_list, repl_env, out, f)
        },
        _ => eval_ast(mt, repl_env, out, f),
    }
}


/// How deeply `rep` lets evaluation nest: in practice only the native stack bounds it.
pub const MAX_DEPTH: u64 = 0xffff_ffff_ffff_ffff;

/// The text of a read-eval-print step: the printed value, or the error.
pub open spec fn rep_spec(ts: Seq<Seq<char>>, st: St) -> (Result<Seq<char>, ErrV>, St) {
    match read_spec(ts) {
        Err(m) => (Err(ErrV::Generic(m)), st),
        Ok(v) => {
            let (r, st1) = eval_spec(v, st, MAX_DEPTH as nat);
            (
                match r {
                    Ok(x) => Ok(print_val(x, true)),
                    Err(e) => Err(e),
                },
                st1,
            )
        },
    }
}

pub open spec fn text_res_view(r: Result<String, MalErr>) -> Result<Seq<char>, ErrV> {
    match r {
        Ok(s) => Ok(s@),
        Err(e) => Err(e@),
    }
}

/// Reads the first form of `buffer`, evaluates it, and prints the result readably.
pub fn rep(buffer: String, repl_env: &mut MalEnv, out: &mut Vec<String>) -> (r: Result<String, MalErr>)
    ensures
        rep_spec(tokens_of(buffer@), state_of(*old(repl_env), *old(out))) == (
            text_res_view(r),
            state_of(*final(repl_env), *final(out)),
        ),
        old(repl_env)@.len() > 0 ==> final(repl_env)@.len() == old(repl_env)@.len(),
{
    let mt = match read_str(buffer) {
        Ok(mt) => mt,
        Err(err_str) => {
            return Err(MalErr::Generic1(err_str.to_owned()));
        },
    };
    match eval(&mt, repl_env, out, MAX_DEPTH) {
        Ok(v) => Ok(pr_str(&v, true)),
        Err(e) => Err(e),
    }
}

} // verus!
