use vstd::prelude::*;
use crate::types::Val;
use crate::env::{FrameV, env_set, env_get};
use crate::eval::{
    St, eval_spec, eval_list_spec, eval_entries_spec, ast_spec, def_spec, do_spec, do_seq_spec,
    if_spec, bind_pairs_spec, bindings_spec, let_items_spec, let_spec, apply_spec, call_spec,
};

verus! {

/// Two frame stacks of one height that differ at most in the innermost frame.
pub open spec fn same_outer(a: Seq<FrameV>, b: Seq<FrameV>) -> bool {
    a.len() == b.len() && a.len() > 0 && a.drop_last() == b.drop_last()
}

proof fn lemma_set_outer(e: Seq<FrameV>, k: Seq<char>, v: Val)
    requires
        e.len() > 0,
    ensures
        same_outer(e, env_set(e, k, v)),
{
    assert(env_set(e, k, v).drop_last() =~= e.drop_last());
}

proof fn lemma_push_pop(e: Seq<FrameV>, fr: FrameV, e2: Seq<FrameV>)
    requires
        same_outer(e.push(fr), e2),
    ensures
        e2.drop_last() == e,
{
    assert(e.push(fr).drop_last() =~= e);
}

/// Evaluation changes at most the innermost scope frame.
pub proof fn lemma_eval_frames(v: Val, st: St, fuel: nat)
    requires
        st.env.len() > 0,
    ensures
        same_outer(st.env, eval_spec(v, st, fuel).1.env),
    decreases fuel, 0int, 0int,
{
    if fuel > 0 {
        let f = (fuel - 1) as nat;
        match v {
            Val::List(l) => if l.len() == 0 {
            } else if l[0] == Val::Symbol("def!"@) {
                lemma_def_frames(l, st, f);
            } else if l[0] == Val::Symbol("do"@) {
                lemma_do_frames(l, st, f);
            } else if l[0] == Val::Symbol("fn*"@) {
            } else if l[0] == Val::Symbol("if"@) {
                lemma_if_frames(l, st, f);
            } else if l[0] == Val::Symbol("let*"@) {
                lemma_let_frames(l, st, f);
            } else {
                lemma_call_frames(l, st, f);
            },
            _ => {
                lemma_ast_frames(v, st, f);
            },
        }
    }
}

proof fn lemma_list_frames(l: Seq<Val>, st: St, f: nat)
    requires
        st.env.len() > 0,
    ensures
        same_outer(st.env, eval_list_spec(l, st, f).1.env),
    decreases f, 1int, l.len(),
{
    if l.len() > 0 {
        lemma_eval_frames(l[0], st, f);
        let (r, st1) = eval_spec(l[0], st, f);
        if r is Ok {
            lemma_list_frames(l.skip(1), st1, f);
        }
    }
}

proof fn lemma_entries_frames(d: FrameV, st: St, f: nat)
    requires
        st.env.len() > 0,
    ensures
        same_outer(st.env, eval_entries_spec(d, st, f).1.env),
    decreases f, 1int, d.len(),
{
    if d.len() > 0 {
        lemma_eval_frames(d[0].1, st, f);
        let (r, st1) = eval_spec(d[0].1, st, f);
        if r is Ok {
            lemma_entries_frames(d.skip(1), st1, f);
        }
    }
}

proof fn lemma_ast_frames(v: Val, st: St, f: nat)
    requires
        st.env.len() > 0,
    ensures
        same_outer(st.env, ast_spec(v, st, f).1.env),
    decreases f, 2int, 0int,
{
    match v {
        Val::List(l) => {
            lemma_list_frames(l, st, f);
        },
        Val::Vector(l) => {
            lemma_list_frames(l, st, f);
        },
        Val::Dictionary(s, k) => {
            lemma_entries_frames(s, st, f);
            let (r1, st1) = eval_entries_spec(s, st, f);
            if r1 is Ok {
                lemma_entries_frames(k, st1, f);
            }
        },
        _ => {},
    }
}

proof fn lemma_def_frames(l: Seq<Val>, st: St, f: nat)
    requires
        st.env.len() > 0,
    ensures
        same_outer(st.env, def_spec(l, st, f).1.env),
    decreases f, 1int, 0int,
{
    if l.len() == 3 {
        lemma_eval_frames(l[2], st, f);
        let (r, st1) = eval_spec(l[2], st, f);
        if let Ok(x) = r {
            if let Val::Symbol(name) = l[1] {
                lemma_set_outer(st1.env, name, x);
            }
        }
    }
}

proof fn lemma_do_frames(l: Seq<Val>, st: St, f: nat)
    requires
        st.env.len() > 0,
    ensures
        same_outer(st.env, do_spec(l, st, f).1.env),
    decreases f, 4int, 0int,
{
    if l.len() >= 2 {
        lemma_do_seq_frames(l.skip(1), st, f);
    }
}

proof fn lemma_do_seq_frames(ops: Seq<Val>, st: St, f: nat)
    requires
        st.env.len() > 0,
    ensures
        same_outer(st.env, do_seq_spec(ops, st, f).1.env),
    decreases f, 3int, ops.len(),
{
    if ops.len() > 0 {
        lemma_ast_frames(ops[0], st, f);
        let (r, st1) = ast_spec(ops[0], st, f);
        if ops.len() > 1 && r is Ok {
            lemma_do_seq_frames(ops.skip(1), st1, f);
        }
    }
}

proof fn lemma_if_frames(l: Seq<Val>, st: St, f: nat)
    requires
        st.env.len() > 0,
    ensures
        same_outer(st.env, if_spec(l, st, f).1.env),
    decreases f, 1int, 0int,
{
    if l.len() == 3 || l.len() == 4 {
        lemma_eval_frames(l[1], st, f);
        let (r, st1) = eval_spec(l[1], st, f);
        if r is Ok {
            lemma_eval_frames(l[2], st1, f);
            if l.len() == 4 {
                lemma_eval_frames(l[3], st1, f);
            }
        }
    }
}

proof fn lemma_bind_pairs_frames(items: Seq<Val>, st: St, f: nat)
    requires
        st.env.len() > 0,
    ensures
        same_outer(st.env, bind_pairs_spec(items, st, f).1.env),
    decreases f, 1int, items.len(),
{
    if items.len() >= 2 {
        lemma_eval_frames(items[1], st, f);
        let (r, st1) = eval_spec(items[1], st, f);
        if let Ok(x) = r {
            if let Val::Symbol(name) = items[0] {
                lemma_set_outer(st1.env, name, x);
                let st2 = St { env: env_set(st1.env, name, x), out: st1.out };
                lemma_bind_pairs_frames(items.skip(2), st2, f);
            }
        }
    }
}

proof fn lemma_let_items_frames(items: Seq<Val>, st: St, f: nat)
    requires
        st.env.len() > 0,
    ensures
        same_outer(st.env, let_items_spec(items, st, f).1.env),
    decreases f, 2int, 0int,
{
    lemma_bind_pairs_frames(items, st, f);
}

proof fn lemma_bindings_frames(b: Val, st: St, f: nat)
    requires
        st.env.len() > 0,
    ensures
        same_outer(st.env, bindings_spec(b, st, f).1.env),
    decreases f, 2int, 1int,
{
    match b {
        Val::List(items) => {
            lemma_let_items_frames(items, st, f);
        },
        Val::Vector(items) => {
            lemma_let_items_frames(items, st, f);
        },
        _ => {},
    }
}

/// A `let*` leaves the scope frames exactly as it found them.
pub proof fn lemma_let_frames(l: Seq<Val>, st: St, f: nat)
    ensures
        let_spec(l, st, f).1.env == st.env,
    decreases f, 3int, 0int,
{
    if l.len() == 3 {
        let st0 = St { env: st.env.push(Seq::empty()), out: st.out };
        lemma_bindings_frames(l[1], st0, f);
        let (r, st1) = bindings_spec(l[1], st0, f);
        if r is Ok {
            lemma_eval_frames(l[2], st1, f);
            let (r2, st2) = eval_spec(l[2], st1, f);
            lemma_push_pop(st.env, Seq::empty(), st2.env);
        } else {
            lemma_push_pop(st.env, Seq::empty(), st1.env);
        }
    }
}

/// A function call, or an intrinsic call, leaves the scope frames as it found them.
pub proof fn lemma_apply_frames(vs: Seq<Val>, st: St, f: nat)
    ensures
        apply_spec(vs, st, f).1.env == st.env,
    decreases f, 1int, 0int,
{
    if vs.len() > 0 {
        if let Val::Function(ps, body) = vs[0] {
            if vs.len() - 1 == ps.len() {
                let fr = crate::env::frame_of(crate::eval::param_binds(ps, vs.skip(1)));
                let st0 = St { env: st.env.push(fr), out: st.out };
                lemma_eval_frames(*body, st0, f);
                lemma_push_pop(st.env, fr, eval_spec(*body, st0, f).1.env);
            }
        }
    }
}

proof fn lemma_call_frames(l: Seq<Val>, st: St, f: nat)
    requires
        st.env.len() > 0,
    ensures
        same_outer(st.env, call_spec(l, st, f).1.env),
    decreases f, 2int, 0int,
{
    lemma_list_frames(l, st, f);
    let (r, st1) = eval_list_spec(l, st, f);
    if let Ok(vs) = r {
        lemma_apply_frames(vs, st1, f);
    }
}


/// A `let*` form leaves the scope frames exactly as it found them: every name looks up
/// afterwards as it did before, so a binding made inside, shadowing or not, is gone once
/// the form returns.
pub proof fn lemma_let_restores_scope(l: Seq<Val>, st: St, fuel: nat)
    requires
        fuel > 0,
        l.len() > 0,
        l[0] == Val::Symbol("let*"@),
    ensures
        eval_spec(Val::List(l), st, fuel).1.env == st.env,
        forall|k: Seq<char>|
            #[trigger] env_get(eval_spec(Val::List(l), st, fuel).1.env, k) == env_get(st.env, k),
{
    reveal_strlit("def!");
    reveal_strlit("let*");
    reveal_strlit("fn*");
    reveal_strlit("if");
    reveal_strlit("do");
    assert("let*"@ != "def!"@) by {
        assert("def!"@[0] != "let*"@[0]);
    }
    assert("let*"@ != "do"@) by {
        assert("do"@.len() != "let*"@.len());
    }
    assert("let*"@ != "fn*"@) by {
        assert("fn*"@.len() != "let*"@.len());
    }
    assert("let*"@ != "if"@) by {
        assert("if"@.len() != "let*"@.len());
    }
    lemma_let_frames(l, st, (fuel - 1) as nat);
}

} // verus!
