use vstd::prelude::*;
use crate::types::{MalType, Val, view_seq, view_entries, lemma_view_seq_push, lemma_view_entries_push};
use crate::env::FrameV;
use crate::text::{chars_of, push_text, int_to_text, int_text};
use crate::reader::toks;

verus! {

/// The escaped form of one character in a readable string.
pub open spec fn escape_char(c: char) -> Seq<char> {
    if c == '\n' {
        seq!['\\', 'n']
    } else if c == '\\' {
        seq!['\\', '\\']
    } else if c == '"' {
        seq!['\\', '"']
    } else {
        seq![c]
    }
}

/// The escaped form of a text: newline, backslash and quote get a backslash.
pub open spec fn escape(s: Seq<char>) -> Seq<char>
    decreases s.len(),
{
    if s.len() == 0 {
        Seq::empty()
    } else {
        escape(s.drop_last()) + escape_char(s.last())
    }
}

/// A string in quotes, escaped.
pub open spec fn quoted(s: Seq<char>) -> Seq<char> {
    seq!['"'] + escape(s) + seq!['"']
}

/// The texts joined by single spaces.
pub open spec fn join(items: Seq<Seq<char>>) -> Seq<char>
    decreases items.len(),
{
    if items.len() == 0 {
        Seq::empty()
    } else if items.len() == 1 {
        items[0]
    } else {
        join(items.drop_last()) + seq![' '] + items.last()
    }
}

/// The printed values, joined by single spaces.
pub open spec fn join_vals(l: Seq<Val>, readable: bool) -> Seq<char>
    decreases l,
{
    if l.len() == 0 {
        Seq::empty()
    } else if l.len() == 1 {
        print_val(l[0], readable)
    } else {
        join_vals(l.drop_last(), readable) + seq![' '] + print_val(l.last(), readable)
    }
}

/// The texts of a dictionary's entries: key, then value, for each.
pub open spec fn entry_texts(s: FrameV, keyword: bool, readable: bool) -> Seq<Seq<char>>
    decreases s,
{
    if s.len() == 0 {
        Seq::empty()
    } else {
        entry_texts(s.drop_last(), keyword, readable).push(
            if keyword {
                seq![':'] + s.last().0
            } else {
                quoted(s.last().0)
            },
        ).push(print_val(s.last().1, readable))
    }
}

/// The text of a value; `readable` quotes and escapes strings.
pub open spec fn print_val(v: Val, readable: bool) -> Seq<char>
    decreases v,
{
    match v {
        Val::Boolean(b) => if b {
            "true"@
        } else {
            "false"@
        },
        Val::Dictionary(s, k) => seq!['{'] + join(
            entry_texts(s, false, readable) + entry_texts(k, true, readable),
        ) + seq!['}'],
        Val::Function(_, _) => "#function"@,
        Val::Intrinsic(_) => "#intrinsic"@,
        Val::Keyword(k) => seq![':'] + k,
        Val::List(l) => seq!['('] + join_vals(l, readable) + seq![')'],
        Val::Vector(l) => seq!['['] + join_vals(l, readable) + seq![']'],
        Val::Number(n) => int_text(n as int),
        Val::Symbol(a) => a,
        Val::Str(a) => if readable {
            quoted(a)
        } else {
            a
        },
        Val::NoValue => "nil"@,
    }
}

fn format_string(in_str: &String) -> (r: String)
    ensures
        r@ == quoted(in_str@),
{
    let cs = chars_of(in_str.as_str());
    let mut ret_str = String::new();
    ret_str.push('"');
    let mut i: usize = 0;
    while i < cs.len()
        invariant
            i <= cs@.len(),
            ret_str@ == seq!['"'] + escape(cs@.take(i as int)),
        decreases cs.len() - i,
    {
        let c = cs[i];
        proof {
            assert(cs@.take(i + 1).drop_last() =~= cs@.take(i as int));
        }
        if c == '\n' {
            ret_str.push('\\');
            ret_str.push('n');
        } else if c == '\\' {
            ret_str.push('\\');
            ret_str.push('\\');
        } else if c == '"' {
            ret_str.push('\\');
            ret_str.push('"');
        } else {
            ret_str.push(c);
        }
        proof {
            assert(ret_str@ =~= seq!['"'] + escape(cs@.take(i + 1)));
        }
        i += 1;
    }
    ret_str.push('"');
    proof {
        assert(cs@.take(i as int) =~= cs@);
        assert(ret_str@ =~= quoted(in_str@));
    }
    ret_str
}

fn format_keyword(in_key: &String) -> (r: String)
    ensures
        r@ == seq![':'] + in_key@,
{
    let mut ret_str = String::new();
    ret_str.push(':');
    push_text(&mut ret_str, in_key.as_str());
    ret_str
}

fn pr_mallist(mallist: &Vec<MalType>, print_readably: bool) -> (r: String)
    ensures
        r@ == join_vals(view_seq(mallist@), print_readably),
    decreases mallist,
{
    let mut ret = String::new();
    let mut i: usize = 0;
    while i < mallist.len()
        invariant
            i <= mallist@.len(),
            ret@ == join_vals(view_seq(mallist@.take(i as int)), print_readably),
        decreases mallist.len() - i,
    {
        proof {
            assert(decreases_to!(mallist => mallist[i as int]));
            lemma_view_seq_push(mallist@.take(i as int), mallist@[i as int]);
            assert(mallist@.take(i + 1) =~= mallist@.take(i as int).push(mallist@[i as int]));
            assert(view_seq(mallist@.take(i as int)).push(mallist@[i as int]@).drop_last()
                =~= view_seq(mallist@.take(i as int)));
        }
        let item = pr_str(&mallist[i], print_readably);
        if i > 0 {
            ret.push(' ');
        }
        push_text(&mut ret, item.as_str());
        proof {
            crate::types::lemma_view_seq(mallist@.take(i as int));
            if i == 0 {
                assert(ret@ =~= join_vals(view_seq(mallist@.take(i + 1)), print_readably));
            } else {
                assert(ret@ =~= join_vals(view_seq(mallist@.take(i + 1)), print_readably));
            }
        }
        i += 1;
    }
    proof {
        assert(mallist@.take(i as int) =~= mallist@);
    }
    ret
}


/// The texts joined by single spaces.
pub fn join_texts(items: &Vec<String>) -> (r: String)
    ensures
        r@ == join(toks(items@)),
{
    let mut ret = String::new();
    let mut i: usize = 0;
    while i < items.len()
        invariant
            i <= items@.len(),
            ret@ == join(toks(items@).take(i as int)),
        decreases items.len() - i,
    {
        proof {
            assert(toks(items@).take(i + 1).drop_last() =~= toks(items@).take(i as int));
        }
        if i > 0 {
            ret.push(' ');
        }
        push_text(&mut ret, items[i].as_str());
        proof {
            assert(ret@ =~= join(toks(items@).take(i + 1)));
        }
        i += 1;
    }
    proof {
        assert(toks(items@).take(i as int) =~= toks(items@));
    }
    ret
}

/// Appends the key and value texts of each entry of one key space.
fn pr_maldict(
    vals: &mut Vec<String>,
    d: &Vec<(String, MalType)>,
    keyword: bool,
    print_readably: bool,
)
    ensures
        toks(final(vals)@) == toks(old(vals)@) + entry_texts(view_entries(d@), keyword, print_readably),
    decreases d,
{
    let ghost start = toks(vals@);
    let mut i: usize = 0;
    proof {
        assert(start =~= start + entry_texts(view_entries(d@.take(0)), keyword, print_readably));
    }
    while i < d.len()
        invariant
            i <= d@.len(),
            toks(vals@) == start + entry_texts(view_entries(d@.take(i as int)), keyword, print_readably),
        decreases d.len() - i,
    {
        proof {
            assert(decreases_to!(d => d[i as int]));
            lemma_view_entries_push(d@.take(i as int), d@[i as int]);
            assert(d@.take(i + 1) =~= d@.take(i as int).push(d@[i as int]));
            assert(view_entries(d@.take(i as int)).push((d@[i as int].0@, d@[i as int].1@)).drop_last()
                =~= view_entries(d@.take(i as int)));
        }
        let key = if keyword {
            format_keyword(&d[i].0)
        } else {
            format_string(&d[i].0)
        };
        let val = pr_str(&d[i].1, print_readably);
        let ghost before = vals@;
        vals.push(key);
        vals.push(val);
        proof {
            assert(toks(vals@) =~= toks(before).push(key@).push(val@));
            assert(toks(vals@) =~= start + entry_texts(view_entries(d@.take(i + 1)), keyword, print_readably));
        }
        i += 1;
    }
    proof {
        assert(d@.take(i as int) =~= d@);
    }
}

/// The text of a value; `print_readably` quotes and escapes strings.
pub fn pr_str(maltype: &MalType, print_readably: bool) -> (r: String)
    ensures
        r@ == print_val(maltype@, print_readably),
    decreases maltype,
{
    match maltype {
        MalType::Boolean(b) => if *b {
            "true".to_owned()
        } else {
            "false".to_owned()
        },
        MalType::Dictionary(s, k) => {
            let mut r = String::new();
            r.push('{');
            let mut vals: Vec<String> = Vec::new();
            proof {
                assert(toks(vals@) =~= Seq::<Seq<char>>::empty());
            }
            pr_maldict(&mut vals, s, false, print_readably);
            pr_maldict(&mut vals, k, true, print_readably);
            proof {
                assert(toks(vals@) =~= entry_texts(view_entries(s@), false, print_readably)
                    + entry_texts(view_entries(k@), true, print_readably));
            }
            let inner = join_texts(&vals);
            push_text(&mut r, inner.as_str());
            r.push('}');
            proof {
                assert(r@ =~= print_val(maltype@, print_readably));
            }
            r
        },
        MalType::Function(_, _) => "#function".to_owned(),
        MalType::Intrinsic(_) => "#intrinsic".to_owned(),
        MalType::Keyword(k) => format_keyword(k),
        MalType::List(l) => {
            let mut r = String::new();
            r.push('(');
            let inner = pr_mallist(l, print_readably);
            push_text(&mut r, inner.as_str());
            r.push(')');
            proof {
                assert(r@ =~= print_val(maltype@, print_readably));
            }
            r
        },
        MalType::Vector(v) => {
            let mut r = String::new();
            r.push('[');
            let inner = pr_mallist(v, print_readably);
            push_text(&mut r, inner.as_str());
            r.push(']');
            proof {
                assert(r@ =~= print_val(maltype@, print_readably));
            }
            r
        },
        MalType::Number(a) => int_to_text(*a),
        MalType::Symbol(a) => a.clone(),
        MalType::Str(a) => {
            if print_readably {
                format_string(a)
            } else {
                a.clone()
            }
        },
        MalType::NoValue => "nil".to_owned(),
    }
}

} // verus!
