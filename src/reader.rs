use vstd::prelude::*;
use crate::types::{MalType, Val, view_seq, lemma_view_seq_push};
use crate::env::{FrameV, frame_set, MalNameSpace, keys_unique, dict_keys_unique};
use crate::text::{chars_of, is_text};

verus! {

// ---------------------------------------------------------------- tokens

/// The tokens that the tokenizing pattern yields for a text, in order.
pub uninterp spec fn tokens_of(s: Seq<char>) -> Seq<Seq<char>>;

/// Relies on `regex::Regex::new` and `regex::Regex::captures_iter`: the first group of
/// each match of a fixed pattern, taken in order; the result depends on the text alone.
#[verifier::external_body]
fn tokenize(buffer: &str) -> (r: Vec<String>)
    ensures
        r@.len() == tokens_of(buffer@).len(),
        forall|i: int| 0 <= i < r@.len() ==> #[trigger] r@[i]@ == tokens_of(buffer@)[i],
{
    let re = regex::Regex::new(
        r#"[\s,]*(~@|[\[\]{}()'`~^@]|"(?:\\.|[^\\"])*"?|;.*|[^\s\[\]{}('"`,;)]*)"#,
    ).unwrap();
    re.captures_iter(buffer).map(|c| c[1].to_string()).collect()
}

/// Whether a token stands for something: empty tokens and comments do not.
pub open spec fn is_significant(t: Seq<char>) -> bool {
    t.len() > 0 && t[0] != ';'
}

/// The tokens that stand for something, in order.
pub open spec fn significant(ts: Seq<Seq<char>>) -> Seq<Seq<char>>
    decreases ts.len(),
{
    if ts.len() == 0 {
        Seq::empty()
    } else if is_significant(ts.last()) {
        significant(ts.drop_last()).push(ts.last())
    } else {
        significant(ts.drop_last())
    }
}

// ---------------------------------------------------------------- atoms

pub open spec fn is_digit(c: char) -> bool {
    '0' <= c && c <= '9'
}

pub open spec fn all_digits(s: Seq<char>) -> bool {
    forall|i: int| 0 <= i < s.len() ==> #[trigger] is_digit(s[i])
}

pub open spec fn digit_value(c: char) -> int {
    (c as u32) as int - ('0' as u32) as int
}

/// The number that a run of decimal digits denotes.
pub open spec fn digits_value(s: Seq<char>) -> int
    decreases s.len(),
{
    if s.len() == 0 {
        0
    } else {
        digits_value(s.drop_last()) * 10 + digit_value(s.last())
    }
}

/// The integer that a literal `-?[0-9]+` denotes.
pub open spec fn literal_value(t: Seq<char>) -> Option<int> {
    if t.len() > 0 && t[0] == '-' {
        let d = t.skip(1);
        if d.len() > 0 && all_digits(d) {
            Some(-digits_value(d))
        } else {
            None
        }
    } else if t.len() > 0 && all_digits(t) {
        Some(digits_value(t))
    } else {
        None
    }
}

/// The 64-bit integer that a literal denotes, if it is one and fits.
pub open spec fn parse_number(t: Seq<char>) -> Option<i64> {
    match literal_value(t) {
        Some(v) => if i64::MIN <= v <= i64::MAX {
            Some(v as i64)
        } else {
            None
        },
        None => None,
    }
}

/// Decoding of a string literal's text after its opening quote.
pub open spec fn unescape(sl: Seq<char>, esc: bool, out: Seq<char>) -> Result<Seq<char>, Seq<char>>
    decreases sl.len(),
{
    if sl.len() == 0 {
        Err("unbalanced string: no terminating doublequote found for string"@)
    } else {
        let c = sl[0];
        let rest = sl.skip(1);
        if c == 'n' {
            unescape(rest, false, out.push(if esc { '\n' } else { 'n' }))
        } else if c == '"' {
            if esc {
                unescape(rest, false, out.push('"'))
            } else if rest.len() == 0 {
                Ok(out)
            } else {
                Err("Internal Error: found doublequote in middle of string"@)
            }
        } else if c == '\\' {
            if esc {
                unescape(rest, false, out.push('\\'))
            } else {
                unescape(rest, true, out)
            }
        } else {
            unescape(rest, false, out.push(c))
        }
    }
}

/// The text of a string literal token, which starts with a quote.
pub open spec fn string_literal(t: Seq<char>) -> Result<Seq<char>, Seq<char>> {
    if t.len() == 1 {
        Err("unbalanced string"@)
    } else if t.len() == 2 {
        if t[1] == '"' {
            Ok(Seq::empty())
        } else {
            Err("unbalanced string"@)
        }
    } else {
        unescape(t.skip(1), false, Seq::empty())
    }
}

/// The value of a bare token, classified by its first character.
pub open spec fn atom_of(t: Seq<char>) -> Result<Val, Seq<char>> {
    let c = t[0];
    if is_digit(c) || (c == '-' && t.len() > 1 && is_digit(t[1])) {
        match parse_number(t) {
            Some(n) => Ok(Val::Number(n)),
            None => Err("failed to convert string to integer"@),
        }
    } else if t == "false"@ {
        Ok(Val::Boolean(false))
    } else if t == "true"@ {
        Ok(Val::Boolean(true))
    } else if t == "nil"@ {
        Ok(Val::NoValue)
    } else if c == ':' {
        Ok(Val::Keyword(t.skip(1)))
    } else if c == '"' {
        match string_literal(t) {
            Ok(s) => Ok(Val::Str(s)),
            Err(e) => Err(e),
        }
    } else {
        Ok(Val::Symbol(t))
    }
}

// ---------------------------------------------------------------- forms

/// Reads one form at `pos`; gives the value and the position after it.
pub open spec fn form_at(ts: Seq<Seq<char>>, pos: int) -> Result<(Val, int), Seq<char>>
    decreases ts.len() - pos, 0int,
{
    if pos < 0 || pos >= ts.len() {
        Err("unexpected end of input"@)
    } else {
        let t = ts[pos];
        if t.len() > 0 && (t[0] == '(' || t[0] == '[') {
            let close = if t[0] == '(' { ")"@ } else { "]"@ };
            match seq_at(ts, pos + 1, close, Seq::empty()) {
                Ok((items, p)) => Ok(
                    (if t[0] == '(' { Val::List(items) } else { Val::Vector(items) }, p),
                ),
                Err(e) => Err(e),
            }
        } else if t.len() > 0 && t[0] == '{' {
            dict_at(ts, pos + 1, None, Seq::empty(), Seq::empty())
        } else if t.len() > 0 {
            match atom_of(t) {
                Ok(v) => Ok((v, pos + 1)),
                Err(e) => Err(e),
            }
        } else {
            Err("unexpected end of input"@)
        }
    }
}

/// Reads forms from `pos` up to the token `close`, after the items `acc`.
pub open spec fn seq_at(ts: Seq<Seq<char>>, pos: int, close: Seq<char>, acc: Seq<Val>) -> Result<
    (Seq<Val>, int),
    Seq<char>,
>
    decreases ts.len() - pos, 1int,
{
    if pos < 0 || pos >= ts.len() {
        Err(if close == ")"@ { "unbalanced list"@ } else { "unbalanced vector"@ })
    } else if ts[pos] == close {
        Ok((acc, pos + 1))
    } else {
        match form_at(ts, pos) {
            Ok((v, p)) => if pos < p <= ts.len() {
                seq_at(ts, p, close, acc.push(v))
            } else {
                Err("Internal Error: reader did not advance"@)
            },
            Err(e) => Err(e),
        }
    }
}

/// Reads a dictionary's entries from `pos` up to `}`: `key` is a key read whose value is
/// still to come; `s` and `k` hold the string-keyed and keyword-keyed entries so far.
pub open spec fn dict_at(
    ts: Seq<Seq<char>>,
    pos: int,
    key: Option<Val>,
    s: FrameV,
    k: FrameV,
) -> Result<(Val, int), Seq<char>>
    decreases ts.len() - pos, 1int,
{
    if pos < 0 || pos >= ts.len() {
        Err("unbalanced hashmap"@)
    } else if ts[pos] == "}"@ {
        if key is Some {
            Err("unbalanced hashmap"@)
        } else {
            Ok((Val::Dictionary(s, k), pos + 1))
        }
    } else {
        match form_at(ts, pos) {
            Ok((v, p)) => if !(pos < p <= ts.len()) {
                Err("Internal Error: reader did not advance"@)
            } else {
                match key {
                    None => match v {
                        Val::Str(_) => dict_at(ts, p, Some(v), s, k),
                        Val::Keyword(_) => dict_at(ts, p, Some(v), s, k),
                        _ => Err("Expecting string or keyword for hash key"@),
                    },
                    Some(Val::Str(name)) => dict_at(ts, p, None, frame_set(s, name, v), k),
                    Some(Val::Keyword(name)) => dict_at(ts, p, None, s, frame_set(k, name, v)),
                    Some(_) => Err("Internal Error: last_key invalid type"@),
                }
            }
            Err(e) => Err(e),
        }
    }
}

/// The value that a token sequence denotes: the first form of its significant tokens.
pub open spec fn read_spec(ts: Seq<Seq<char>>) -> Result<Val, Seq<char>> {
    match form_at(significant(ts), 0) {
        Ok((v, _)) => Ok(v),
        Err(e) => Err(e),
    }
}

pub open spec fn read_view(r: Result<MalType, &'static str>) -> Result<Val, Seq<char>> {
    match r {
        Ok(v) => Ok(v@),
        Err(e) => Err(e@),
    }
}


// ---------------------------------------------------------------- executable reader

/// The text from position `start` on.
fn text_from(cs: &Vec<char>, start: usize) -> (r: String)
    requires
        start <= cs@.len(),
    ensures
        r@ == cs@.skip(start as int),
{
    let mut r = String::new();
    let mut i = start;
    while i < cs.len()
        invariant
            start <= i <= cs@.len(),
            r@ == cs@.subrange(start as int, i as int),
        decreases cs.len() - i,
    {
        r.push(cs[i]);
        proof {
            assert(cs@.subrange(start as int, i + 1) =~= cs@.subrange(start as int, i as int).push(
                cs@[i as int],
            ));
        }
        i += 1;
    }
    proof {
        assert(cs@.subrange(start as int, cs@.len() as int) =~= cs@.skip(start as int));
    }
    r
}

proof fn lemma_digits_value_prefix(s: Seq<char>, k: int)
    requires
        0 <= k <= s.len(),
        all_digits(s),
    ensures
        digits_value(s) >= digits_value(s.take(k)),
    decreases s.len(),
{
    if k < s.len() {
        assert(s.drop_last().take(k) =~= s.take(k));
        assert(all_digits(s.drop_last()) ) by {
            assert forall|i: int| 0 <= i < s.drop_last().len() implies #[trigger] is_digit(s.drop_last()[i]) by {
                assert(is_digit(s[i]));
            }
        }
        lemma_digits_value_prefix(s.drop_last(), k);
        lemma_digits_value_nonneg(s.drop_last());
        assert(is_digit(s[s.len() - 1]));
    } else {
        assert(s.take(k) =~= s);
    }
}

proof fn lemma_digits_value_nonneg(s: Seq<char>)
    requires
        all_digits(s),
    ensures
        digits_value(s) >= 0,
    decreases s.len(),
{
    if s.len() > 0 {
        assert(all_digits(s.drop_last())) by {
            assert forall|i: int| 0 <= i < s.drop_last().len() implies #[trigger] is_digit(s.drop_last()[i]) by {
                assert(is_digit(s[i]));
            }
        }
        lemma_digits_value_nonneg(s.drop_last());
        assert(is_digit(s[s.len() - 1]));
    }
}

/// The integer that a token denotes, if it is a literal `-?[0-9]+` that fits in 64 bits.
pub fn parse_integer(t: &Vec<char>) -> (r: Option<i64>)
    ensures
        r == parse_number(t@),
{
    let neg = t.len() > 0 && t[0] == '-';
    let start: usize = if neg { 1 } else { 0 };
    if t.len() <= start {
        return None;
    }
    let limit: u128 = if neg { 9223372036854775808 } else { 9223372036854775807 };
    let ghost d = t@.skip(start as int);
    let mut acc: u128 = 0;
    let mut i = start;
    while i < t.len()
        invariant
            start <= i <= t@.len(),
            neg == (t@.len() > 0 && t@[0] == '-'),
            start == (if neg { 1usize } else { 0usize }),
            limit == (if neg { 9223372036854775808u128 } else { 9223372036854775807u128 }),
            d == t@.skip(start as int),
            d.len() > 0,
            acc as int == digits_value(d.take(i - start)),
            acc <= limit,
            all_digits(d.take(i - start)),
        decreases t.len() - i,
    {
        let c = t[i];
        proof {
            assert(d.take(i + 1 - start).drop_last() =~= d.take(i - start));
            assert(d[i - start] == c);
        }
        if !('0' <= c && c <= '9') {
            proof {
                assert(!is_digit(d[i - start]));
                if neg {
                    assert(t@[0] == '-');
                } else {
                    assert(d =~= t@);
                }
            }
            return None;
        }
        let dv = (c as u32 - '0' as u32) as u128;
        let next = acc * 10 + dv;
        proof {
            assert(all_digits(d.take(i + 1 - start))) by {
                assert forall|j: int| 0 <= j < d.take(i + 1 - start).len() implies #[trigger] is_digit(
                    d.take(i + 1 - start)[j],
                ) by {
                    if j < i - start {
                        assert(d.take(i + 1 - start)[j] == d.take(i - start)[j]);
                    }
                }
            }
        }
        if next > limit {
            proof {
                if all_digits(d) {
                    lemma_digits_value_prefix(d, i + 1 - start);
                }
                if neg {
                    assert(t@[0] == '-');
                } else {
                    assert(d =~= t@);
                }
            }
            return None;
        }
        acc = next;
        i += 1;
    }
    proof {
        assert(d.take(i - start) =~= d);
        if neg {
            assert(t@[0] == '-');
        } else {
            assert(d =~= t@);
        }
    }
    if neg {
        if acc == 9223372036854775808 {
            Some(i64::MIN)
        } else {
            Some(-(acc as i64))
        }
    } else {
        Some(acc as i64)
    }
}


/// Decodes a string literal token, which starts with a quote.
pub fn read_string_literal(t: &Vec<char>) -> (r: Result<String, &'static str>)
    requires
        t@.len() > 0,
    ensures
        match r {
            Ok(x) => string_literal(t@) == Ok::<Seq<char>, Seq<char>>(x@),
            Err(e) => string_literal(t@) == Err::<Seq<char>, Seq<char>>(e@),
        },
{
    if t.len() == 1 {
        return Err("unbalanced string");
    }
    if t.len() == 2 {
        if t[1] == '"' {
            return Ok(String::new());
        } else {
            return Err("unbalanced string");
        }
    }
    let ghost sl = t@.skip(1);
    let mut out = String::new();
    let mut esc = false;
    let mut i: usize = 1;
    while i < t.len()
        invariant
            1 <= i <= t@.len(),
            t@.len() > 2,
            sl == t@.skip(1),
            unescape(sl, false, Seq::empty()) == unescape(t@.skip(i as int), esc, out@),
        decreases t.len() - i,
    {
        let c = t[i];
        proof {
            assert(t@.skip(i as int)[0] == c);
            assert(t@.skip(i as int).skip(1) =~= t@.skip(i + 1));
        }
        if c == 'n' {
            if esc {
                out.push('\n');
            } else {
                out.push('n');
            }
            esc = false;
        } else if c == '"' {
            if esc {
                out.push('"');
                esc = false;
            } else if i == t.len() - 1 {
                return Ok(out);
            } else {
                return Err("Internal Error: found doublequote in middle of string");
            }
        } else if c == '\\' {
            if esc {
                out.push('\\');
                esc = false;
            } else {
                esc = true;
            }
        } else {
            out.push(c);
            esc = false;
        }
        i += 1;
    }
    Err("unbalanced string: no terminating doublequote found for string")
}

/// The value of a bare token.
pub fn read_atom_token(token: &String) -> (r: Result<MalType, &'static str>)
    requires
        token@.len() > 0,
    ensures
        read_view(r) == atom_of(token@),
{
    let t = chars_of(token.as_str());
    let c = t[0];
    if ('0' <= c && c <= '9') || (c == '-' && t.len() > 1 && '0' <= t[1] && t[1] <= '9') {
        match parse_integer(&t) {
            Some(n) => Ok(MalType::Number(n)),
            None => Err("failed to convert string to integer"),
        }
    } else if is_text(token, "false") {
        Ok(MalType::Boolean(false))
    } else if is_text(token, "true") {
        Ok(MalType::Boolean(true))
    } else if is_text(token, "nil") {
        Ok(MalType::NoValue)
    } else if c == ':' {
        Ok(MalType::Keyword(text_from(&t, 1)))
    } else if c == '"' {
        match read_string_literal(&t) {
            Ok(x) => Ok(MalType::Str(x)),
            Err(e) => Err(e),
        }
    } else {
        Ok(MalType::Symbol(token.clone()))
    }
}


/// The views of a sequence of strings.
pub open spec fn toks(tokens: Seq<String>) -> Seq<Seq<char>> {
    Seq::new(tokens.len(), |i: int| tokens[i]@)
}

pub open spec fn opt_view(o: Option<MalType>) -> Option<Val> {
    match o {
        Some(x) => Some(x@),
        None => None,
    }
}

/// A cursor over a sequence of tokens.
pub struct Reader {
    pub tokens: Vec<String>,
    pub pos: usize,
}

impl Reader {
    pub open spec fn toks(&self) -> Seq<Seq<char>> {
        toks(self.tokens@)
    }

    /// Moves past the current token.
    fn next(&mut self)
        requires
            old(self).pos < old(self).tokens.len(),
        ensures
            final(self).pos == old(self).pos + 1,
            final(self).tokens == old(self).tokens,
    {
        self.pos = self.pos + 1;
    }

    /// The current token.
    fn peek(&self) -> (r: &String)
        requires
            self.pos < self.tokens@.len(),
        ensures
            r@ == self.toks()[self.pos as int],
    {
        &self.tokens[self.pos]
    }

    /// Whether every token has been consumed.
    fn is_eof(&self) -> (r: bool)
        ensures
            r == (self.pos >= self.tokens@.len()),
    {
        self.pos >= self.tokens.len()
    }

    /// Whether the current token is exactly `lit`.
    fn at(&self, lit: &str) -> (r: bool)
        ensures
            r == (self.pos < self.tokens@.len() && self.toks()[self.pos as int] == lit@),
    {
        !self.is_eof() && is_text(self.peek(), lit)
    }
}

fn read_form(reader: &mut Reader) -> (r: Result<MalType, &'static str>)
    requires
        old(reader).pos <= old(reader).tokens@.len(),
    ensures
        final(reader).tokens == old(reader).tokens,
        r is Ok ==> old(reader).pos < final(reader).pos <= old(reader).tokens@.len(),
        match form_at(old(reader).toks(), old(reader).pos as int) {
            Ok((v, p)) => read_view(r) == Ok::<Val, Seq<char>>(v) && final(reader).pos == p,
            Err(e) => read_view(r) == Err::<Val, Seq<char>>(e),
        },
    decreases old(reader).tokens@.len() - old(reader).pos, 1int,
{
    if reader.is_eof() {
        return Err("unexpected end of input");
    }
    let cs = chars_of(reader.peek().as_str());
    if cs.len() == 0 {
        return Err("unexpected end of input");
    }
    let c = cs[0];
    if c == '(' || c == '[' {
        read_list(reader)
    } else if c == '{' {
        read_dict(reader)
    } else {
        let token = reader.peek().clone();
        reader.next();
        read_atom_token(&token)
    }
}

fn read_list(reader: &mut Reader) -> (r: Result<MalType, &'static str>)
    requires
        old(reader).pos < old(reader).tokens@.len(),
        old(reader).toks()[old(reader).pos as int].len() > 0,
        old(reader).toks()[old(reader).pos as int][0] == '(' || old(reader).toks()[old(
            reader,
        ).pos as int][0] == '[',
    ensures
        final(reader).tokens == old(reader).tokens,
        r is Ok ==> old(reader).pos < final(reader).pos <= old(reader).tokens@.len(),
        ({
            let t = old(reader).toks()[old(reader).pos as int];
            let close = if t[0] == '(' { ")"@ } else { "]"@ };
            match seq_at(old(reader).toks(), old(reader).pos + 1, close, Seq::empty()) {
                Ok((items, p)) => read_view(r) == Ok::<Val, Seq<char>>(
                    if t[0] == '(' { Val::List(items) } else { Val::Vector(items) },
                ) && final(reader).pos == p,
                Err(e) => read_view(r) == Err::<Val, Seq<char>>(e),
            }
        }),
    decreases old(reader).tokens@.len() - old(reader).pos, 0int,
{
    proof {
        reveal_strlit(")");
        reveal_strlit("]");
    }
    let ghost pos0 = reader.pos;
    let ghost ts = reader.toks();
    let ghost tokens0 = reader.tokens;
    let cs = chars_of(reader.peek().as_str());
    let is_paren = cs[0] == '(';
    let end_val = if is_paren { ")" } else { "]" };
    let ghost close = end_val@;
    reader.next();
    let mut list: Vec<MalType> = Vec::new();
    loop
        invariant
            pos0 < reader.pos <= reader.tokens@.len(),
            reader.toks() == ts,
            reader.tokens == tokens0,
            tokens0 == old(reader).tokens,
            pos0 == old(reader).pos,
            ts == old(reader).toks(),
            pos0 < ts.len(),
            reader.tokens@.len() == ts.len(),
            close == end_val@,
            is_paren == (ts[pos0 as int][0] == '('),
            close == (if is_paren { ")"@ } else { "]"@ }),
            ts[pos0 as int][0] == '(' || ts[pos0 as int][0] == '[',
            seq_at(ts, reader.pos as int, close, view_seq(list@)) == seq_at(
                ts,
                pos0 + 1,
                close,
                Seq::empty(),
            ),
        decreases reader.tokens@.len() - reader.pos,
    {
        if reader.is_eof() {
            if is_paren {
                return Err("unbalanced list");
            } else {
                proof {
                    reveal_strlit(")");
                    reveal_strlit("]");
                    assert(")"@[0] != "]"@[0]);
                }
                return Err("unbalanced vector");
            }
        }
        if reader.at(end_val) {
            reader.next();
            if is_paren {
                return Ok(MalType::List(list));
            } else {
                return Ok(MalType::Vector(list));
            }
        }
        match read_form(reader) {
            Ok(v) => {
                proof {
                    lemma_view_seq_push(list@, v);
                }
                list.push(v);
            },
            Err(e) => {
                return Err(e);
            },
        }
    }
}

fn read_dict(reader: &mut Reader) -> (r: Result<MalType, &'static str>)
    requires
        old(reader).pos < old(reader).tokens@.len(),
        old(reader).toks()[old(reader).pos as int].len() > 0,
        old(reader).toks()[old(reader).pos as int][0] == '{',
    ensures
        final(reader).tokens == old(reader).tokens,
        r is Ok ==> old(reader).pos < final(reader).pos <= old(reader).tokens@.len(),
        match dict_at(
            old(reader).toks(),
            old(reader).pos + 1,
            None,
            Seq::empty(),
            Seq::empty(),
        ) {
            Ok((v, p)) => read_view(r) == Ok::<Val, Seq<char>>(v) && final(reader).pos == p,
            Err(e) => read_view(r) == Err::<Val, Seq<char>>(e),
        },
        r is Ok ==> r->Ok_0@ is Dictionary && dict_keys_unique(r->Ok_0@),
    decreases old(reader).tokens@.len() - old(reader).pos, 0int,
{
    proof {
        reveal_strlit("}");
    }
    let ghost pos0 = reader.pos;
    let ghost ts = reader.toks();
    let ghost tokens0 = reader.tokens;
    reader.next();
    let mut str_dict = MalNameSpace(Vec::new());
    let mut key_dict = MalNameSpace(Vec::new());
    let mut key: Option<MalType> = None;
    proof {
        assert(str_dict@ =~= Seq::<(Seq<char>, Val)>::empty());
        assert(key_dict@ =~= Seq::<(Seq<char>, Val)>::empty());
    }
    loop
        invariant
            pos0 < reader.pos <= reader.tokens@.len(),
            reader.toks() == ts,
            reader.tokens == tokens0,
            tokens0 == old(reader).tokens,
            pos0 == old(reader).pos,
            ts == old(reader).toks(),
            pos0 < ts.len(),
            reader.tokens@.len() == ts.len(),
            dict_at(ts, reader.pos as int, opt_view(key), str_dict@, key_dict@) == dict_at(
                ts,
                pos0 + 1,
                None,
                Seq::empty(),
                Seq::empty(),
            ),
            keys_unique(str_dict@),
            keys_unique(key_dict@),
        decreases reader.tokens@.len() - reader.pos,
    {
        if reader.is_eof() {
            return Err("unbalanced hashmap");
        }
        if reader.at("}") {
            reader.next();
            if key.is_some() {
                return Err("unbalanced hashmap");
            }
            return Ok(MalType::Dictionary(str_dict.0, key_dict.0));
        }
        let v = match read_form(reader) {
            Ok(v) => v,
            Err(e) => {
                return Err(e);
            },
        };
        let cur = key;
        key = None;
        match cur {
            None => match v {
                MalType::Str(_) => {
                    key = Some(v);
                },
                MalType::Keyword(_) => {
                    key = Some(v);
                },
                _ => {
                    return Err("Expecting string or keyword for hash key");
                },
            },
            Some(MalType::Str(name)) => {
                str_dict.insert(name.as_str(), v);
            },
            Some(MalType::Keyword(name)) => {
                key_dict.insert(name.as_str(), v);
            },
            Some(_) => {
                return Err("Internal Error: last_key invalid type");
            },
        }
    }
}

/// Reads the first form of a token sequence, skipping empty tokens and comments.
pub fn read_tokens(tokens: &Vec<String>) -> (r: Result<MalType, &'static str>)
    ensures
        read_view(r) == read_spec(toks(tokens@)),
{
    let mut kept: Vec<String> = Vec::new();
    let mut i: usize = 0;
    while i < tokens.len()
        invariant
            i <= tokens@.len(),
            toks(kept@) == significant(toks(tokens@).take(i as int)),
        decreases tokens.len() - i,
    {
        let cs = chars_of(tokens[i].as_str());
        proof {
            assert(toks(tokens@).take(i + 1).drop_last() =~= toks(tokens@).take(i as int));
            assert(toks(tokens@).take(i + 1).last() == tokens@[i as int]@);
        }
        if cs.len() > 0 && cs[0] != ';' {
            let ghost before = kept@;
            kept.push(tokens[i].clone());
            proof {
                assert(toks(kept@) =~= toks(before).push(tokens@[i as int]@));
            }
        }
        i += 1;
    }
    proof {
        assert(toks(tokens@).take(i as int) =~= toks(tokens@));
    }
    let mut reader = Reader { tokens: kept, pos: 0 };
    match read_form(&mut reader) {
        Ok(v) => Ok(v),
        Err(e) => Err(e),
    }
}

/// Reads the first form of a text.
pub fn read_str(buffer: String) -> (r: Result<MalType, &'static str>)
    ensures
        read_view(r) == read_spec(tokens_of(buffer@)),
{
    let tokens = tokenize(buffer.as_str());
    proof {
        assert(toks(tokens@) =~= tokens_of(buffer@));
    }
    read_tokens(&tokens)
}

} // verus!
