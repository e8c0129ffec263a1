use vstd::prelude::*;
use crate::types::{MalType, Val, view_entries, lemma_view_entries, lemma_view_entries_push};
use crate::printer::{print_val, pr_str};
use crate::text::{digits, push_text, usize_to_text};

verus! {

/// The model of one scope frame: names bound to values.
pub type FrameV = Seq<(Seq<char>, Val)>;

/// The position of the binding of `k` in a frame, or -1.
pub open spec fn frame_find(f: FrameV, k: Seq<char>) -> int
    decreases f.len(),
{
    if f.len() == 0 {
        -1
    } else if f.last().0 == k {
        f.len() - 1
    } else {
        frame_find(f.drop_last(), k)
    }
}

pub open spec fn frame_get(f: FrameV, k: Seq<char>) -> Option<Val> {
    let i = frame_find(f, k);
    if i >= 0 {
        Some(f[i].1)
    } else {
        None
    }
}

/// The frame with `k` bound to `v`: an existing binding is replaced, else one is added.
pub open spec fn frame_set(f: FrameV, k: Seq<char>, v: Val) -> FrameV {
    let i = frame_find(f, k);
    if i >= 0 {
        f.update(i, (k, v))
    } else {
        f.push((k, v))
    }
}

/// The frame that binds each pair in turn, starting from an empty one.
pub open spec fn frame_of(binds: Seq<(Seq<char>, Val)>) -> FrameV
    decreases binds.len(),
{
    if binds.len() == 0 {
        Seq::empty()
    } else {
        frame_set(frame_of(binds.drop_last()), binds.last().0, binds.last().1)
    }
}

/// Lookup through the frames, innermost (last) first.
pub open spec fn env_get(e: Seq<FrameV>, k: Seq<char>) -> Option<Val>
    decreases e.len(),
{
    if e.len() == 0 {
        None
    } else {
        match frame_get(e.last(), k) {
            Some(v) => Some(v),
            None => env_get(e.drop_last(), k),
        }
    }
}

/// Binding in the innermost frame, creating one when there is none.
pub open spec fn env_set(e: Seq<FrameV>, k: Seq<char>, v: Val) -> Seq<FrameV> {
    if e.len() == 0 {
        seq![seq![(k, v)]]
    } else {
        e.update(e.len() - 1, frame_set(e.last(), k, v))
    }
}

pub proof fn lemma_frame_find(f: FrameV, k: Seq<char>)
    ensures
        -1 <= frame_find(f, k) < f.len(),
        frame_find(f, k) >= 0 ==> f[frame_find(f, k)].0 == k,
        frame_find(f, k) < 0 ==> forall|j: int| 0 <= j < f.len() ==> #[trigger] f[j].0 != k,
        forall|j: int| frame_find(f, k) < j < f.len() ==> #[trigger] f[j].0 != k,
    decreases f.len(),
{
    if f.len() > 0 {
        let d = f.drop_last();
        lemma_frame_find(d, k);
        assert(forall|j: int| 0 <= j < d.len() ==> #[trigger] f[j] == d[j]);
    }
}

/// Setting a name and reading it back gives the value set; other names are untouched.
pub proof fn lemma_frame_set_get(f: FrameV, k: Seq<char>, v: Val, k2: Seq<char>)
    ensures
        frame_get(frame_set(f, k, v), k2) == if k2 == k {
            Some(v)
        } else {
            frame_get(f, k2)
        },
{
    lemma_frame_find(f, k);
    lemma_frame_find(f, k2);
    let g = frame_set(f, k, v);
    let i = frame_find(f, k);
    if i >= 0 {
        if k2 == k {
            lemma_frame_find_at(g, k, i);
        } else {
            lemma_frame_find_at(g, k2, frame_find(f, k2));
        }
    } else {
        assert(g.drop_last() =~= f);
    }
}

/// The position found is the last one that holds the name.
pub proof fn lemma_frame_find_at(f: FrameV, k: Seq<char>, i: int)
    requires
        -1 <= i < f.len(),
        i >= 0 ==> f[i].0 == k,
        i < 0 ==> forall|j: int| 0 <= j < f.len() ==> #[trigger] f[j].0 != k,
        forall|j: int| i < j < f.len() ==> #[trigger] f[j].0 != k,
    ensures
        frame_find(f, k) == i,
    decreases f.len(),
{
    if f.len() > 0 && i < f.len() - 1 {
        lemma_frame_find_at(f.drop_last(), k, i);
    }
}

/// No name is bound twice in a frame (nor a key twice in a dictionary's key space).
pub open spec fn keys_unique(f: FrameV) -> bool {
    forall|i: int, j: int| 0 <= i < j < f.len() ==> #[trigger] f[i].0 != #[trigger] f[j].0
}

/// A dictionary's two key spaces each hold a key at most once.
pub open spec fn dict_keys_unique(v: Val) -> bool {
    match v {
        Val::Dictionary(s, k) => keys_unique(s) && keys_unique(k),
        _ => true,
    }
}

/// Binding a name keeps the names of a frame unique.
pub proof fn lemma_frame_set_unique(f: FrameV, k: Seq<char>, v: Val)
    requires
        keys_unique(f),
    ensures
        keys_unique(frame_set(f, k, v)),
{
    lemma_frame_find(f, k);
    let g = frame_set(f, k, v);
    assert forall|i: int, j: int| 0 <= i < j < g.len() implies #[trigger] g[i].0 != #[trigger] g[j].0 by {
        if frame_find(f, k) < 0 && j == f.len() {
            assert(f[i].0 != k);
        } else {
            assert(f[i].0 != f[j].0);
        }
    }
}

/// A frame built by binding pairs in turn holds each name once.
pub proof fn lemma_frame_of_unique(binds: Seq<(Seq<char>, Val)>)
    ensures
        keys_unique(frame_of(binds)),
    decreases binds.len(),
{
    if binds.len() > 0 {
        lemma_frame_of_unique(binds.drop_last());
        lemma_frame_set_unique(frame_of(binds.drop_last()), binds.last().0, binds.last().1);
    }
}

/// Uniqueness depends on the names alone.
pub proof fn lemma_same_keys_unique(a: FrameV, b: FrameV)
    requires
        keys_unique(a),
        a.len() == b.len(),
        forall|j: int| 0 <= j < a.len() ==> #[trigger] b[j].0 == a[j].0,
    ensures
        keys_unique(b),
{
    assert forall|i: int, j: int| 0 <= i < j < b.len() implies #[trigger] b[i].0 != #[trigger] b[j].0 by {
        assert(a[i].0 != a[j].0);
    }
}

/// After binding a name, looking it up gives the value bound.
pub proof fn lemma_env_set_get(e: Seq<FrameV>, k: Seq<char>, v: Val)
    ensures
        env_get(env_set(e, k, v), k) == Some(v),
{
    if e.len() == 0 {
        let e2 = env_set(e, k, v);
        assert(e2.last() =~= seq![(k, v)]);
        assert(frame_find(seq![(k, v)], k) == 0);
    } else {
        lemma_frame_set_get(e.last(), k, v, k);
    }
}

/// One scope frame.
pub struct MalNameSpace(pub Vec<(String, MalType)>);

impl View for MalNameSpace {
    type V = FrameV;

    open spec fn view(&self) -> FrameV {
        view_entries(self.0@)
    }
}

impl MalNameSpace {
    fn find(&self, k: &str) -> (r: Option<usize>)
        ensures
            match r {
                Some(i) => i < self.0@.len() && i as int == frame_find(self@, k@),
                None => frame_find(self@, k@) == -1,
            },
    {
        let mut i: usize = self.0.len();
        proof {
            lemma_view_entries(self.0@);
            assert(self@.take(i as int) =~= self@);
        }
        while i > 0
            invariant
                i <= self.0@.len(),
                view_entries(self.0@).len() == self.0@.len(),
                forall|j: int|
                    0 <= j < self.0@.len() ==> #[trigger] view_entries(self.0@)[j] == (
                    self.0@[j].0@,
                    self.0@[j].1@,
                ),
                frame_find(self@, k@) == frame_find(self@.take(i as int), k@),
            decreases i,
        {
            let ghost f = self@.take(i as int);
            proof {
                assert(f.drop_last() =~= self@.take(i - 1));
            }
            if self.0[i - 1].0.as_str().to_owned() == k.to_owned() {
                return Some(i - 1);
            }
            i = i - 1;
        }
        None
    }

    /// Binds `k` to `v`, replacing an existing binding of `k`.
    pub fn insert(&mut self, k: &str, v: MalType)
        ensures
            final(self)@ == frame_set(old(self)@, k@, v@),
            keys_unique(old(self)@) ==> keys_unique(final(self)@),
    {
        proof {
            lemma_view_entries(self.0@);
            if keys_unique(self@) {
                lemma_frame_set_unique(self@, k@, v@);
            }
        }
        match self.find(k) {
            Some(i) => {
                let ghost before = self.0@;
                self.0.set(i, (k.to_owned(), v));
                proof {
                    lemma_view_entries(self.0@);
                    assert(self@ =~= frame_set(view_entries(before), k@, v@));
                }
            },
            None => {
                let ghost before = self.0@;
                let entry = (k.to_owned(), v);
                proof {
                    lemma_view_entries_push(before, entry);
                }
                self.0.push(entry);
            },
        }
    }

    /// The value bound to `k` in this frame.
    pub fn lookup(&self, k: &str) -> (r: Option<MalType>)
        ensures
            match r {
                Some(x) => frame_get(self@, k@) == Some(x@),
                None => frame_get(self@, k@) is None,
            },
    {
        proof {
            lemma_view_entries(self.0@);
        }
        match self.find(k) {
            Some(i) => Some(self.0[i].1.deep_copy()),
            None => None,
        }
    }
}

/// A stack of scope frames; the innermost frame is the last one.
pub struct MalEnv(pub Vec<MalNameSpace>);

impl View for MalEnv {
    type V = Seq<FrameV>;

    open spec fn view(&self) -> Seq<FrameV> {
        Seq::new(self.0@.len(), |i: int| self.0@[i]@)
    }
}

/// The frame that binds each name of `binds` to its value, in turn.
pub open spec fn binds_view(binds: Seq<(String, MalType)>) -> Seq<(Seq<char>, Val)> {
    view_entries(binds)
}

impl MalEnv {
    /// Binds `new_sym` in the innermost frame, creating a frame when there is none.
    pub fn set(&mut self, new_sym: &str, val: MalType)
        ensures
            final(self)@ == env_set(old(self)@, new_sym@, val@),
            env_get(final(self)@, new_sym@) == Some(val@),
    {
        proof {
            lemma_env_set_get(self@, new_sym@, val@);
        }
        let n = self.0.len();
        if n == 0 {
            let mut ns = MalNameSpace(Vec::new());
            ns.insert(new_sym, val);
            self.0.push(ns);
            proof {
                assert(self@ =~= env_set(old(self)@, new_sym@, val@));
            }
        } else {
            let mut last = self.0.pop().unwrap();
            last.insert(new_sym, val);
            self.0.push(last);
            proof {
                assert(self@ =~= env_set(old(self)@, new_sym@, val@));
            }
        }
    }

    /// The value of `sym` in the innermost frame that binds it.
    pub fn get(&self, sym: &str) -> (r: Option<MalType>)
        ensures
            match r {
                Some(x) => env_get(self@, sym@) == Some(x@),
                None => env_get(self@, sym@) is None,
            },
    {
        let mut i: usize = self.0.len();
        proof {
            assert(self@.take(i as int) =~= self@);
        }
        while i > 0
            invariant
                i <= self.0@.len(),
                env_get(self@, sym@) == env_get(self@.take(i as int), sym@),
            decreases i,
        {
            proof {
                assert(self@.take(i as int).drop_last() =~= self@.take(i - 1));
            }
            match self.0[i - 1].lookup(sym) {
                Some(x) => {
                    return Some(x);
                },
                None => {},
            }
            i = i - 1;
        }
        None
    }

    /// Pushes a new innermost frame, holding the given bindings.
    pub fn new_env(&mut self, binds_opt: Option<Vec<(String, MalType)>>)
        ensures
            final(self)@ == old(self)@.push(
                match binds_opt {
                    Some(b) => frame_of(binds_view(b@)),
                    None => Seq::empty(),
                },
            ),
            keys_unique(final(self)@.last()),
    {
        proof {
            if binds_opt is Some {
                lemma_frame_of_unique(binds_view(binds_opt->Some_0@));
            }
        }
        let mut ns = MalNameSpace(Vec::new());
        proof {
            assert(ns@ =~= Seq::<(Seq<char>, Val)>::empty());
        }
        match binds_opt {
            Some(binds) => {
                let mut i: usize = 0;
                proof {
                    lemma_view_entries(binds@);
                }
                while i < binds.len()
                    invariant
                        i <= binds@.len(),
                        view_entries(binds@).len() == binds@.len(),
                        forall|j: int|
                            0 <= j < binds@.len() ==> #[trigger] view_entries(binds@)[j] == (
                            binds@[j].0@,
                            binds@[j].1@,
                        ),
                        ns@ == frame_of(view_entries(binds@).take(i as int)),
                    decreases binds.len() - i,
                {
                    proof {
                        assert(view_entries(binds@).take(i + 1).drop_last() =~= view_entries(
                            binds@,
                        ).take(i as int));
                    }
                    ns.insert(binds[i].0.as_str(), binds[i].1.deep_copy());
                    i += 1;
                }
                proof {
                    assert(view_entries(binds@).take(i as int) =~= view_entries(binds@));
                }
            },
            None => {},
        }
        self.0.push(ns);
        proof {
            assert(self@ =~= old(self)@.push(ns@));
        }
    }

    /// Discards the innermost frame.
    pub fn drop_env(&mut self)
        requires
            old(self)@.len() > 0,
        ensures
            final(self)@ == old(self)@.drop_last(),
    {
        self.0.pop();
        proof {
            assert(self@ =~= old(self)@.drop_last());
        }
    }

    /// An environment of one empty frame.
    pub fn new() -> (r: MalEnv)
        ensures
            r@ == seq![Seq::<(Seq<char>, Val)>::empty()],
    {
        let mut v: Vec<MalNameSpace> = Vec::new();
        let ns = MalNameSpace(Vec::new());
        proof {
            assert(ns@ =~= Seq::<(Seq<char>, Val)>::empty());
        }
        v.push(ns);
        let r = MalEnv(v);
        proof {
            assert(r@ =~= seq![Seq::<(Seq<char>, Val)>::empty()]);
        }
        r
    }
}


/// One line per binding of a frame: `sym: name => value`.
pub open spec fn frame_text(f: FrameV) -> Seq<char>
    decreases f.len(),
{
    if f.len() == 0 {
        Seq::empty()
    } else {
        frame_text(f.drop_last()) + "sym: "@ + f.last().0 + " => "@ + print_val(f.last().1, true)
            + "\n"@
    }
}

/// The frames from the innermost out, each under a numbered heading starting at `n`.
pub open spec fn env_text(e: Seq<FrameV>, n: nat) -> Seq<char>
    decreases e.len(),
{
    if e.len() == 0 {
        Seq::empty()
    } else {
        "Environment "@ + digits(n) + ":\n"@ + frame_text(e.last()) + env_text(e.drop_last(), n + 1)
    }
}

impl MalNameSpace {
    fn describe(&self) -> (r: String)
        ensures
            r@ == frame_text(self@),
    {
        proof {
            lemma_view_entries(self.0@);
        }
        let mut r = String::new();
        let mut j: usize = 0;
        while j < self.0.len()
            invariant
                j <= self.0@.len(),
                view_entries(self.0@).len() == self.0@.len(),
                forall|k: int|
                    0 <= k < self.0@.len() ==> #[trigger] view_entries(self.0@)[k] == (
                    self.0@[k].0@,
                    self.0@[k].1@,
                ),
                r@ == frame_text(self@.take(j as int)),
            decreases self.0.len() - j,
        {
            proof {
                assert(self@.take(j + 1).drop_last() =~= self@.take(j as int));
            }
            push_text(&mut r, "sym: ");
            push_text(&mut r, self.0[j].0.as_str());
            push_text(&mut r, " => ");
            let v = pr_str(&self.0[j].1, true);
            push_text(&mut r, v.as_str());
            push_text(&mut r, "\n");
            proof {
                assert(r@ =~= frame_text(self@.take(j + 1)));
            }
            j += 1;
        }
        proof {
            assert(self@.take(j as int) =~= self@);
        }
        r
    }
}

impl MalEnv {
    /// Every binding of every frame, the innermost frame first.
    pub fn describe(&self) -> (r: String)
        ensures
            r@ == env_text(self@, 0),
    {
        let mut outline = String::new();
        let mut i: usize = self.0.len();
        proof {
            assert(self@.take(i as int) =~= self@);
        }
        while i > 0
            invariant
                i <= self.0@.len(),
                env_text(self@, 0) == outline@ + env_text(
                    self@.take(i as int),
                    (self.0@.len() - i) as nat,
                ),
            decreases i,
        {
            let ghost n = (self.0@.len() - i) as nat;
            proof {
                assert(self@.take(i as int).drop_last() =~= self@.take(i - 1));
                assert(self@.take(i as int).last() == self.0@[i - 1]@);
            }
            push_text(&mut outline, "Environment ");
            let count = usize_to_text(self.0.len() - i);
            push_text(&mut outline, count.as_str());
            push_text(&mut outline, ":\n");
            let body = self.0[i - 1].describe();
            push_text(&mut outline, body.as_str());
            proof {
                assert(env_text(self@, 0) =~= outline@ + env_text(self@.take(i - 1), n + 1));
            }
            i = i - 1;
        }
        proof {
            assert(outline@ + Seq::<char>::empty() =~= outline@);
        }
        outline
    }
}

} // verus!
