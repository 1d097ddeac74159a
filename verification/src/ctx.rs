use vstd::prelude::*;

use crate::parser::expr::{view_opt, Expr, SpecExpr};
use crate::parser::func::{Func, SpecFunc};
use crate::text::str_eq;

verus! {

/// The map that a list of keyed entries describes, a later entry winning over an earlier one.
pub open spec fn keyed<V>(s: Seq<(Seq<char>, V)>) -> Map<Seq<char>, V>
    decreases s.len(),
{
    if s.len() == 0 {
        Map::empty()
    } else {
        keyed(s.drop_last()).insert(s.last().0, s.last().1)
    }
}

/// No key occurs twice.
pub open spec fn unique_keys<V>(s: Seq<(Seq<char>, V)>) -> bool {
    forall|i: int, j: int| 0 <= i < j < s.len() ==> #[trigger] s[i].0 != #[trigger] s[j].0
}

/// The keys of `keyed(s)` are those of the entries, its domain is finite, and with unique keys
/// each entry's value is the map's.
pub proof fn lemma_keyed<V>(s: Seq<(Seq<char>, V)>)
    ensures
        keyed(s).dom().finite(),
        forall|k: Seq<char>| #[trigger]
            keyed(s).contains_key(k) <==> exists|i: int| 0 <= i < s.len() && s[i].0 == k,
        unique_keys(s) ==> forall|i: int| 0 <= i < s.len() ==> #[trigger] keyed(s)[s[i].0] == s[i].1,
        unique_keys(s) ==> keyed(s).dom().len() == s.len(),
    decreases s.len(),
{
    if s.len() > 0 {
        let p = s.drop_last();
        lemma_keyed(p);
        assert forall|k: Seq<char>| #[trigger]
            keyed(s).contains_key(k) <==> exists|i: int| 0 <= i < s.len() && s[i].0 == k by {
            if keyed(s).contains_key(k) && k != s.last().0 {
                let i = choose|i: int| 0 <= i < p.len() && p[i].0 == k;
                assert(s[i] == p[i]);
            }
            if exists|i: int| 0 <= i < s.len() && s[i].0 == k {
                let i = choose|i: int| 0 <= i < s.len() && s[i].0 == k;
                if i < s.len() - 1 {
                    assert(p[i] == s[i]);
                }
            }
        }
        if unique_keys(s) {
            assert(unique_keys(p)) by {
                assert forall|i: int, j: int| 0 <= i < j < p.len() implies #[trigger] p[i].0
                    != #[trigger] p[j].0 by {
                    assert(p[i] == s[i] && p[j] == s[j]);
                }
            }
            assert forall|i: int| 0 <= i < s.len() implies #[trigger] keyed(s)[s[i].0] == s[i].1 by {
                if i < s.len() - 1 {
                    assert(p[i] == s[i]);
                    assert(s[i].0 != s[s.len() - 1].0);
                }
            }
            assert(!keyed(p).contains_key(s.last().0)) by {
                if keyed(p).contains_key(s.last().0) {
                    let i = choose|i: int| 0 <= i < p.len() && p[i].0 == s.last().0;
                    assert(s[i] == p[i]);
                }
            }
        }
    }
}

/// Each key of `keyed(s)` comes from an entry whose value the map holds.
pub proof fn lemma_keyed_from_entry<V>(s: Seq<(Seq<char>, V)>, k: Seq<char>)
    requires
        keyed(s).contains_key(k),
    ensures
        exists|i: int| 0 <= i < s.len() && s[i].0 == k && keyed(s)[k] == s[i].1,
    decreases s.len(),
{
    let p = s.drop_last();
    if k == s.last().0 {
        assert(s[s.len() - 1].0 == k);
    } else {
        lemma_keyed_from_entry(p, k);
        let i = choose|i: int| 0 <= i < p.len() && p[i].0 == k && keyed(p)[k] == p[i].1;
        assert(s[i] == p[i]);
    }
}

/// Replacing the entry with key `k` in a list with unique keys updates the map at `k`.
pub proof fn lemma_keyed_update<V>(s: Seq<(Seq<char>, V)>, i: int, v: V)
    requires
        unique_keys(s),
        0 <= i < s.len(),
    ensures
        keyed(s.update(i, (s[i].0, v))) == keyed(s).insert(s[i].0, v),
        unique_keys(s.update(i, (s[i].0, v))),
    decreases s.len(),
{
    let t = s.update(i, (s[i].0, v));
    assert(unique_keys(t)) by {
        assert forall|a: int, b: int| 0 <= a < b < t.len() implies #[trigger] t[a].0
            != #[trigger] t[b].0 by {
            assert(t[a].0 == s[a].0 && t[b].0 == s[b].0);
        }
    }
    if i == s.len() - 1 {
        assert(t.drop_last() =~= s.drop_last());
        assert(keyed(t) =~= keyed(s).insert(s[i].0, v));
    } else {
        let p = s.drop_last();
        assert(unique_keys(p)) by {
            assert forall|a: int, b: int| 0 <= a < b < p.len() implies #[trigger] p[a].0
                != #[trigger] p[b].0 by {
                assert(p[a] == s[a] && p[b] == s[b]);
            }
        }
        lemma_keyed_update(p, i, v);
        assert(t.drop_last() =~= p.update(i, (p[i].0, v)));
        assert(s[i].0 != s.last().0);
        assert(keyed(t) =~= keyed(s).insert(s[i].0, v));
    }
}

/// What a context holds: functions and globals by name.
pub struct SpecCtx {
    pub funcs: Map<Seq<char>, SpecFunc>,
    pub globals: Map<Seq<char>, Option<SpecExpr>>,
}

/// The entries of a list of functions, keyed by name.
pub open spec fn func_entries(fs: Seq<Func>) -> Seq<(Seq<char>, SpecFunc)> {
    fs.map_values(|f: Func| (f@.name, f@))
}

/// The entries of a list of globals.
pub open spec fn global_entries(gs: Seq<(String, Option<Expr>)>) -> Seq<
    (Seq<char>, Option<SpecExpr>),
> {
    gs.map_values(|g: (String, Option<Expr>)| (g.0@, view_opt(g.1)))
}

/// The functions and global variables that evaluation looks names up in.
#[derive(Debug)]
pub struct Ctx {
    funcs: Vec<Func>,
    globals: Vec<(String, Option<Expr>)>,
}

impl View for Ctx {
    type V = SpecCtx;

    closed spec fn view(&self) -> SpecCtx {
        SpecCtx {
            funcs: keyed(func_entries(self.funcs@)),
            globals: keyed(global_entries(self.globals@)),
        }
    }
}

/// The names of a list of strings.
pub open spec fn strs_view(v: Seq<&str>) -> Seq<Seq<char>> {
    v.map_values(|s: &str| s@)
}

impl Ctx {
    /// No name is stored twice.
    #[verifier::type_invariant]
    closed spec fn wf(self) -> bool {
        unique_keys(func_entries(self.funcs@)) && unique_keys(global_entries(self.globals@))
    }

    /// A context's functions are stored under their own names, and there are finitely many.
    pub proof fn lemma_funcs(&self)
        ensures
            self@.funcs.dom().finite(),
            self@.globals.dom().finite(),
            forall|k: Seq<char>| #[trigger] self@.funcs.contains_key(k) ==> self@.funcs[k].name == k,
    {
        lemma_keyed(func_entries(self.funcs@));
        lemma_keyed(global_entries(self.globals@));
        assert forall|k: Seq<char>| #[trigger] self@.funcs.contains_key(k) implies self@.funcs[k].name
            == k by {
            let s = func_entries(self.funcs@);
            lemma_keyed_from_entry(s, k);
            let i = choose|i: int| 0 <= i < s.len() && s[i].0 == k && keyed(s)[k] == s[i].1;
            assert(s[i] == (self.funcs@[i]@.name, self.funcs@[i]@));
        }
    }

    /// An empty context.
    pub fn new() -> (r: Self)
        ensures
            r@.funcs == Map::<Seq<char>, SpecFunc>::empty(),
            r@.globals == Map::<Seq<char>, Option<SpecExpr>>::empty(),
    {
        Ctx { funcs: Vec::new(), globals: Vec::new() }
    }

    /// The index of the function with the given name.
    fn find_func(&self, name: &str) -> (r: Option<usize>)
        ensures
            r matches Some(i) ==> i < self.funcs@.len() && self.funcs@[i as int]@.name == name@,
            r is None ==> forall|j: int| 0 <= j < self.funcs@.len() ==> #[trigger] self.funcs@[j]@.name != name@,
    {
        let n = self.funcs.len();
        let mut i: usize = 0;
        while i < n
            invariant
                n == self.funcs@.len(),
                i <= n,
                forall|j: int| 0 <= j < i ==> #[trigger] self.funcs@[j]@.name != name@,
            decreases n - i,
        {
            if str_eq(self.funcs[i].get_name(), name) {
                return Some(i);
            }
            i = i + 1;
        }
        None
    }

    /// The index of the global with the given name.
    fn find_global(&self, name: &str) -> (r: Option<usize>)
        ensures
            r matches Some(i) ==> i < self.globals@.len() && self.globals@[i as int].0@ == name@,
            r is None ==> forall|j: int| 0 <= j < self.globals@.len() ==> #[trigger] self.globals@[j].0@ != name@,
    {
        let n = self.globals.len();
        let mut i: usize = 0;
        while i < n
            invariant
                n == self.globals@.len(),
                i <= n,
                forall|j: int| 0 <= j < i ==> #[trigger] self.globals@[j].0@ != name@,
            decreases n - i,
        {
            if str_eq(self.globals[i].0.as_str(), name) {
                return Some(i);
            }
            i = i + 1;
        }
        None
    }

    /// Adds a function under its name, replacing one of the same name.
    pub fn add_func(&mut self, func: Func)
        ensures
            final(self)@.funcs == old(self)@.funcs.insert(func@.name, func@),
            final(self)@.globals == old(self)@.globals,
    {
        proof {
            use_type_invariant(&*self);
        }
        let ghost old_funcs = self.funcs@;
        let ghost s = func_entries(old_funcs);
        let found = self.find_func(func.get_name());
        let mut funcs: Vec<Func> = Vec::new();
        assert(unique_keys(func_entries(funcs@)));
        std::mem::swap(&mut funcs, &mut self.funcs);
        match found {
            Some(i) => {
                proof {
                    lemma_keyed_update(s, i as int, func@);
                    assert(func_entries(old_funcs.update(i as int, func)) =~= s.update(
                        i as int,
                        (s[i as int].0, func@),
                    ));
                }
                funcs.set(i, func);
            },
            None => {
                proof {
                    assert(func_entries(old_funcs.push(func)) =~= s.push((func@.name, func@)));
                    let t = s.push((func@.name, func@));
                    assert(t.drop_last() =~= s);
                    assert forall|a: int, b: int| 0 <= a < b < t.len() implies #[trigger] t[a].0
                        != #[trigger] t[b].0 by {
                        if b == t.len() - 1 {
                            assert(t[a].0 == old_funcs[a]@.name);
                        } else {
                            assert(t[a] == s[a] && t[b] == s[b]);
                        }
                    }
                }
                funcs.push(func);
            },
        }
        self.funcs = funcs;
    }

    /// The function with the given name.
    pub fn get_func(&self, name: &str) -> (r: Option<&Func>)
        ensures
            self@.funcs.contains_key(name@) ==> (r matches Some(f) && f@ == self@.funcs[name@]),
            !self@.funcs.contains_key(name@) ==> r is None,
    {
        proof {
            use_type_invariant(self);
            lemma_keyed(func_entries(self.funcs@));
        }
        match self.find_func(name) {
            Some(i) => {
                proof {
                    let s = func_entries(self.funcs@);
                    assert(s[i as int] == (self.funcs@[i as int]@.name, self.funcs@[i as int]@));
                    assert(keyed(s)[s[i as int].0] == s[i as int].1);
                }
                Some(&self.funcs[i])
            },
            None => {
                proof {
                    if self@.funcs.contains_key(name@) {
                        let s = func_entries(self.funcs@);
                        let j = choose|j: int| 0 <= j < s.len() && s[j].0 == name@;
                        assert(s[j].0 == self.funcs@[j]@.name);
                    }
                }
                None
            },
        }
    }

    /// The names of the functions, each once.
    pub fn get_funcs_names(&self) -> (r: Vec<&str>)
        ensures
            strs_view(r@).to_set() == self@.funcs.dom(),
            strs_view(r@).no_duplicates(),
    {
        proof {
            use_type_invariant(self);
            lemma_keyed(func_entries(self.funcs@));
        }
        let mut names: Vec<&str> = Vec::new();
        let n = self.funcs.len();
        let mut i: usize = 0;
        while i < n
            invariant
                n == self.funcs@.len(),
                i <= n,
                names@.len() == i,
                forall|j: int| 0 <= j < i ==> #[trigger] names@[j]@ == self.funcs@[j]@.name,
            decreases n - i,
        {
            names.push(self.funcs[i].get_name());
            i = i + 1;
        }
        proof {
            let s = func_entries(self.funcs@);
            let keys = strs_view(names@);
            assert forall|j: int| 0 <= j < keys.len() implies #[trigger] keys[j] == s[j].0 by {
                assert(s[j] == (self.funcs@[j]@.name, self.funcs@[j]@));
            }
            assert forall|k: Seq<char>| keys.to_set().contains(k) <==> self@.funcs.contains_key(k) by {
                if keys.to_set().contains(k) {
                    let j = choose|j: int| 0 <= j < keys.len() && keys[j] == k;
                    assert(s[j].0 == k);
                }
                if self@.funcs.contains_key(k) {
                    let j = choose|j: int| 0 <= j < s.len() && s[j].0 == k;
                    assert(keys[j] == k);
                    assert(keys.contains(k));
                }
            }
            assert(keys.to_set() =~= self@.funcs.dom());
            assert forall|a: int, b: int| 0 <= a < keys.len() && 0 <= b < keys.len() && a != b implies keys[a]
                != keys[b] by {
                if a < b {
                    assert(s[a].0 != s[b].0);
                } else {
                    assert(s[b].0 != s[a].0);
                }
            }
        }
        names
    }

    /// Sets a global variable, replacing an earlier value of the same name.
    pub fn add_global(&mut self, var: &str, expr: Option<Expr>)
        ensures
            final(self)@.globals == old(self)@.globals.insert(var@, view_opt(expr)),
            final(self)@.funcs == old(self)@.funcs,
    {
        proof {
            use_type_invariant(&*self);
        }
        let ghost old_globals = self.globals@;
        let ghost s = global_entries(old_globals);
        let ghost ev = view_opt(expr);
        let key = String::from_str(var);
        let found = self.find_global(var);
        let mut globals: Vec<(String, Option<Expr>)> = Vec::new();
        assert(unique_keys(global_entries(globals@)));
        std::mem::swap(&mut globals, &mut self.globals);
        match found {
            Some(i) => {
                proof {
                    lemma_keyed_update(s, i as int, ev);
                    assert(global_entries(old_globals.update(i as int, (key, expr))) =~= s.update(
                        i as int,
                        (s[i as int].0, ev),
                    ));
                }
                globals.set(i, (key, expr));
            },
            None => {
                proof {
                    assert(global_entries(old_globals.push((key, expr))) =~= s.push((var@, ev)));
                    let t = s.push((var@, ev));
                    assert(t.drop_last() =~= s);
                    assert forall|a: int, b: int| 0 <= a < b < t.len() implies #[trigger] t[a].0
                        != #[trigger] t[b].0 by {
                        if b == t.len() - 1 {
                            assert(t[a].0 == old_globals[a].0@);
                        } else {
                            assert(t[a] == s[a] && t[b] == s[b]);
                        }
                    }
                }
                globals.push((key, expr));
            },
        }
        self.globals = globals;
    }

    /// The value of a global variable; `None` when it is unknown or set to no value.
    pub fn get_global(&self, name: &str) -> (r: Option<&Expr>)
        ensures
            (self@.globals.contains_key(name@) && self@.globals[name@] is Some) ==> (r matches Some(
                e,
            ) && e@ == self@.globals[name@]->Some_0),
            !(self@.globals.contains_key(name@) && self@.globals[name@] is Some) ==> r is None,
            match r {
                Some(e) => global_value(self@, name@) == Some(e@),
                None => global_value(self@, name@) is None,
            },
    {
        proof {
            use_type_invariant(self);
            lemma_keyed(global_entries(self.globals@));
        }
        match self.find_global(name) {
            Some(i) => {
                proof {
                    let s = global_entries(self.globals@);
                    assert(s[i as int] == (
                        self.globals@[i as int].0@,
                        view_opt(self.globals@[i as int].1),
                    ));
                    assert(keyed(s)[s[i as int].0] == s[i as int].1);
                }
                match &self.globals[i].1 {
                    Some(e) => Some(e),
                    None => None,
                }
            },
            None => {
                proof {
                    if self@.globals.contains_key(name@) {
                        let s = global_entries(self.globals@);
                        let j = choose|j: int| 0 <= j < s.len() && s[j].0 == name@;
                        assert(s[j].0 == self.globals@[j].0@);
                    }
                }
                None
            },
        }
    }

    /// The names of the globals, each once.
    pub fn get_global_names(&self) -> (r: Vec<&str>)
        ensures
            strs_view(r@).to_set() == self@.globals.dom(),
            strs_view(r@).no_duplicates(),
    {
        proof {
            use_type_invariant(self);
            lemma_keyed(global_entries(self.globals@));
        }
        let mut names: Vec<&str> = Vec::new();
        let n = self.globals.len();
        let mut i: usize = 0;
        while i < n
            invariant
                n == self.globals@.len(),
                i <= n,
                names@.len() == i,
                forall|j: int| 0 <= j < i ==> #[trigger] names@[j]@ == self.globals@[j].0@,
            decreases n - i,
        {
            names.push(self.globals[i].0.as_str());
            i = i + 1;
        }
        proof {
            let s = global_entries(self.globals@);
            let keys = strs_view(names@);
            assert forall|j: int| 0 <= j < keys.len() implies #[trigger] keys[j] == s[j].0 by {
                assert(s[j] == (self.globals@[j].0@, view_opt(self.globals@[j].1)));
            }
            assert forall|k: Seq<char>| keys.to_set().contains(k) <==> self@.globals.contains_key(k) by {
                if keys.to_set().contains(k) {
                    let j = choose|j: int| 0 <= j < keys.len() && keys[j] == k;
                    assert(s[j].0 == k);
                }
                if self@.globals.contains_key(k) {
                    let j = choose|j: int| 0 <= j < s.len() && s[j].0 == k;
                    assert(keys[j] == k);
                    assert(keys.contains(k));
                }
            }
            assert(keys.to_set() =~= self@.globals.dom());
            assert forall|a: int, b: int| 0 <= a < keys.len() && 0 <= b < keys.len() && a != b implies keys[a]
                != keys[b] by {
                if a < b {
                    assert(s[a].0 != s[b].0);
                } else {
                    assert(s[b].0 != s[a].0);
                }
            }
        }
        names
    }
}

/// The value that `get_global` gives for `name`: the global's value, where it has one.
pub open spec fn global_value(c: SpecCtx, name: Seq<char>) -> Option<SpecExpr> {
    if c.globals.contains_key(name) {
        c.globals[name]
    } else {
        None
    }
}

/// After a function is added, looking its name up gives it, every other name gives what it
/// gave before, the globals are unchanged, and the names are the old ones and the new one.
pub proof fn law_get_func_after_add_func(before: SpecCtx, after: SpecCtx, f: SpecFunc, name: Seq<char>)
    requires
        after.funcs == before.funcs.insert(f.name, f),
        after.globals == before.globals,
    ensures
        after.funcs.contains_key(f.name) && after.funcs[f.name] == f,
        name != f.name ==> after.funcs.contains_key(name) == before.funcs.contains_key(name),
        name != f.name && before.funcs.contains_key(name) ==> after.funcs[name] == before.funcs[name],
        after.funcs.dom() == before.funcs.dom().insert(f.name),
        global_value(after, name) == global_value(before, name),
{
}

/// After a global is set, `get_global` gives the value it was set to (nothing for `None`),
/// every other global is as it was, and the functions are unchanged.
pub proof fn law_get_global_after_add_global(
    before: SpecCtx,
    after: SpecCtx,
    var: Seq<char>,
    value: Option<SpecExpr>,
    name: Seq<char>,
)
    requires
        after.globals == before.globals.insert(var, value),
        after.funcs == before.funcs,
    ensures
        global_value(after, var) == value,
        name != var ==> global_value(after, name) == global_value(before, name),
        after.globals.dom() == before.globals.dom().insert(var),
        after.funcs == before.funcs,
{
}

} // verus!
