use vstd::prelude::*;

use crate::builtins::builtin;
use crate::util::str_eq;
use crate::value::{Builtin, Value, ValueV};

verus! {

/// One scope: identifier-to-value bindings with unique names.
pub type Scope = Vec<(String, Value)>;

/// The model of one scope.
pub open spec fn scope_view(sc: Seq<(String, Value)>) -> Seq<(Seq<char>, ValueV)> {
    sc.map_values(|p: (String, Value)| (p.0@, p.1@))
}

/// The first binding of a name in a scope.
pub open spec fn scope_find(sc: Seq<(Seq<char>, ValueV)>, name: Seq<char>) -> Option<ValueV>
    decreases sc.len(),
{
    if sc.len() == 0 {
        None
    } else if sc[0].0 == name {
        Some(sc[0].1)
    } else {
        scope_find(sc.subrange(1, sc.len() as int), name)
    }
}

/// A scope with a name bound to a value: the name's first binding is
/// replaced, or a new binding is appended.
pub open spec fn scope_set(
    sc: Seq<(Seq<char>, ValueV)>,
    name: Seq<char>,
    v: ValueV,
) -> Seq<(Seq<char>, ValueV)>
    decreases sc.len(),
{
    if sc.len() == 0 {
        seq![(name, v)]
    } else if sc[0].0 == name {
        sc.update(0, (name, v))
    } else {
        seq![sc[0]] + scope_set(sc.subrange(1, sc.len() as int), name, v)
    }
}

/// The innermost binding of a name across the scope stack; the last scope
/// is the innermost.
pub open spec fn st_lookup(scopes: Seq<Seq<(Seq<char>, ValueV)>>, name: Seq<char>) -> Option<
    ValueV,
>
    decreases scopes.len(),
{
    if scopes.len() == 0 {
        None
    } else {
        match scope_find(scopes.last(), name) {
            Some(v) => Some(v),
            None => st_lookup(scopes.drop_last(), name),
        }
    }
}

/// The scope stack with a name bound in the innermost scope.
pub open spec fn st_insert(
    scopes: Seq<Seq<(Seq<char>, ValueV)>>,
    name: Seq<char>,
    v: ValueV,
) -> Seq<Seq<(Seq<char>, ValueV)>> {
    scopes.update(scopes.len() - 1, scope_set(scopes.last(), name, v))
}

/// The scope stack after writing a value over a name's innermost existing
/// binding, and whether one was found.
pub open spec fn st_assign(
    scopes: Seq<Seq<(Seq<char>, ValueV)>>,
    name: Seq<char>,
    v: ValueV,
) -> (Seq<Seq<(Seq<char>, ValueV)>>, bool)
    decreases scopes.len(),
{
    if scopes.len() == 0 {
        (scopes, false)
    } else if scope_find(scopes.last(), name) is Some {
        (scopes.update(scopes.len() - 1, scope_set(scopes.last(), name, v)), true)
    } else {
        let (rest, found) = st_assign(scopes.drop_last(), name, v);
        (rest.push(scopes.last()), found)
    }
}

/// A scoped mapping of identifiers to runtime values: lookups search the
/// scopes innermost to outermost and declarations write to the innermost
/// scope; a function call pushes a scope and its return pops it.
pub struct SymbolTable {
    pub tables: Vec<Scope>,
}

impl View for SymbolTable {
    type V = Seq<Seq<(Seq<char>, ValueV)>>;

    open spec fn view(&self) -> Seq<Seq<(Seq<char>, ValueV)>> {
        self.tables@.map_values(|sc: Scope| scope_view(sc@))
    }
}

/// Skipping bindings of other names keeps a scope's first match.
proof fn lemma_scope_find_skip(sc: Seq<(Seq<char>, ValueV)>, name: Seq<char>, k: int)
    requires
        0 <= k <= sc.len(),
        forall|j: int| 0 <= j < k ==> (#[trigger] sc[j]).0 != name,
    ensures
        scope_find(sc, name) == scope_find(sc.subrange(k, sc.len() as int), name),
    decreases k,
{
    if k > 0 {
        let t = sc.subrange(1, sc.len() as int);
        assert((sc[0]).0 != name);
        assert(forall|j: int| 0 <= j < k - 1 ==> (#[trigger] t[j]).0 != name);
        lemma_scope_find_skip(t, name, k - 1);
        assert(t.subrange(k - 1, t.len() as int) =~= sc.subrange(k, sc.len() as int));
    } else {
        assert(sc.subrange(0, sc.len() as int) =~= sc);
    }
}

/// Skipping outer scopes without a binding keeps the stack's lookup.
proof fn lemma_st_lookup_take(scopes: Seq<Seq<(Seq<char>, ValueV)>>, name: Seq<char>, k: int)
    requires
        0 <= k <= scopes.len(),
        forall|j: int| k <= j < scopes.len() ==> scope_find(#[trigger] scopes[j], name) is None,
    ensures
        st_lookup(scopes, name) == st_lookup(scopes.take(k), name),
    decreases scopes.len() - k,
{
    if k < scopes.len() {
        lemma_st_lookup_take(scopes, name, k + 1);
        assert(scopes.take(k + 1).last() == scopes[k]);
        assert(scopes.take(k + 1).drop_last() =~= scopes.take(k));
    } else {
        assert(scopes.take(k) =~= scopes);
    }
}

/// Finds a name's first binding in one scope and yields a copy.
fn scope_get(sc: &Scope, name: &str) -> (r: Option<Value>)
    ensures
        match scope_find(scope_view(sc@), name@) {
            Some(v) => r matches Some(got) && got@ == v,
            None => r is None,
        },
{
    let ghost scv = scope_view(sc@);
    let mut k: usize = 0;
    while k < sc.len()
        invariant
            k <= sc@.len(),
            scv == scope_view(sc@),
            forall|j: int| 0 <= j < k ==> (#[trigger] scv[j]).0 != name@,
        decreases sc@.len() - k,
    {
        proof {
            assert(scv[k as int] == (sc@[k as int].0@, sc@[k as int].1@));
        }
        if str_eq(sc[k].0.as_str(), name) {
            proof {
                lemma_scope_find_skip(scv, name@, k as int);
            }
            return Some(sc[k].1.duplicate());
        }
        k = k + 1;
    }
    proof {
        lemma_scope_find_skip(scv, name@, sc@.len() as int);
    }
    None
}

/// Writes a name's binding in one scope: over its first binding if one
/// exists, appended otherwise.
fn scope_put(sc: &mut Scope, name: String, value: Value)
    ensures
        scope_view(final (sc)@) == scope_set(scope_view(old(sc)@), name@, value@),
{
    let ghost scv = scope_view(sc@);
    let ghost namev = name@;
    let ghost valuev = value@;
    let mut k: usize = 0;
    while k < sc.len()
        invariant
            k <= sc@.len(),
            scv == scope_view(sc@),
            scv == scope_view(old(sc)@),
            namev == name@,
            valuev == value@,
            forall|j: int| 0 <= j < k ==> (#[trigger] scv[j]).0 != namev,
        decreases sc@.len() - k,
    {
        proof {
            assert(scv[k as int] == (sc@[k as int].0@, sc@[k as int].1@));
        }
        if str_eq(sc[k].0.as_str(), name.as_str()) {
            let ghost pre = sc@;
            sc[k] = (name, value);
            proof {
                lemma_scope_set_at(scv, k as int, namev, valuev);
                assert forall|j: int| 0 <= j < sc@.len() implies scope_view(sc@)[j] == scv.update(
                    k as int,
                    (namev, valuev),
                )[j] by {
                    assert(scope_view(sc@)[j] == (sc@[j].0@, sc@[j].1@));
                    if j != k {
                        assert(sc@[j] == pre[j]);
                        assert(scv[j] == (pre[j].0@, pre[j].1@));
                    } else {
                        assert(sc@[j].0@ == namev && sc@[j].1@ == valuev);
                    }
                }
                assert(scope_view(sc@) =~= scv.update(k as int, (namev, valuev)));
                assert(scope_view(sc@) =~~= scope_set(scv, namev, valuev));
            }
            return ;
        }
        k = k + 1;
    }
    sc.push((name, value));
    proof {
        lemma_scope_set_append(scv, namev, valuev);
        assert(scope_view(sc@) =~= scv.push((namev, valuev)));
        assert(scope_view(sc@) =~~= scope_set(scv, namev, valuev));
    }
}

/// Setting a name that first matches at `k` updates exactly that slot.
proof fn lemma_scope_set_at(sc: Seq<(Seq<char>, ValueV)>, k: int, name: Seq<char>, v: ValueV)
    requires
        0 <= k < sc.len(),
        forall|j: int| 0 <= j < k ==> (#[trigger] sc[j]).0 != name,
        sc[k].0 == name,
    ensures
        scope_set(sc, name, v) =~= sc.update(k, (name, v)),
    decreases k,
{
    if k > 0 {
        let t = sc.subrange(1, sc.len() as int);
        assert(forall|j: int| 0 <= j < k - 1 ==> (#[trigger] t[j]).0 != name);
        lemma_scope_set_at(t, k - 1, name, v);
        assert(scope_set(sc, name, v) == seq![sc[0]] + scope_set(t, name, v));
        assert(seq![sc[0]] + t.update(k - 1, (name, v)) =~= sc.update(k, (name, v)));
    }
}

/// Setting an unbound name appends it.
proof fn lemma_scope_set_append(sc: Seq<(Seq<char>, ValueV)>, name: Seq<char>, v: ValueV)
    requires
        forall|j: int| 0 <= j < sc.len() ==> (#[trigger] sc[j]).0 != name,
    ensures
        scope_set(sc, name, v) =~= sc.push((name, v)),
    decreases sc.len(),
{
    if sc.len() > 0 {
        let t = sc.subrange(1, sc.len() as int);
        assert(forall|j: int| 0 <= j < t.len() ==> (#[trigger] t[j]).0 != name);
        lemma_scope_set_append(t, name, v);
        assert(seq![sc[0]] + t.push((name, v)) =~= sc.push((name, v)));
    }
}

impl SymbolTable {
    /// Builds a table with one (global) scope.
    pub fn new() -> (r: SymbolTable)
        ensures
            r@.len() == 1,
            r@[0] =~= Seq::<(Seq<char>, ValueV)>::empty(),
    {
        let mut tables: Vec<Scope> = Vec::new();
        tables.push(Vec::new());
        SymbolTable { tables }
    }

    /// Binds a name in the innermost scope, shadowing outer bindings.
    pub fn insert(&mut self, identifier: String, value: Value)
        requires
            old(self)@.len() > 0,
        ensures
            final (self)@ == st_insert(old(self)@, identifier@, value@),
    {
        let ghost v0 = self@;
        let ghost namev = identifier@;
        let ghost valuev = value@;
        let last = self.tables.len() - 1;
        let sc = &mut self.tables[last];
        scope_put(sc, identifier, value);
        proof {
            assert forall|j: int| 0 <= j < self@.len() implies self@[j] == v0.update(
                v0.len() - 1,
                scope_set(v0.last(), namev, valuev),
            )[j] by {
                assert(self@[j] == scope_view(self.tables@[j]@));
                if j != last {
                    assert(self.tables@[j] == old(self).tables@[j]);
                    assert(v0[j] == scope_view(old(self).tables@[j]@));
                } else {
                    assert(v0.last() == scope_view(old(self).tables@[j]@));
                }
            }
            assert(self@ =~= v0.update(v0.len() - 1, scope_set(v0.last(), namev, valuev)));
        }
    }

    /// Binds a name-and-value pair in the innermost scope.
    pub fn insert_tuple(&mut self, pair: (String, Value))
        requires
            old(self)@.len() > 0,
        ensures
            final (self)@ == st_insert(old(self)@, pair.0@, pair.1@),
    {
        let (identifier, value) = pair;
        self.insert(identifier, value);
    }

    /// Looks a name up, innermost scope first, and yields a copy of its
    /// value.
    pub fn get(&self, identifier: &str) -> (r: Option<Value>)
        ensures
            match st_lookup(self@, identifier@) {
                Some(v) => r matches Some(got) && got@ == v,
                None => r is None,
            },
    {
        let ghost v0 = self@;
        let mut si: usize = self.tables.len();
        while si > 0
            invariant
                si <= self.tables@.len(),
                v0 == self@,
                forall|j: int|
                    si <= j < v0.len() ==> scope_find(#[trigger] v0[j], identifier@) is None,
            decreases si,
        {
            si = si - 1;
            proof {
                assert(v0[si as int] == scope_view(self.tables@[si as int]@));
            }
            let found = scope_get(&self.tables[si], identifier);
            if found.is_some() {
                proof {
                    lemma_st_lookup_take(v0, identifier@, si + 1 as int);
                    assert(v0.take(si + 1 as int).last() == v0[si as int]);
                }
                return found;
            }
        }
        proof {
            lemma_st_lookup_take(v0, identifier@, 0);
        }
        None
    }

    /// Whether a name is bound in any scope.
    pub fn contains(&self, identifier: &str) -> (r: bool)
        ensures
            r == (st_lookup(self@, identifier@) is Some),
    {
        self.get(identifier).is_some()
    }

    /// Writes a value over a name's innermost existing binding; reports
    /// whether one was found.
    pub fn assign(&mut self, identifier: &str, value: Value) -> (r: bool)
        ensures
            (final (self)@, r) == st_assign(old(self)@, identifier@, value@),
    {
        let ghost v0 = self@;
        let mut si: usize = self.tables.len();
        while si > 0
            invariant
                si <= self.tables@.len(),
                v0 == self@,
                v0 == old(self)@,
                forall|j: int|
                    si <= j < v0.len() ==> scope_find(#[trigger] v0[j], identifier@) is None,
            decreases si,
        {
            si = si - 1;
            proof {
                assert(v0[si as int] == scope_view(self.tables@[si as int]@));
            }
            let found = scope_get(&self.tables[si], identifier);
            if found.is_some() {
                let ghost valuev = value@;
                let ghost tb = self.tables@;
                let name = identifier.to_owned();
                let sc = &mut self.tables[si];
                scope_put(sc, name, value);
                proof {
                    lemma_st_assign_at(v0, identifier@, valuev, si as int);
                    assert forall|j: int| 0 <= j < self@.len() implies self@[j] == v0.update(
                        si as int,
                        scope_set(v0[si as int], identifier@, valuev),
                    )[j] by {
                        assert(self@[j] == scope_view(self.tables@[j]@));
                        if j != si {
                            assert(self.tables@[j] == tb[j]);
                            assert(v0[j] == scope_view(tb[j]@));
                        } else {
                            assert(v0[j] == scope_view(tb[j]@));
                        }
                    }
                    assert(self@ =~= v0.update(
                        si as int,
                        scope_set(v0[si as int], identifier@, valuev),
                    ));
                    assert(self@ =~~= st_assign(v0, identifier@, valuev).0);
                }
                return true;
            }
        }
        proof {
            lemma_st_assign_none(v0, identifier@, value@);
        }
        false
    }

    /// Opens a fresh innermost scope.
    pub fn scope(&mut self)
        ensures
            final (self)@ == old(self)@.push(Seq::<(Seq<char>, ValueV)>::empty()),
    {
        self.tables.push(Vec::new());
        proof {
            assert forall|j: int| 0 <= j < self@.len() implies self@[j] == old(self)@.push(
                Seq::<(Seq<char>, ValueV)>::empty(),
            )[j] by {
                assert(self@[j] == scope_view(self.tables@[j]@));
                if j < old(self)@.len() {
                    assert(self.tables@[j] == old(self).tables@[j]);
                    assert(old(self)@[j] == scope_view(old(self).tables@[j]@));
                } else {
                    assert(scope_view(self.tables@[j]@) =~= Seq::<(Seq<char>, ValueV)>::empty());
                }
            }
            assert(self@ =~= old(self)@.push(Seq::<(Seq<char>, ValueV)>::empty()));
        }
    }

    /// Binds the built-in functions in the innermost scope.
    pub fn add_builtins(&mut self)
        requires
            old(self)@.len() > 0,
        ensures
            final (self)@ == with_builtins(old(self)@),
    {
        let a1 = vec!["x"];
        let a2 = vec!["x"];
        let a3 = vec!["exit_code"];
        let a4: Vec<&str> = Vec::new();
        let a5 = vec!["string"];
        let a6 = vec!["value"];
        proof {
            assert(a1@.map_values(|s: &str| s@) =~= seq!["x"@]);
            assert(a2@.map_values(|s: &str| s@) =~= seq!["x"@]);
            assert(a3@.map_values(|s: &str| s@) =~= seq!["exit_code"@]);
            assert(a4@.map_values(|s: &str| s@) =~= Seq::<Seq<char>>::empty());
            assert(a5@.map_values(|s: &str| s@) =~= seq!["string"@]);
            assert(a6@.map_values(|s: &str| s@) =~= seq!["value"@]);
        }
        self.insert_tuple(builtin("println", a1, Builtin::Println));
        self.insert_tuple(builtin("print", a2, Builtin::Print));
        self.insert_tuple(builtin("exit", a3, Builtin::Exit));
        self.insert_tuple(builtin("input", a4, Builtin::Input));
        self.insert_tuple(builtin("integer", a5, Builtin::Integer));
        self.insert_tuple(builtin("string", a6, Builtin::String));
    }

    /// Closes the innermost scope; the global scope stays.
    pub fn unscope(&mut self)
        requires
            old(self)@.len() > 1,
        ensures
            final (self)@ == old(self)@.drop_last(),
    {
        self.tables.pop();
        proof {
            assert forall|j: int| 0 <= j < self@.len() implies self@[j] == old(self)@.drop_last()[j]
                by {
                assert(self.tables@[j] == old(self).tables@[j]);
            }
            assert(self@ =~= old(self)@.drop_last());
        }
    }
}

/// A built-in function value as the global scope holds it.
pub open spec fn builtin_value(name: Seq<char>, args: Seq<Seq<char>>, b: Builtin) -> ValueV {
    ValueV::BuiltInFunction { name, arguments: args, builtin: b }
}

/// The scope stack with the interpreter's built-in functions bound.
pub open spec fn with_builtins(scopes: Seq<Seq<(Seq<char>, ValueV)>>) -> Seq<
    Seq<(Seq<char>, ValueV)>,
> {
    let s1 = st_insert(
        scopes,
        "println"@,
        builtin_value("println"@, seq!["x"@], Builtin::Println),
    );
    let s2 = st_insert(s1, "print"@, builtin_value("print"@, seq!["x"@], Builtin::Print));
    let s3 = st_insert(
        s2,
        "exit"@,
        builtin_value("exit"@, seq!["exit_code"@], Builtin::Exit),
    );
    let s4 = st_insert(s3, "input"@, builtin_value("input"@, Seq::empty(), Builtin::Input));
    let s5 = st_insert(
        s4,
        "integer"@,
        builtin_value("integer"@, seq!["string"@], Builtin::Integer),
    );
    st_insert(s5, "string"@, builtin_value("string"@, seq!["value"@], Builtin::String))
}

/// Assigning a name whose innermost binding sits in scope `k` updates
/// exactly that scope.
proof fn lemma_st_assign_at(
    scopes: Seq<Seq<(Seq<char>, ValueV)>>,
    name: Seq<char>,
    v: ValueV,
    k: int,
)
    requires
        0 <= k < scopes.len(),
        scope_find(scopes[k], name) is Some,
        forall|j: int| k < j < scopes.len() ==> scope_find(#[trigger] scopes[j], name) is None,
    ensures
        st_assign(scopes, name, v) == (scopes.update(k, scope_set(scopes[k], name, v)), true),
    decreases scopes.len(),
{
    if k + 1 == scopes.len() {
        assert(scopes.update(k, scope_set(scopes[k], name, v)) =~= scopes.update(
            scopes.len() - 1,
            scope_set(scopes.last(), name, v),
        ));
    } else {
        let d = scopes.drop_last();
        assert(forall|j: int| k < j < d.len() ==> scope_find(#[trigger] d[j], name) is None);
        lemma_st_assign_at(d, name, v, k);
        assert(d.update(k, scope_set(d[k], name, v)).push(scopes.last()) =~= scopes.update(
            k,
            scope_set(scopes[k], name, v),
        ));
    }
}

/// An assignment that found no binding leaves the stack as it was.
pub proof fn lemma_st_assign_unchanged(
    scopes: Seq<Seq<(Seq<char>, ValueV)>>,
    name: Seq<char>,
    v: ValueV,
)
    ensures
        !st_assign(scopes, name, v).1 ==> st_assign(scopes, name, v).0 == scopes,
    decreases scopes.len(),
{
    if scopes.len() > 0 && !(scope_find(scopes.last(), name) is Some) {
        lemma_st_assign_unchanged(scopes.drop_last(), name, v);
        if !st_assign(scopes, name, v).1 {
            assert(scopes.drop_last().push(scopes.last()) =~= scopes);
        }
    }
}

/// Assigning a name with no binding anywhere changes nothing.
proof fn lemma_st_assign_none(scopes: Seq<Seq<(Seq<char>, ValueV)>>, name: Seq<char>, v: ValueV)
    requires
        forall|j: int| 0 <= j < scopes.len() ==> scope_find(#[trigger] scopes[j], name) is None,
    ensures
        st_assign(scopes, name, v) == (scopes, false),
    decreases scopes.len(),
{
    if scopes.len() > 0 {
        let d = scopes.drop_last();
        lemma_st_assign_none(d, name, v);
        assert(d.push(scopes.last()) =~= scopes);
    }
}

} // verus!
