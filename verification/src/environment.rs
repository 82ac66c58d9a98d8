//! Lexically scoped environments: a stack of scopes over a global scope,
//! mapping variables, functions, tests and algebraic data types.
use vstd::prelude::*;
use indexmap::IndexMap;
use crate::ast::{clone_function, FuncSignature, FuncSignatureV, Function, FunctionV, Name, Type, TypeV};
use crate::table::{as_map, distinct_keys, has_key, key_index, lemma_value_at, seq_move_last, value_at, Binding, Table};
use crate::test_map::{
    test_entries, test_map_clone, test_map_get_index, test_map_get_index_of, test_map_insert,
    test_map_len, test_map_new,
};

verus! {

/// The constructors of an algebraic data type, each with its field types.
pub type Constructors = Vec<(Name, Vec<Type>)>;

/// A single scope: its variables (with their mutability), functions (keyed by
/// signature), algebraic data types and tests.
pub struct Scope<A> {
    pub variables: Table<Name, (bool, A)>,
    pub functions: Table<FuncSignature, Function>,
    pub adts: Table<Name, Constructors>,
    pub tests: IndexMap<Name, Function>,
}

impl<A: Binding> Scope<A> {
    /// The tables of the scope have distinct keys.
    pub open spec fn wf(&self) -> bool {
        &&& self.variables.wf()
        &&& self.functions.wf()
        &&& self.adts.wf()
        &&& distinct_keys(test_entries(self.tests))
    }

    /// The variables of the scope.
    pub open spec fn vars(&self) -> Map<Seq<char>, (bool, A::M)> {
        self.variables.view_map()
    }

    /// The functions of the scope, in the order they were last mapped: a
    /// signature mapped again leaves its place and goes last.
    pub open spec fn funcs(&self) -> Seq<(FuncSignatureV, FunctionV)> {
        self.functions.model()
    }

    /// The tests of the scope in definition order.
    pub open spec fn test_list(&self) -> Seq<(Seq<char>, FunctionV)> {
        test_entries(self.tests)
    }

    /// An empty scope.
    pub fn new() -> (r: Scope<A>)
        ensures
            r.wf(),
            r.vars() == Map::<Seq<char>, (bool, A::M)>::empty(),
            r.funcs() == Seq::<(FuncSignatureV, FunctionV)>::empty(),
            r.adts.view_map() == Map::<Seq<char>, Seq<(Seq<char>, Seq<TypeV>)>>::empty(),
            r.test_list() == Seq::<(Seq<char>, FunctionV)>::empty(),
    {
        let r = Scope {
            variables: Table::new(),
            functions: Table::new(),
            adts: Table::new(),
            tests: test_map_new(),
        };
        assert(r.vars() =~= Map::<Seq<char>, (bool, A::M)>::empty());
        assert(r.adts.view_map() =~= Map::<Seq<char>, Seq<(Seq<char>, Seq<TypeV>)>>::empty());
        r
    }

    /// A copy of the scope.
    pub fn duplicate(&self) -> (r: Scope<A>)
        requires
            self.wf(),
        ensures
            r.wf(),
            r.variables.model() == self.variables.model(),
            r.functions.model() == self.functions.model(),
            r.adts.model() == self.adts.model(),
            r.test_list() == self.test_list(),
    {
        Scope {
            variables: self.variables.duplicate(),
            functions: self.functions.duplicate(),
            adts: self.adts.duplicate(),
            tests: test_map_clone(&self.tests),
        }
    }

    /// The function of the given name that was mapped most recently in this
    /// scope.
    pub fn lookup_function_by_name(&self, name: &Name) -> (r: Option<&Function>)
        requires
            self.wf(),
        ensures
            r is None <==> !has_name(self.funcs(), name@),
            r matches Some(f) ==> f@ == self.funcs()[last_with_name(self.funcs(), name@)].1,
    {
        let n = self.functions.len();
        let mut i: usize = n;
        while i > 0
            invariant
                i <= n,
                n == self.funcs().len(),
                forall|j: int| i <= j < n ==> #[trigger] self.funcs()[j].0.name != name@,
            decreases i,
        {
            let (sig, f) = self.functions.entry(i - 1);
            if sig.name == *name {
                proof {
                    lemma_last_with_name(self.funcs(), name@, i - 1);
                }
                return Some(f);
            }
            i = i - 1;
        }
        None
    }

    /// The test of the given name in this scope.
    pub fn lookup_test(&self, name: &Name) -> (r: Option<&Function>)
        requires
            self.wf(),
        ensures
            r is None <==> !has_key(self.test_list(), name@),
            r matches Some(f) ==> f@ == value_at(self.test_list(), name@),
    {
        match test_map_get_index_of(&self.tests, name) {
            Some(i) => {
                let (_, f) = test_map_get_index(&self.tests, i);
                proof {
                    lemma_value_at(self.test_list(), i as int);
                }
                Some(f)
            },
            None => None,
        }
    }
}

/// Some function of the table has the given name.
pub open spec fn has_name(s: Seq<(FuncSignatureV, FunctionV)>, name: Seq<char>) -> bool {
    exists|i: int| 0 <= i < s.len() && s[i].0.name == name
}

/// The last position of a function of the given name.
pub open spec fn last_with_name(s: Seq<(FuncSignatureV, FunctionV)>, name: Seq<char>) -> int {
    choose|i: int|
        0 <= i < s.len() && s[i].0.name == name && forall|j: int|
            i < j < s.len() ==> #[trigger] s[j].0.name != name
}

proof fn lemma_last_with_name(s: Seq<(FuncSignatureV, FunctionV)>, name: Seq<char>, i: int)
    requires
        0 <= i < s.len(),
        s[i].0.name == name,
        forall|j: int| i < j < s.len() ==> #[trigger] s[j].0.name != name,
    ensures
        last_with_name(s, name) == i,
        has_name(s, name),
{
    let k = last_with_name(s, name);
    assert(0 <= k < s.len() && s[k].0.name == name && forall|j: int|
        k < j < s.len() ==> #[trigger] s[j].0.name != name);
    if k < i {
        assert(s[i].0.name != name);
    } else if k > i {
        assert(s[k].0.name != name);
    }
}

} // verus!

verus! {

/// A function or a variable binding, as found by
/// [`Environment::lookup_var_or_func`].
pub enum FuncOrVar<A> {
    Func(Function),
    Var((bool, A)),
}

/// The model of a [`FuncOrVar`].
pub enum FuncOrVarV<M> {
    Func(FunctionV),
    Var((bool, M)),
}

/// The outcome of running one `test` definition.
pub struct TestResult {
    pub name: Name,
    pub result: bool,
    pub error: Option<String>,
}

impl TestResult {
    /// A test result with the given name, outcome and error message.
    pub fn new(name: Name, result: bool, error: Option<String>) -> (r: Self)
        ensures
            r.name == name,
            r.result == result,
            r.error == error,
    {
        TestResult { name, result, error }
    }
}

/// A variable looked up from the innermost scope outwards, then in the
/// global scope.
pub open spec fn var_lookup<A: Binding>(stack: Seq<Scope<A>>, globals: Scope<A>, k: Seq<char>) -> Option<(bool, A::M)>
    decreases stack.len(),
{
    if stack.len() == 0 {
        if globals.vars().dom().contains(k) {
            Some(globals.vars()[k])
        } else {
            None
        }
    } else if stack.last().vars().dom().contains(k) {
        Some(stack.last().vars()[k])
    } else {
        var_lookup(stack.drop_last(), globals, k)
    }
}

/// A function looked up by its exact signature, innermost scope first.
pub open spec fn func_lookup<A: Binding>(stack: Seq<Scope<A>>, globals: Scope<A>, sig: FuncSignatureV) -> Option<FunctionV>
    decreases stack.len(),
{
    if stack.len() == 0 {
        if globals.functions.view_map().dom().contains(sig) {
            Some(globals.functions.view_map()[sig])
        } else {
            None
        }
    } else if stack.last().functions.view_map().dom().contains(sig) {
        Some(stack.last().functions.view_map()[sig])
    } else {
        func_lookup(stack.drop_last(), globals, sig)
    }
}

/// The function of a scope defined last under a name, if any.
pub open spec fn scope_func_by_name<A: Binding>(s: Scope<A>, name: Seq<char>) -> Option<FunctionV> {
    if has_name(s.funcs(), name) {
        Some(s.funcs()[last_with_name(s.funcs(), name)].1)
    } else {
        None
    }
}

/// A function looked up by name only, innermost scope first; in a scope, the
/// one defined last.
pub open spec fn func_by_name_lookup<A: Binding>(stack: Seq<Scope<A>>, globals: Scope<A>, name: Seq<char>) -> Option<FunctionV>
    decreases stack.len(),
{
    if stack.len() == 0 {
        scope_func_by_name(globals, name)
    } else if scope_func_by_name(stack.last(), name) is Some {
        scope_func_by_name(stack.last(), name)
    } else {
        func_by_name_lookup(stack.drop_last(), globals, name)
    }
}

/// A variable or else a function of the name, scope by scope, innermost
/// first: in each scope a variable wins over a function.
pub open spec fn var_or_func_lookup<A: Binding>(stack: Seq<Scope<A>>, globals: Scope<A>, name: Seq<char>) -> Option<FuncOrVarV<A::M>>
    decreases stack.len(),
{
    let s = if stack.len() == 0 { globals } else { stack.last() };
    if s.vars().dom().contains(name) {
        Some(FuncOrVarV::Var(s.vars()[name]))
    } else if scope_func_by_name(s, name) is Some {
        Some(FuncOrVarV::Func(scope_func_by_name(s, name).unwrap()))
    } else if stack.len() == 0 {
        None
    } else {
        var_or_func_lookup(stack.drop_last(), globals, name)
    }
}

/// A test looked up by name, innermost scope first.
pub open spec fn test_lookup<A: Binding>(stack: Seq<Scope<A>>, globals: Scope<A>, name: Seq<char>) -> Option<FunctionV>
    decreases stack.len(),
{
    let s = if stack.len() == 0 { globals } else { stack.last() };
    if has_key(s.test_list(), name) {
        Some(value_at(s.test_list(), name))
    } else if stack.len() == 0 {
        None
    } else {
        test_lookup(stack.drop_last(), globals, name)
    }
}

/// An algebraic data type looked up by name, innermost scope first.
pub open spec fn adt_lookup<A: Binding>(stack: Seq<Scope<A>>, globals: Scope<A>, name: Seq<char>) -> Option<Seq<(Seq<char>, Seq<TypeV>)>>
    decreases stack.len(),
{
    let s = if stack.len() == 0 { globals } else { stack.last() };
    if s.adts.view_map().dom().contains(name) {
        Some(s.adts.view_map()[name])
    } else if stack.len() == 0 {
        None
    } else {
        adt_lookup(stack.drop_last(), globals, name)
    }
}

/// All tests: those of the innermost scope first, each scope's in definition
/// order, the global ones last.
pub open spec fn all_tests<A: Binding>(stack: Seq<Scope<A>>, globals: Scope<A>) -> Seq<FunctionV>
    decreases stack.len(),
{
    if stack.len() == 0 {
        globals.test_list().map_values(|e: (Seq<char>, FunctionV)| e.1)
    } else {
        stack.last().test_list().map_values(|e: (Seq<char>, FunctionV)| e.1) + all_tests(
            stack.drop_last(),
            globals,
        )
    }
}

/// All visible functions by signature: the global ones, overridden by those
/// of each scope from the outermost to the innermost.
pub open spec fn all_functions<A: Binding>(stack: Seq<Scope<A>>, globals: Scope<A>) -> Map<FuncSignatureV, FunctionV>
    decreases stack.len(),
{
    if stack.len() == 0 {
        globals.functions.view_map()
    } else {
        all_functions(stack.drop_last(), globals).union_prefer_right(
            stack.last().functions.view_map(),
        )
    }
}

/// An environment: the signature of the function being checked or run, the
/// global scope, and a stack of local scopes whose last element is the
/// innermost.
pub struct Environment<A> {
    pub current_func: FuncSignature,
    pub globals: Scope<A>,
    pub stack: Vec<Scope<A>>,
}

impl<A: Binding> Environment<A> {
    /// Every scope is well formed.
    pub open spec fn wf(&self) -> bool {
        &&& self.globals.wf()
        &&& forall|i: int| 0 <= i < self.stack@.len() ==> (#[trigger] self.stack@[i]).wf()
    }

    /// The scope where new bindings go: the innermost one, or the global
    /// scope when there is no local scope.
    pub open spec fn top(&self) -> Scope<A> {
        if self.stack@.len() == 0 {
            self.globals
        } else {
            self.stack@.last()
        }
    }

    /// `new` differs from `old` at most in its innermost (or, without local
    /// scopes, its global) scope.
    pub open spec fn same_below_top(old: &Self, new: &Self) -> bool {
        &&& new.current_func == old.current_func
        &&& new.stack@.len() == old.stack@.len()
        &&& old.stack@.len() > 0 ==> {
            &&& new.globals == old.globals
            &&& forall|i: int| 0 <= i < old.stack@.len() - 1 ==> new.stack@[i] == old.stack@[i]
        }
    }

    /// The innermost scope of `new` is that of `old` with `f` as its
    /// variables; everything else is unchanged.
    pub open spec fn top_vars_set(old: &Self, new: &Self, vars: Map<Seq<char>, (bool, A::M)>) -> bool {
        &&& Self::same_below_top(old, new)
        &&& new.top().vars() == vars
        &&& new.top().functions == old.top().functions
        &&& new.top().adts == old.top().adts
        &&& new.top().tests == old.top().tests
    }

    /// The variable looked up through the scope chain.
    pub open spec fn lookup_spec(&self, k: Seq<char>) -> Option<(bool, A::M)> {
        var_lookup(self.stack@, self.globals, k)
    }

    /// An environment with an empty global scope and no local scope.
    pub fn new() -> (r: Environment<A>)
        ensures
            r.wf(),
            r.stack@.len() == 0,
            r.current_func@ == (FuncSignatureV { name: seq![], argument_types: seq![] }),
            r.globals.vars() == Map::<Seq<char>, (bool, A::M)>::empty(),
            r.globals.funcs() == Seq::<(FuncSignatureV, FunctionV)>::empty(),
            r.globals.adts.view_map() == Map::<Seq<char>, Seq<(Seq<char>, Seq<TypeV>)>>::empty(),
            r.globals.test_list() == Seq::<(Seq<char>, FunctionV)>::empty(),
    {
        Environment { current_func: FuncSignature::new(), globals: Scope::new(), stack: Vec::new() }
    }

    /// A copy of the environment.
    pub fn duplicate(&self) -> (r: Environment<A>)
        requires
            self.wf(),
        ensures
            r.wf(),
            r.current_func@ == self.current_func@,
            Self::same_models(self, &r),
            r.model() == self.model(),
    {
        let mut stack: Vec<Scope<A>> = Vec::new();
        let mut i: usize = 0;
        while i < self.stack.len()
            invariant
                self.wf(),
                i <= self.stack.len(),
                stack@.len() == i,
                forall|j: int| 0 <= j < i ==> (#[trigger] stack@[j]).wf() && Self::same_scope(self.stack@[j], stack@[j]),
            decreases self.stack.len() - i,
        {
            let s = self.stack[i].duplicate();
            stack.push(s);
            i = i + 1;
        }
        let r = Environment { current_func: self.current_func.clone(), globals: self.globals.duplicate(), stack };
        assert(scopes_model(r.stack@) =~= scopes_model(self.stack@));
        r
    }

    /// Two scopes hold the same bindings.
    pub open spec fn same_scope(a: Scope<A>, b: Scope<A>) -> bool {
        &&& a.variables.model() == b.variables.model()
        &&& a.functions.model() == b.functions.model()
        &&& a.adts.model() == b.adts.model()
        &&& a.test_list() == b.test_list()
    }

    /// Two environments hold the same bindings, scope by scope.
    pub open spec fn same_models(a: &Self, b: &Self) -> bool {
        &&& Self::same_scope(a.globals, b.globals)
        &&& a.stack@.len() == b.stack@.len()
        &&& forall|i: int| 0 <= i < a.stack@.len() ==> #[trigger] Self::same_scope(a.stack@[i], b.stack@[i])
    }

    /// The signature of the function being checked or run.
    pub fn get_current_func(&self) -> (r: FuncSignature)
        ensures
            r@ == self.current_func@,
    {
        self.current_func.clone()
    }

    /// Records the function being checked or run.
    pub fn set_current_func(&mut self, func_signature: &FuncSignature)
        ensures
            final(self).current_func@ == func_signature@,
            final(self).globals == old(self).globals,
            final(self).stack == old(self).stack,
    {
        self.current_func = func_signature.clone();
    }

    /// The innermost scope, or the global scope when there is no local one.
    pub fn get_current_scope(&self) -> (r: &Scope<A>)
        ensures
            *r == self.top(),
    {
        let n = self.stack.len();
        if n == 0 {
            &self.globals
        } else {
            &self.stack[n - 1]
        }
    }

    /// Replaces the table of global functions.
    pub fn set_global_functions(&mut self, global_functions: Table<FuncSignature, Function>)
        requires
            old(self).wf(),
            global_functions.wf(),
        ensures
            final(self).wf(),
            final(self).globals.functions == global_functions,
            final(self).globals.variables == old(self).globals.variables,
            final(self).globals.adts == old(self).globals.adts,
            final(self).globals.tests == old(self).globals.tests,
            final(self).stack == old(self).stack,
            final(self).current_func == old(self).current_func,
    {
        self.globals.functions = global_functions;
    }

    /// Whether a local scope is open (as inside a function body).
    pub fn scoped_function(&self) -> (r: bool)
        ensures
            r == (self.stack@.len() > 0),
    {
        self.stack.len() > 0
    }

    /// Opens a new, empty innermost scope.
    pub fn push(&mut self)
        requires
            old(self).wf(),
        ensures
            final(self).wf(),
            final(self).globals == old(self).globals,
            final(self).current_func == old(self).current_func,
            final(self).stack@.len() == old(self).stack@.len() + 1,
            final(self).stack@.drop_last() == old(self).stack@,
            final(self).top().vars() == Map::<Seq<char>, (bool, A::M)>::empty(),
            final(self).top().funcs() == Seq::<(FuncSignatureV, FunctionV)>::empty(),
            final(self).top().adts.view_map() == Map::<Seq<char>, Seq<(Seq<char>, Seq<TypeV>)>>::empty(),
            final(self).top().test_list() == Seq::<(Seq<char>, FunctionV)>::empty(),
            final(self).model() == old(self).model().push(),
    {
        self.stack.push(Scope::new());
        assert(self.stack@.drop_last() =~= old(self).stack@);
        assert(scopes_model(self.stack@) =~= scopes_model(old(self).stack@).push(empty_scope()));
    }

    /// Closes the innermost scope, if there is one; the global scope always
    /// stays.
    pub fn pop(&mut self)
        requires
            old(self).wf(),
        ensures
            final(self).wf(),
            final(self).globals == old(self).globals,
            final(self).current_func == old(self).current_func,
            old(self).stack@.len() > 0 ==> final(self).stack@ == old(self).stack@.drop_last(),
            old(self).stack@.len() == 0 ==> final(self).stack@ == old(self).stack@,
            final(self).model() == old(self).model().pop(),
    {
        if self.stack.len() > 0 {
            self.stack.pop();
            assert(scopes_model(self.stack@) =~= scopes_model(old(self).stack@).drop_last());
        }
    }
}

} // verus!

verus! {

/// The innermost scope that binds `k`: a position in the stack, or -1 for the
/// global scope (or no scope at all).
pub open spec fn var_home<A: Binding>(stack: Seq<Scope<A>>, k: Seq<char>) -> int
    decreases stack.len(),
{
    if stack.len() == 0 {
        -1
    } else if stack.last().vars().dom().contains(k) {
        stack.len() - 1
    } else {
        var_home(stack.drop_last(), k)
    }
}

proof fn lemma_var_home<A: Binding>(stack: Seq<Scope<A>>, globals: Scope<A>, k: Seq<char>)
    ensures
        -1 <= var_home(stack, k) < stack.len(),
        var_home(stack, k) >= 0 ==> stack[var_home(stack, k)].vars().dom().contains(k)
            && var_lookup(stack, globals, k) == Some(stack[var_home(stack, k)].vars()[k]),
        var_home(stack, k) == -1 ==> var_lookup(stack, globals, k) == (if globals.vars().dom().contains(k) {
            Some(globals.vars()[k])
        } else {
            None::<(bool, A::M)>
        }),
        forall|j: int|
            var_home(stack, k) < j < stack.len() ==> !(#[trigger] stack[j]).vars().dom().contains(k),
    decreases stack.len(),
{
    if stack.len() > 0 && !stack.last().vars().dom().contains(k) {
        lemma_var_home(stack.drop_last(), globals, k);
        assert forall|j: int| var_home(stack, k) < j < stack.len() implies !(#[trigger] stack[j]).vars().dom().contains(k) by {
            if j < stack.len() - 1 {
                assert(stack[j] == stack.drop_last()[j]);
            }
        }
    }
}

/// Variable lookup only depends on the variables of each scope.
proof fn lemma_var_lookup_vars<A: Binding>(s1: Seq<Scope<A>>, g1: Scope<A>, s2: Seq<Scope<A>>, g2: Scope<A>, k: Seq<char>)
    requires
        s1.len() == s2.len(),
        g1.vars() == g2.vars(),
        forall|i: int| 0 <= i < s1.len() ==> (#[trigger] s1[i]).vars() == s2[i].vars(),
    ensures
        var_lookup(s1, g1, k) == var_lookup(s2, g2, k),
    decreases s1.len(),
{
    if s1.len() > 0 {
        lemma_var_lookup_vars(s1.drop_last(), g1, s2.drop_last(), g2, k);
    }
}

/// Changing the variables of the innermost scope changes lookups accordingly.
proof fn lemma_lookup_after_top_change<A: Binding>(old: Environment<A>, new: Environment<A>, x: Seq<char>, val: (bool, A::M), k: Seq<char>)
    requires
        Environment::<A>::same_below_top(&old, &new),
        new.top().vars() == old.top().vars().insert(x, val),
    ensures
        new.lookup_spec(k) == (if k == x {
            Some(val)
        } else {
            old.lookup_spec(k)
        }),
{
    if old.stack@.len() > 0 {
        assert(new.stack@.drop_last() =~= old.stack@.drop_last());
    }
}

impl<A: Binding> Environment<A> {
    /// Binds a variable, with its mutability, in the innermost scope (the
    /// global one when there is no local scope). A binding of the same name in
    /// that scope is replaced.
    pub fn map_variable(&mut self, var: Name, mutable: bool, value: A)
        requires
            old(self).wf(),
        ensures
            final(self).wf(),
            Self::top_vars_set(
                old(self),
                final(self),
                old(self).top().vars().insert(var@, (mutable, value.model())),
            ),
            forall|k: Seq<char>|
                #[trigger] final(self).lookup_spec(k) == (if k == var@ {
                    Some((mutable, value.model()))
                } else {
                    old(self).lookup_spec(k)
                }),
            final(self).model() == old(self).model().declare(var@, mutable, value.model()),
    {
        let ghost vm = (mutable, value.model());
        let ghost x = var@;
        let n = self.stack.len();
        if n == 0 {
            self.globals.variables.insert(var, (mutable, value));
        } else {
            self.stack[n - 1].variables.insert(var, (mutable, value));
        }
        assert forall|k: Seq<char>| #[trigger] self.lookup_spec(k) == (if k == x {
            Some(vm)
        } else {
            old(self).lookup_spec(k)
        }) by {
            lemma_lookup_after_top_change(*old(self), *self, x, vm, k);
        }
        proof {
            lemma_model_with_top(*old(self), *self);
            lemma_model_top(*old(self));
        }
    }

    /// Binds a function in the innermost scope under its signature. A function
    /// of the same signature in that scope is replaced.
    pub fn map_function(&mut self, function: Function)
        requires
            old(self).wf(),
        ensures
            final(self).wf(),
            Self::same_below_top(old(self), final(self)),
            final(self).top().functions.view_map() == old(self).top().functions.view_map().insert(
                FuncSignatureV { name: function@.name, argument_types: crate::ast::param_types(function@.params) },
                function@,
            ),
            final(self).top().variables == old(self).top().variables,
            final(self).top().adts == old(self).top().adts,
            final(self).top().tests == old(self).top().tests,
            final(self).model() == old(self).model().define_function(function@),
    {
        let ghost fv = function@;
        let sig = FuncSignature::from_func(&function);
        let n = self.stack.len();
        if n == 0 {
            self.globals.functions.insert_last(sig, function);
        } else {
            self.stack[n - 1].functions.insert_last(sig, function);
        }
        proof {
            lemma_model_with_top(*old(self), *self);
            lemma_model_top(*old(self));
            assert(self.top().model() == (ScopeM {
                vars: old(self).top().vars(),
                funcs: seq_move_last(old(self).top().funcs(), signature_of(fv), fv),
                tests: old(self).top().test_list(),
                adts: old(self).top().adts.view_map(),
            }));
        }
    }

    /// Registers a test definition in the innermost scope. A test of the same
    /// name keeps its place and gets the new definition.
    pub fn map_test(&mut self, test: Function)
        requires
            old(self).wf(),
        ensures
            final(self).wf(),
            Self::same_below_top(old(self), final(self)),
            has_key(old(self).top().test_list(), test@.name) ==> final(self).top().test_list()
                == old(self).top().test_list().update(
                key_index(old(self).top().test_list(), test@.name),
                (test@.name, test@),
            ),
            !has_key(old(self).top().test_list(), test@.name) ==> final(self).top().test_list()
                == old(self).top().test_list().push((test@.name, test@)),
            final(self).top().variables == old(self).top().variables,
            final(self).top().functions == old(self).top().functions,
            final(self).top().adts == old(self).top().adts,
            final(self).model() == old(self).model().define_test(test@),
    {
        let name = test.name.clone();
        let n = self.stack.len();
        let ghost entries = old(self).top().test_list();
        proof {
            if has_key(entries, test@.name) {
                let i = key_index(entries, test@.name);
                lemma_value_at(entries, i);
            }
        }
        if n == 0 {
            test_map_insert(&mut self.globals.tests, name, test);
        } else {
            test_map_insert(&mut self.stack[n - 1].tests, name, test);
        }
        proof {
            lemma_model_with_top(*old(self), *self);
            lemma_model_top(*old(self));
        }
    }

    /// Registers an algebraic data type in the innermost scope.
    pub fn map_adt(&mut self, name: Name, cons: Constructors)
        requires
            old(self).wf(),
        ensures
            final(self).wf(),
            Self::same_below_top(old(self), final(self)),
            final(self).top().adts.view_map() == old(self).top().adts.view_map().insert(
                name@,
                crate::ast::ctors_view(cons@),
            ),
            final(self).top().variables == old(self).top().variables,
            final(self).top().functions == old(self).top().functions,
            final(self).top().tests == old(self).top().tests,
            final(self).model() == old(self).model().define_adt(name@, crate::ast::ctors_view(cons@)),
    {
        let n = self.stack.len();
        if n == 0 {
            self.globals.adts.insert(name, cons);
        } else {
            self.stack[n - 1].adts.insert(name, cons);
        }
        proof {
            lemma_model_with_top(*old(self), *self);
            lemma_model_top(*old(self));
            let t = old(self).top().model();
            assert(self.top().model() == (ScopeM {
                vars: t.vars,
                funcs: t.funcs,
                tests: t.tests,
                adts: t.adts.insert(name@, crate::ast::ctors_view(cons@)),
            }));
        }
    }

    /// Looks a variable up from the innermost scope outwards, then in the
    /// global scope; gives its mutability and a copy of its value.
    pub fn lookup(&self, var: &Name) -> (r: Option<(bool, A)>)
        requires
            self.wf(),
        ensures
            r is Some <==> self.lookup_spec(var@) is Some,
            r matches Some(b) ==> self.lookup_spec(var@) == Some(b.model()),
            self.lookup_spec(var@) == self.model().lookup(var@),
    {
        proof {
            lemma_var_home(self.stack@, self.globals, var@);
            lemma_lookup_model(self.stack@, self.globals, var@);
        }
        let n = self.stack.len();
        let mut i: usize = n;
        while i > 0
            invariant
                self.lookup_spec(var@) == self.model().lookup(var@),
                i <= n,
                n == self.stack@.len(),
                self.wf(),
                var_home(self.stack@, var@) < i,
                -1 <= var_home(self.stack@, var@) < n,
                var_home(self.stack@, var@) >= 0 ==> self.stack@[var_home(self.stack@, var@)].vars().dom().contains(var@)
                    && self.lookup_spec(var@) == Some(self.stack@[var_home(self.stack@, var@)].vars()[var@]),
                forall|j: int|
                    var_home(self.stack@, var@) < j < n ==> !(#[trigger] self.stack@[j]).vars().dom().contains(var@),
            decreases i,
        {
            match self.stack[i - 1].variables.get(var) {
                Some(b) => {
                    assert(var_home(self.stack@, var@) == i - 1);
                    return Some(b.duplicate());
                },
                None => {},
            }
            i = i - 1;
        }
        match self.globals.variables.get(var) {
            Some(b) => Some(b.duplicate()),
            None => None,
        }
    }
}

} // verus!

verus! {

/// Lookups through a stack whose scope at `h` had its variables changed only
/// at `k`, where no inner scope binds `k`: other names are unaffected, and
/// `k` is found in that scope if it still binds it, further out otherwise.
proof fn lemma_lookup_change_at<A: Binding>(
    s1: Seq<Scope<A>>,
    s2: Seq<Scope<A>>,
    g: Scope<A>,
    h: int,
    k: Seq<char>,
    x: Seq<char>,
)
    requires
        0 <= h < s1.len(),
        s1.len() == s2.len(),
        forall|i: int| 0 <= i < s1.len() && i != h ==> (#[trigger] s1[i]).vars() == s2[i].vars(),
        s2[h].vars().remove(k) == s1[h].vars().remove(k),
        forall|j: int| h < j < s1.len() ==> !(#[trigger] s1[j]).vars().dom().contains(k),
    ensures
        x != k ==> var_lookup(s2, g, x) == var_lookup(s1, g, x),
        x == k && s2[h].vars().dom().contains(k) ==> var_lookup(s2, g, x) == Some(s2[h].vars()[k]),
        x == k && !s2[h].vars().dom().contains(k) ==> var_lookup(s2, g, x) == var_lookup(s1.subrange(0, h), g, k),
    decreases s1.len(),
{
    if x != k {
        assert(s2[h].vars().remove(k).dom().contains(x) == s2[h].vars().dom().contains(x));
        assert(s1[h].vars().remove(k).dom().contains(x) == s1[h].vars().dom().contains(x));
        if s1[h].vars().dom().contains(x) {
            assert(s2[h].vars().remove(k)[x] == s2[h].vars()[x]);
            assert(s1[h].vars().remove(k)[x] == s1[h].vars()[x]);
        }
    }
    if s1.len() - 1 == h {
        assert(s1.drop_last() =~= s1.subrange(0, h));
        lemma_var_lookup_vars(s1.drop_last(), g, s2.drop_last(), g, x);
    } else {
        assert(s1.last().vars() == s2.last().vars());
        lemma_lookup_change_at(s1.drop_last(), s2.drop_last(), g, h, k, x);
        assert(s1.drop_last().subrange(0, h) =~= s1.subrange(0, h));
    }
}

impl<A: Binding> Environment<A> {
    /// The innermost scope binding a variable (-1: the global scope, or none).
    pub open spec fn home_of(&self, k: Seq<char>) -> int {
        var_home(self.stack@, k)
    }

    /// Finds the position of the innermost local scope that binds `var`.
    fn find_home(&self, var: &Name) -> (r: Option<usize>)
        requires
            self.wf(),
        ensures
            r is None <==> self.home_of(var@) == -1,
            r matches Some(h) ==> h == self.home_of(var@),
    {
        proof {
            lemma_var_home(self.stack@, self.globals, var@);
        }
        let n = self.stack.len();
        let mut i: usize = n;
        while i > 0
            invariant
                i <= n,
                n == self.stack@.len(),
                self.wf(),
                var_home(self.stack@, var@) < i,
                -1 <= var_home(self.stack@, var@) < n,
                var_home(self.stack@, var@) >= 0 ==> self.stack@[var_home(self.stack@, var@)].vars().dom().contains(var@),
                forall|j: int|
                    var_home(self.stack@, var@) < j < n ==> !(#[trigger] self.stack@[j]).vars().dom().contains(var@),
            decreases i,
        {
            if self.stack[i - 1].variables.get(var).is_some() {
                return Some(i - 1);
            }
            i = i - 1;
        }
        None
    }

    /// Gives an existing variable a new value, in the innermost scope that
    /// binds it, keeping its mutability. Returns whether the variable existed;
    /// if not, nothing changes.
    pub fn update_existing_variable(&mut self, var: &Name, value: A) -> (r: bool)
        requires
            old(self).wf(),
        ensures
            final(self).wf(),
            r == old(self).lookup_spec(var@) is Some,
            !r ==> final(self).stack == old(self).stack && final(self).globals == old(self).globals,
            final(self).current_func == old(self).current_func,
            final(self).stack@.len() == old(self).stack@.len(),
            r ==> forall|k: Seq<char>|
                #[trigger] final(self).lookup_spec(k) == (if k == var@ {
                    Some((old(self).lookup_spec(var@).unwrap().0, value.model()))
                } else {
                    old(self).lookup_spec(k)
                }),
            final(self).model() == old(self).model().update(var@, value.model()),
    {
        proof {
            lemma_var_home(old(self).stack@, old(self).globals, var@);
            lemma_lookup_model(old(self).stack@, old(self).globals, var@);
        }
        let ghost vm = value.model();
        match self.find_home(var) {
            Some(h) => {
                let key = var.clone();
                let m = self.stack[h].variables.get(var).unwrap().0;
                self.stack[h].variables.insert(key, (m, value));
                proof {
                    assert(self.stack@[h as int].vars().remove(var@) =~= old(self).stack@[h as int].vars().remove(var@));
                    assert forall|k: Seq<char>| #[trigger] self.lookup_spec(k) == (if k == var@ {
                        Some((old(self).lookup_spec(var@).unwrap().0, vm))
                    } else {
                        old(self).lookup_spec(k)
                    }) by {
                        lemma_lookup_change_at(old(self).stack@, self.stack@, self.globals, h as int, var@, k);
                    }
                    assert forall|i: int| 0 <= i < self.stack@.len() implies (#[trigger] self.stack@[i]).wf() by {
                        if i != h {
                            assert(self.stack@[i] == old(self).stack@[i]);
                        }
                    }
                    assert(scopes_model(self.stack@) =~= old(self).model().update(var@, vm).stack);
                }
                true
            },
            None => {
                let present = self.globals.variables.get(var).is_some();
                if present {
                    let key = var.clone();
                    let mutable = self.globals.variables.get(var).unwrap().0;
                    self.globals.variables.insert(key, (mutable, value));
                    proof {
                        assert(self.globals.vars().remove(var@) =~= old(self).globals.vars().remove(var@));
                        assert forall|k: Seq<char>| #[trigger] self.lookup_spec(k) == (if k == var@ {
                            Some((old(self).lookup_spec(var@).unwrap().0, vm))
                        } else {
                            old(self).lookup_spec(k)
                        }) by {
                            lemma_globals_change(old(self).stack@, self.globals, old(self).globals, var@, k);
                        }
                        assert(self.globals.model() == old(self).model().update(var@, vm).globals);
                    }
                    true
                } else {
                    false
                }
            },
        }
    }

    /// Removes a variable from the innermost scope that binds it, uncovering
    /// any binding further out. Returns whether something was removed.
    pub fn remove_variable(&mut self, var: &Name) -> (r: bool)
        requires
            old(self).wf(),
        ensures
            final(self).wf(),
            r == old(self).lookup_spec(var@) is Some,
            !r ==> final(self).stack == old(self).stack && final(self).globals == old(self).globals,
            final(self).current_func == old(self).current_func,
            final(self).stack@.len() == old(self).stack@.len(),
            forall|k: Seq<char>| k != var@ ==> #[trigger] final(self).lookup_spec(k) == old(self).lookup_spec(k),
            r && old(self).home_of(var@) >= 0 ==> final(self).lookup_spec(var@) == var_lookup(
                old(self).stack@.subrange(0, old(self).home_of(var@)),
                old(self).globals,
                var@,
            ),
            old(self).home_of(var@) == -1 ==> final(self).lookup_spec(var@) is None,
            final(self).model() == old(self).model().remove(var@),
    {
        proof {
            lemma_var_home(old(self).stack@, old(self).globals, var@);
            lemma_lookup_model(old(self).stack@, old(self).globals, var@);
        }
        match self.find_home(var) {
            Some(h) => {
                self.stack[h].variables.remove(var);
                proof {
                    assert(self.stack@[h as int].vars().remove(var@) =~= old(self).stack@[h as int].vars().remove(var@));
                    assert forall|k: Seq<char>| k != var@ implies #[trigger] self.lookup_spec(k) == old(self).lookup_spec(k) by {
                        lemma_lookup_change_at(old(self).stack@, self.stack@, self.globals, h as int, var@, k);
                    }
                    lemma_lookup_change_at(old(self).stack@, self.stack@, self.globals, h as int, var@, var@);
                    assert forall|i: int| 0 <= i < self.stack@.len() implies (#[trigger] self.stack@[i]).wf() by {
                        if i != h {
                            assert(self.stack@[i] == old(self).stack@[i]);
                        }
                    }
                    assert(scopes_model(self.stack@) =~= old(self).model().remove(var@).stack);
                }
                true
            },
            None => {
                let removed = self.globals.variables.remove(var);
                proof {
                    assert(self.globals.vars().remove(var@) =~= old(self).globals.vars().remove(var@));
                    assert forall|k: Seq<char>| k != var@ implies #[trigger] self.lookup_spec(k) == old(self).lookup_spec(k) by {
                        lemma_globals_change(old(self).stack@, self.globals, old(self).globals, var@, k);
                    }
                    lemma_globals_change(old(self).stack@, self.globals, old(self).globals, var@, var@);
                    assert(self.globals.vars() =~= old(self).globals.vars().remove(var@));
                    assert(scopes_model(self.stack@) =~= old(self).model().remove(var@).stack);
                }
                removed
            },
        }
    }
}

/// Changing the global variables only at `k`, where no local scope binds `k`.
proof fn lemma_globals_change<A: Binding>(s: Seq<Scope<A>>, g2: Scope<A>, g1: Scope<A>, k: Seq<char>, x: Seq<char>)
    requires
        g2.vars().remove(k) == g1.vars().remove(k),
        forall|j: int| 0 <= j < s.len() ==> !(#[trigger] s[j]).vars().dom().contains(k),
    ensures
        x != k ==> var_lookup(s, g2, x) == var_lookup(s, g1, x),
        x == k ==> var_lookup(s, g2, x) == (if g2.vars().dom().contains(k) {
            Some(g2.vars()[k])
        } else {
            None::<(bool, A::M)>
        }),
    decreases s.len(),
{
    if x != k {
        assert(g2.vars().remove(k).dom().contains(x) == g2.vars().dom().contains(x));
        assert(g1.vars().remove(k).dom().contains(x) == g1.vars().dom().contains(x));
        if g1.vars().dom().contains(x) {
            assert(g2.vars().remove(k)[x] == g2.vars()[x]);
            assert(g1.vars().remove(k)[x] == g1.vars()[x]);
        }
    }
    if s.len() > 0 {
        lemma_globals_change(s.drop_last(), g2, g1, k, x);
    }
}

} // verus!

verus! {

impl<A: Binding> Environment<A> {
    /// Looks a function up by its exact signature, innermost scope first.
    pub fn lookup_function(&self, func_signature: &FuncSignature) -> (r: Option<&Function>)
        requires
            self.wf(),
        ensures
            r is Some <==> func_lookup(self.stack@, self.globals, func_signature@) is Some,
            r matches Some(f) ==> func_lookup(self.stack@, self.globals, func_signature@) == Some(f@),
    {
        let n = self.stack.len();
        let mut i: usize = n;
        assert(self.stack@.subrange(0, n as int) =~= self.stack@);
        while i > 0
            invariant
                i <= n,
                n == self.stack@.len(),
                self.wf(),
                func_lookup(self.stack@, self.globals, func_signature@) == func_lookup(
                    self.stack@.subrange(0, i as int),
                    self.globals,
                    func_signature@,
                ),
            decreases i,
        {
            assert(self.stack@[i - 1].wf());
            match self.stack[i - 1].functions.get(func_signature) {
                Some(f) => {
                    return Some(f);
                },
                None => {},
            }
            assert(self.stack@.subrange(0, i as int).drop_last() =~= self.stack@.subrange(0, i - 1));
            i = i - 1;
        }
        self.globals.functions.get(func_signature)
    }

    /// Looks a function up by name only, innermost scope first; within a
    /// scope, the one defined last.
    pub fn lookup_function_by_name(&self, name: &Name) -> (r: Option<&Function>)
        requires
            self.wf(),
        ensures
            r is Some <==> func_by_name_lookup(self.stack@, self.globals, name@) is Some,
            r matches Some(f) ==> func_by_name_lookup(self.stack@, self.globals, name@) == Some(f@),
            func_by_name_lookup(self.stack@, self.globals, name@) == self.model().function_named(name@),
    {
        proof {
            lemma_lookup_model(self.stack@, self.globals, name@);
        }
        let n = self.stack.len();
        let mut i: usize = n;
        assert(self.stack@.subrange(0, n as int) =~= self.stack@);
        while i > 0
            invariant
                func_by_name_lookup(self.stack@, self.globals, name@) == self.model().function_named(name@),
                i <= n,
                n == self.stack@.len(),
                self.wf(),
                func_by_name_lookup(self.stack@, self.globals, name@) == func_by_name_lookup(
                    self.stack@.subrange(0, i as int),
                    self.globals,
                    name@,
                ),
            decreases i,
        {
            assert(self.stack@[i - 1].wf());
            match self.stack[i - 1].lookup_function_by_name(name) {
                Some(f) => {
                    return Some(f);
                },
                None => {},
            }
            assert(self.stack@.subrange(0, i as int).drop_last() =~= self.stack@.subrange(0, i - 1));
            i = i - 1;
        }
        self.globals.lookup_function_by_name(name)
    }

    /// Resolves a name to a variable or, failing that, a function, scope by
    /// scope from the innermost outwards.
    pub fn lookup_var_or_func(&self, name: &Name) -> (r: Option<FuncOrVar<A>>)
        requires
            self.wf(),
        ensures
            r is Some <==> var_or_func_lookup(self.stack@, self.globals, name@) is Some,
            r matches Some(FuncOrVar::Var(b)) ==> var_or_func_lookup(self.stack@, self.globals, name@)
                == Some(FuncOrVarV::<A::M>::Var(b.model())),
            r matches Some(FuncOrVar::Func(f)) ==> var_or_func_lookup(self.stack@, self.globals, name@)
                == Some(FuncOrVarV::<A::M>::Func(f@)),
    {
        let n = self.stack.len();
        let mut i: usize = n;
        assert(self.stack@.subrange(0, n as int) =~= self.stack@);
        while i > 0
            invariant
                i <= n,
                n == self.stack@.len(),
                self.wf(),
                var_or_func_lookup(self.stack@, self.globals, name@) == var_or_func_lookup(
                    self.stack@.subrange(0, i as int),
                    self.globals,
                    name@,
                ),
            decreases i,
        {
            assert(self.stack@[i - 1].wf());
            match self.stack[i - 1].variables.get(name) {
                Some(b) => {
                    return Some(FuncOrVar::Var(b.duplicate()));
                },
                None => {},
            }
            match self.stack[i - 1].lookup_function_by_name(name) {
                Some(f) => {
                    return Some(FuncOrVar::Func(clone_function(f)));
                },
                None => {},
            }
            assert(self.stack@.subrange(0, i as int).drop_last() =~= self.stack@.subrange(0, i - 1));
            i = i - 1;
        }
        match self.globals.variables.get(name) {
            Some(b) => {
                return Some(FuncOrVar::Var(b.duplicate()));
            },
            None => {},
        }
        match self.globals.lookup_function_by_name(name) {
            Some(f) => Some(FuncOrVar::Func(clone_function(f))),
            None => None,
        }
    }

    /// Looks a test up by name, innermost scope first.
    pub fn lookup_test(&self, name: &Name) -> (r: Option<&Function>)
        requires
            self.wf(),
        ensures
            r is Some <==> test_lookup(self.stack@, self.globals, name@) is Some,
            r matches Some(f) ==> test_lookup(self.stack@, self.globals, name@) == Some(f@),
            r is Some <==> self.model().has_test(name@),
    {
        proof {
            lemma_lookup_model(self.stack@, self.globals, name@);
        }
        let n = self.stack.len();
        let mut i: usize = n;
        assert(self.stack@.subrange(0, n as int) =~= self.stack@);
        while i > 0
            invariant
                i <= n,
                n == self.stack@.len(),
                self.wf(),
                (test_lookup(self.stack@, self.globals, name@) is Some) == self.model().has_test(name@),
                test_lookup(self.stack@, self.globals, name@) == test_lookup(
                    self.stack@.subrange(0, i as int),
                    self.globals,
                    name@,
                ),
            decreases i,
        {
            assert(self.stack@[i - 1].wf());
            match self.stack[i - 1].lookup_test(name) {
                Some(f) => {
                    return Some(f);
                },
                None => {},
            }
            assert(self.stack@.subrange(0, i as int).drop_last() =~= self.stack@.subrange(0, i - 1));
            i = i - 1;
        }
        self.globals.lookup_test(name)
    }

    /// Looks an algebraic data type up by name, innermost scope first.
    pub fn lookup_adt(&self, name: &Name) -> (r: Option<&Constructors>)
        requires
            self.wf(),
        ensures
            r is Some <==> adt_lookup(self.stack@, self.globals, name@) is Some,
            r matches Some(c) ==> adt_lookup(self.stack@, self.globals, name@) == Some(
                crate::ast::ctors_view(c@),
            ),
    {
        let n = self.stack.len();
        let mut i: usize = n;
        assert(self.stack@.subrange(0, n as int) =~= self.stack@);
        while i > 0
            invariant
                i <= n,
                n == self.stack@.len(),
                self.wf(),
                adt_lookup(self.stack@, self.globals, name@) == adt_lookup(
                    self.stack@.subrange(0, i as int),
                    self.globals,
                    name@,
                ),
            decreases i,
        {
            assert(self.stack@[i - 1].wf());
            match self.stack[i - 1].adts.get(name) {
                Some(c) => {
                    return Some(c);
                },
                None => {},
            }
            assert(self.stack@.subrange(0, i as int).drop_last() =~= self.stack@.subrange(0, i - 1));
            i = i - 1;
        }
        self.globals.adts.get(name)
    }
}

} // verus!

verus! {

/// The views of a sequence of functions.
pub open spec fn functions_view(s: Seq<Function>) -> Seq<FunctionV> {
    s.map_values(|f: Function| f@)
}

/// The definitions of a list of named tests.
pub open spec fn test_defs(s: Seq<(Seq<char>, FunctionV)>) -> Seq<FunctionV> {
    s.map_values(|e: (Seq<char>, FunctionV)| e.1)
}

/// Adding entry `i` of a table with distinct keys to the map of the entries
/// before it.
proof fn lemma_as_map_prefix<K, V>(s: Seq<(K, V)>, i: int)
    requires
        distinct_keys(s),
        0 <= i < s.len(),
    ensures
        as_map(s.subrange(0, i + 1)) == as_map(s.subrange(0, i)).insert(s[i].0, s[i].1),
{
    let p = s.subrange(0, i);
    assert(s.subrange(0, i + 1) =~= p.push(s[i]));
    assert(!has_key(p, s[i].0)) by {
        if has_key(p, s[i].0) {
            let j = choose|j: int| 0 <= j < p.len() && p[j].0 == s[i].0;
            assert(s[j].0 != s[i].0);
        }
    }
    crate::table::lemma_push_map(p, s[i].0, s[i].1);
}

impl<A: Binding> Environment<A> {
    /// Appends copies of the tests of a scope, in order.
    fn append_tests(scope: &Scope<A>, out: &mut Vec<Function>)
        requires
            scope.wf(),
        ensures
            functions_view(final(out)@) == functions_view(old(out)@) + test_defs(scope.test_list()),
    {
        let n = test_map_len(&scope.tests);
        let mut j: usize = 0;
        while j < n
            invariant
                j <= n,
                n == scope.test_list().len(),
                functions_view(out@) == functions_view(old(out)@) + test_defs(scope.test_list()).subrange(0, j as int),
            decreases n - j,
        {
            let (_, f) = test_map_get_index(&scope.tests, j);
            let g = clone_function(f);
            let ghost before = out@;
            out.push(g);
            assert(functions_view(out@) =~= functions_view(before).push(g@));
            assert(test_defs(scope.test_list()).subrange(0, j + 1) =~= test_defs(scope.test_list()).subrange(0, j as int).push(g@));
            assert(functions_view(out@) =~= functions_view(old(out)@) + test_defs(scope.test_list()).subrange(0, j + 1));
            j = j + 1;
        }
        assert(test_defs(scope.test_list()).subrange(0, n as int) =~= test_defs(scope.test_list()));
    }

    /// All tests: the innermost scope's first, each scope's in definition
    /// order, the global ones last.
    pub fn get_all_tests(&self) -> (r: Vec<Function>)
        requires
            self.wf(),
        ensures
            functions_view(r@) == all_tests(self.stack@, self.globals),
            functions_view(r@) == self.model().all_tests(),
    {
        proof {
            lemma_lookup_model(self.stack@, self.globals, seq![]);
        }
        let mut tests: Vec<Function> = Vec::new();
        let n = self.stack.len();
        let mut i: usize = n;
        assert(self.stack@.subrange(0, n as int) =~= self.stack@);
        assert(functions_view(tests@) =~= Seq::<FunctionV>::empty());
        while i > 0
            invariant
                i <= n,
                n == self.stack@.len(),
                self.wf(),
                functions_view(tests@) + all_tests(self.stack@.subrange(0, i as int), self.globals)
                    == all_tests(self.stack@, self.globals),
            decreases i,
        {
            assert(self.stack@[i - 1].wf());
            let ghost before = tests@;
            Self::append_tests(&self.stack[i - 1], &mut tests);
            assert(self.stack@.subrange(0, i as int).drop_last() =~= self.stack@.subrange(0, i - 1));
            assert(functions_view(tests@) + all_tests(self.stack@.subrange(0, i - 1), self.globals)
                =~= functions_view(before) + all_tests(self.stack@.subrange(0, i as int), self.globals));
            i = i - 1;
        }
        let ghost before = tests@;
        Self::append_tests(&self.globals, &mut tests);
        assert(functions_view(tests@) =~= functions_view(before) + all_tests(self.stack@.subrange(0, 0), self.globals));
        tests
    }

    /// All functions visible from here, by signature: the global ones,
    /// overridden by those of each scope from the outermost to the innermost.
    pub fn get_all_functions(&self) -> (r: Table<FuncSignature, Function>)
        requires
            self.wf(),
        ensures
            r.wf(),
            r.view_map() == all_functions(self.stack@, self.globals),
    {
        let mut all = self.globals.functions.duplicate();
        let n = self.stack.len();
        let mut i: usize = 0;
        while i < n
            invariant
                i <= n,
                n == self.stack@.len(),
                self.wf(),
                all.wf(),
                all.view_map() == all_functions(self.stack@.subrange(0, i as int), self.globals),
            decreases n - i,
        {
            let scope = &self.stack[i];
            assert(scope.wf());
            let m = scope.functions.len();
            let mut j: usize = 0;
            let ghost base = all.view_map();
            assert(as_map(scope.funcs().subrange(0, 0)) =~= Map::<FuncSignatureV, FunctionV>::empty());
            assert(base.union_prefer_right(Map::<FuncSignatureV, FunctionV>::empty()) =~= base);
            while j < m
                invariant
                    j <= m,
                    m == scope.funcs().len(),
                    scope.wf(),
                    all.wf(),
                    all.view_map() == base.union_prefer_right(as_map(scope.funcs().subrange(0, j as int))),
                decreases m - j,
            {
                let (sig, f) = scope.functions.entry(j);
                let sig2 = sig.clone();
                let f2 = clone_function(f);
                all.insert(sig2, f2);
                proof {
                    lemma_as_map_prefix(scope.funcs(), j as int);
                    assert(all.view_map() =~= base.union_prefer_right(as_map(scope.funcs().subrange(0, j + 1))));
                }
                j = j + 1;
            }
            assert(scope.funcs().subrange(0, m as int) =~= scope.funcs());
            assert(self.stack@.subrange(0, i + 1).drop_last() =~= self.stack@.subrange(0, i as int));
            i = i + 1;
        }
        assert(self.stack@.subrange(0, n as int) =~= self.stack@);
        all
    }
}

} // verus!

verus! {

/// The innermost scope binding `k` is scope `t` when scope `t` binds it and
/// no scope inside it does.
proof fn lemma_home_is<A: Binding>(stack: Seq<Scope<A>>, g: Scope<A>, k: Seq<char>, t: int)
    requires
        0 <= t < stack.len(),
        stack[t].vars().dom().contains(k),
        forall|j: int| t < j < stack.len() ==> !(#[trigger] stack[j]).vars().dom().contains(k),
    ensures
        var_lookup(stack, g, k) == Some(stack[t].vars()[k]),
{
    lemma_var_home(stack, g, k);
    let h = var_home(stack, k);
    if h > t {
        assert(stack[h].vars().dom().contains(k));
    } else if h < t {
        assert(!stack[t].vars().dom().contains(k));
    }
}

impl<A: Binding> Environment<A> {
    /// Whether a list of bindings already has one of the given name.
    fn has_binding(vars: &Vec<(Name, (bool, A))>, name: &Name) -> (r: bool)
        ensures
            r == exists|i: int| 0 <= i < vars@.len() && #[trigger] vars@[i].0@ == name@,
    {
        let mut i: usize = 0;
        while i < vars.len()
            invariant
                i <= vars.len(),
                forall|j: int| 0 <= j < i ==> #[trigger] vars@[j].0@ != name@,
            decreases vars.len() - i,
        {
            if vars[i].0 == *name {
                return true;
            }
            i = i + 1;
        }
        false
    }

    /// Every visible variable once, with its mutability and (a copy of) its
    /// value as found by [`Environment::lookup`]; inner scopes first.
    pub fn get_all_variables(&self) -> (r: Vec<(Name, (bool, A))>)
        requires
            self.wf(),
        ensures
            forall|a: int, b: int| 0 <= a < b < r@.len() ==> r@[a].0@ != r@[b].0@,
            forall|a: int|
                0 <= a < r@.len() ==> self.lookup_spec(#[trigger] r@[a].0@) == Some(r@[a].1.model()),
            forall|k: Seq<char>|
                #[trigger] self.lookup_spec(k) is Some ==> exists|a: int|
                    0 <= a < r@.len() && r@[a].0@ == k,
    {
        let mut vars: Vec<(Name, (bool, A))> = Vec::new();
        let n = self.stack.len();
        let mut i: usize = n;
        while i > 0
            invariant
                i <= n,
                n == self.stack@.len(),
                self.wf(),
                forall|a: int, b: int| 0 <= a < b < vars@.len() ==> vars@[a].0@ != vars@[b].0@,
                forall|a: int|
                    0 <= a < vars@.len() ==> self.lookup_spec(#[trigger] vars@[a].0@) == Some(
                        vars@[a].1.model(),
                    ),
                forall|k: Seq<char>, t: int|
                    i <= t < n && #[trigger] self.stack@[t].vars().dom().contains(k) ==> exists|a: int|
                        0 <= a < vars@.len() && #[trigger] vars@[a].0@ == k,
            decreases i,
        {
            let scope = &self.stack[i - 1];
            assert(scope.wf());
            let m = scope.variables.len();
            let mut j: usize = 0;
            while j < m
                invariant
                    1 <= i <= n,
                    n == self.stack@.len(),
                    self.wf(),
                    *scope == self.stack@[i - 1],
                    scope.wf(),
                    j <= m,
                    m == scope.variables.model().len(),
                    forall|a: int, b: int| 0 <= a < b < vars@.len() ==> vars@[a].0@ != vars@[b].0@,
                    forall|a: int|
                        0 <= a < vars@.len() ==> self.lookup_spec(#[trigger] vars@[a].0@) == Some(
                            vars@[a].1.model(),
                        ),
                    forall|k: Seq<char>, t: int|
                        i <= t < n && #[trigger] self.stack@[t].vars().dom().contains(k) ==> exists|a: int|
                            0 <= a < vars@.len() && #[trigger] vars@[a].0@ == k,
                    forall|jj: int| #![trigger scope.variables.model()[jj]] 0 <= jj < j ==> exists|a: int|
                        0 <= a < vars@.len() && #[trigger] vars@[a].0@ == scope.variables.model()[jj].0,
                decreases m - j,
            {
                let (name, b) = scope.variables.entry(j);
                if !Self::has_binding(&vars, name) {
                    proof {
                        lemma_value_at(scope.variables.model(), j as int);
                        assert(scope.vars().dom().contains(name@));
                        assert forall|t: int| i - 1 < t < n implies !(#[trigger] self.stack@[t]).vars().dom().contains(name@) by {
                            if self.stack@[t].vars().dom().contains(name@) {
                                let a = choose|a: int| 0 <= a < vars@.len() && #[trigger] vars@[a].0@ == name@;
                            }
                        }
                        lemma_home_is(self.stack@, self.globals, name@, i - 1);
                    }
                    let ghost before = vars@;
                    vars.push((name.clone(), b.duplicate()));
                    proof {
                        assert(vars@.last().0@ == name@);
                        assert forall|jj: int| #![trigger scope.variables.model()[jj]] 0 <= jj < j + 1 implies exists|a: int|
                            0 <= a < vars@.len() && #[trigger] vars@[a].0@ == scope.variables.model()[jj].0 by {
                            if jj < j {
                                let a = choose|a: int| 0 <= a < before.len() && #[trigger] before[a].0@ == scope.variables.model()[jj].0;
                                assert(vars@[a] == before[a]);
                            } else {
                                assert(vars@[before.len() as int].0@ == scope.variables.model()[jj].0);
                            }
                        }
                        assert forall|k: Seq<char>, t: int|
                            i <= t < n && #[trigger] self.stack@[t].vars().dom().contains(k) implies exists|a: int|
                                0 <= a < vars@.len() && #[trigger] vars@[a].0@ == k by {
                            let a = choose|a: int| 0 <= a < before.len() && #[trigger] before[a].0@ == k;
                            assert(vars@[a] == before[a]);
                        }
                    }
                } else {
                    proof {
                        assert(name@ == scope.variables.model()[j as int].0);
                    }
                }
                j = j + 1;
            }
            proof {
                assert forall|k: Seq<char>, t: int|
                    i - 1 <= t < n && #[trigger] self.stack@[t].vars().dom().contains(k) implies exists|a: int|
                        0 <= a < vars@.len() && #[trigger] vars@[a].0@ == k by {
                    if t == i - 1 {
                        let jj = choose|jj: int| 0 <= jj < scope.variables.model().len() && scope.variables.model()[jj].0 == k;
                        assert(exists|a: int| 0 <= a < vars@.len() && #[trigger] vars@[a].0@ == scope.variables.model()[jj].0);
                    }
                }
            }
            i = i - 1;
        }
        let m = self.globals.variables.len();
        let mut j: usize = 0;
        while j < m
            invariant
                n == self.stack@.len(),
                self.wf(),
                j <= m,
                m == self.globals.variables.model().len(),
                forall|a: int, b: int| 0 <= a < b < vars@.len() ==> vars@[a].0@ != vars@[b].0@,
                forall|a: int|
                    0 <= a < vars@.len() ==> self.lookup_spec(#[trigger] vars@[a].0@) == Some(
                        vars@[a].1.model(),
                    ),
                forall|k: Seq<char>, t: int|
                    0 <= t < n && #[trigger] self.stack@[t].vars().dom().contains(k) ==> exists|a: int|
                        0 <= a < vars@.len() && #[trigger] vars@[a].0@ == k,
                forall|jj: int| #![trigger self.globals.variables.model()[jj]] 0 <= jj < j ==> exists|a: int|
                    0 <= a < vars@.len() && #[trigger] vars@[a].0@ == self.globals.variables.model()[jj].0,
            decreases m - j,
        {
            let (name, b) = self.globals.variables.entry(j);
            if !Self::has_binding(&vars, name) {
                proof {
                    lemma_value_at(self.globals.variables.model(), j as int);
                    lemma_var_home(self.stack@, self.globals, name@);
                    let h = var_home(self.stack@, name@);
                    if h >= 0 {
                        assert(self.stack@[h].vars().dom().contains(name@));
                        let a = choose|a: int| 0 <= a < vars@.len() && #[trigger] vars@[a].0@ == name@;
                    }
                }
                let ghost before = vars@;
                vars.push((name.clone(), b.duplicate()));
                proof {
                    assert(vars@.last().0@ == name@);
                    assert forall|jj: int| #![trigger self.globals.variables.model()[jj]] 0 <= jj < j + 1 implies exists|a: int|
                        0 <= a < vars@.len() && #[trigger] vars@[a].0@ == self.globals.variables.model()[jj].0 by {
                        if jj < j {
                            let a = choose|a: int| 0 <= a < before.len() && #[trigger] before[a].0@ == self.globals.variables.model()[jj].0;
                            assert(vars@[a] == before[a]);
                        } else {
                            assert(vars@[before.len() as int].0@ == self.globals.variables.model()[jj].0);
                        }
                    }
                    assert forall|k: Seq<char>, t: int|
                        0 <= t < n && #[trigger] self.stack@[t].vars().dom().contains(k) implies exists|a: int|
                            0 <= a < vars@.len() && #[trigger] vars@[a].0@ == k by {
                        let a = choose|a: int| 0 <= a < before.len() && #[trigger] before[a].0@ == k;
                        assert(vars@[a] == before[a]);
                    }
                }
            } else {
                proof {
                    assert(name@ == self.globals.variables.model()[j as int].0);
                }
            }
            j = j + 1;
        }
        proof {
            assert forall|k: Seq<char>| #[trigger] self.lookup_spec(k) is Some implies exists|a: int|
                0 <= a < vars@.len() && vars@[a].0@ == k by {
                lemma_var_home(self.stack@, self.globals, k);
                let h = var_home(self.stack@, k);
                if h >= 0 {
                    assert(self.stack@[h].vars().dom().contains(k));
                    let a = choose|a: int| 0 <= a < vars@.len() && #[trigger] vars@[a].0@ == k;
                } else {
                    assert(self.globals.vars().dom().contains(k));
                    let jj = choose|jj: int| 0 <= jj < self.globals.variables.model().len() && self.globals.variables.model()[jj].0 == k;
                    assert(exists|a: int| 0 <= a < vars@.len() && #[trigger] vars@[a].0@ == self.globals.variables.model()[jj].0);
                }
            }
        }
        vars
    }
}

} // verus!

verus! {

/// What the interpreter sees of a scope: its variables, its functions in
/// definition order, its tests in definition order, and its algebraic data
/// types with their constructors.
pub struct ScopeM<M> {
    pub vars: Map<Seq<char>, (bool, M)>,
    pub funcs: Seq<(FuncSignatureV, FunctionV)>,
    pub tests: Seq<(Seq<char>, FunctionV)>,
    pub adts: Map<Seq<char>, Seq<(Seq<char>, Seq<TypeV>)>>,
}

/// What the interpreter sees of an environment: the global scope and the
/// stack of local scopes, innermost last.
pub struct EnvM<M> {
    pub globals: ScopeM<M>,
    pub stack: Seq<ScopeM<M>>,
}

/// A scope without bindings.
pub open spec fn empty_scope<M>() -> ScopeM<M> {
    ScopeM { vars: Map::empty(), funcs: seq![], tests: seq![], adts: Map::empty() }
}

/// Inserts into a table of entries: the entry of the key keeps its place and
/// gets the value, or a new entry comes last.
pub open spec fn seq_insert<K, V>(s: Seq<(K, V)>, k: K, v: V) -> Seq<(K, V)> {
    if has_key(s, k) {
        s.update(key_index(s, k), (k, v))
    } else {
        s.push((k, v))
    }
}

/// The signature under which a function is stored.
pub open spec fn signature_of(f: FunctionV) -> FuncSignatureV {
    FuncSignatureV { name: f.name, argument_types: crate::ast::param_types(f.params) }
}

/// A variable looked up from the innermost scope outwards, then globally.
pub open spec fn lookup_in<M>(stack: Seq<ScopeM<M>>, globals: ScopeM<M>, k: Seq<char>) -> Option<(bool, M)>
    decreases stack.len(),
{
    if stack.len() == 0 {
        if globals.vars.dom().contains(k) {
            Some(globals.vars[k])
        } else {
            None
        }
    } else if stack.last().vars.dom().contains(k) {
        Some(stack.last().vars[k])
    } else {
        lookup_in(stack.drop_last(), globals, k)
    }
}

/// The position of the innermost local scope binding `k`, or -1.
pub open spec fn home_in<M>(stack: Seq<ScopeM<M>>, k: Seq<char>) -> int
    decreases stack.len(),
{
    if stack.len() == 0 {
        -1
    } else if stack.last().vars.dom().contains(k) {
        stack.len() - 1
    } else {
        home_in(stack.drop_last(), k)
    }
}

/// The function of a scope defined last under a name.
pub open spec fn named_in_scope<M>(s: ScopeM<M>, name: Seq<char>) -> Option<FunctionV> {
    if has_name(s.funcs, name) {
        Some(s.funcs[last_with_name(s.funcs, name)].1)
    } else {
        None
    }
}

/// A function looked up by name, innermost scope first.
pub open spec fn named_in<M>(stack: Seq<ScopeM<M>>, globals: ScopeM<M>, name: Seq<char>) -> Option<FunctionV>
    decreases stack.len(),
{
    if stack.len() == 0 {
        named_in_scope(globals, name)
    } else if named_in_scope(stack.last(), name) is Some {
        named_in_scope(stack.last(), name)
    } else {
        named_in(stack.drop_last(), globals, name)
    }
}

/// The tests of the scopes, innermost scope first, the global ones last.
pub open spec fn tests_in<M>(stack: Seq<ScopeM<M>>, globals: ScopeM<M>) -> Seq<FunctionV>
    decreases stack.len(),
{
    if stack.len() == 0 {
        globals.tests.map_values(|e: (Seq<char>, FunctionV)| e.1)
    } else {
        stack.last().tests.map_values(|e: (Seq<char>, FunctionV)| e.1) + tests_in(stack.drop_last(), globals)
    }
}

impl<M> EnvM<M> {
    /// The scope where new bindings go.
    pub open spec fn top(self) -> ScopeM<M> {
        if self.stack.len() == 0 {
            self.globals
        } else {
            self.stack.last()
        }
    }

    /// The environment with another innermost (or global) scope.
    pub open spec fn with_top(self, s: ScopeM<M>) -> EnvM<M> {
        if self.stack.len() == 0 {
            EnvM { globals: s, stack: self.stack }
        } else {
            EnvM { globals: self.globals, stack: self.stack.update(self.stack.len() - 1, s) }
        }
    }

    /// Binds a variable in the innermost scope.
    pub open spec fn declare(self, k: Seq<char>, mutable: bool, v: M) -> EnvM<M> {
        let t = self.top();
        self.with_top(ScopeM { vars: t.vars.insert(k, (mutable, v)), funcs: t.funcs, tests: t.tests, adts: t.adts })
    }

    /// The binding of a variable, innermost first.
    pub open spec fn lookup(self, k: Seq<char>) -> Option<(bool, M)> {
        lookup_in(self.stack, self.globals, k)
    }

    /// Gives the innermost binding of a variable a new value, keeping its
    /// mutability; without a binding, nothing changes.
    pub open spec fn update(self, k: Seq<char>, v: M) -> EnvM<M> {
        let h = home_in(self.stack, k);
        if h >= 0 {
            let s = self.stack[h];
            EnvM {
                globals: self.globals,
                stack: self.stack.update(
                    h,
                    ScopeM { vars: s.vars.insert(k, (s.vars[k].0, v)), funcs: s.funcs, tests: s.tests, adts: s.adts },
                ),
            }
        } else if self.globals.vars.dom().contains(k) {
            let g = self.globals;
            EnvM {
                globals: ScopeM { vars: g.vars.insert(k, (g.vars[k].0, v)), funcs: g.funcs, tests: g.tests, adts: g.adts },
                stack: self.stack,
            }
        } else {
            self
        }
    }

    /// Removes the innermost binding of a variable.
    pub open spec fn remove(self, k: Seq<char>) -> EnvM<M> {
        let h = home_in(self.stack, k);
        if h >= 0 {
            let s = self.stack[h];
            EnvM {
                globals: self.globals,
                stack: self.stack.update(h, ScopeM { vars: s.vars.remove(k), funcs: s.funcs, tests: s.tests, adts: s.adts }),
            }
        } else {
            let g = self.globals;
            EnvM { globals: ScopeM { vars: g.vars.remove(k), funcs: g.funcs, tests: g.tests, adts: g.adts }, stack: self.stack }
        }
    }

    /// Defines a function in the innermost scope.
    pub open spec fn define_function(self, f: FunctionV) -> EnvM<M> {
        let t = self.top();
        self.with_top(ScopeM { vars: t.vars, funcs: seq_move_last(t.funcs, signature_of(f), f), tests: t.tests, adts: t.adts })
    }

    /// Defines a test in the innermost scope.
    pub open spec fn define_test(self, f: FunctionV) -> EnvM<M> {
        let t = self.top();
        self.with_top(ScopeM { vars: t.vars, funcs: t.funcs, tests: seq_insert(t.tests, f.name, f), adts: t.adts })
    }

    /// Registers an algebraic data type in the innermost scope.
    pub open spec fn define_adt(self, name: Seq<char>, cons: Seq<(Seq<char>, Seq<TypeV>)>) -> EnvM<M> {
        let t = self.top();
        self.with_top(ScopeM { vars: t.vars, funcs: t.funcs, tests: t.tests, adts: t.adts.insert(name, cons) })
    }

    /// The constructors of the algebraic data type of a name, innermost
    /// scope first.
    pub open spec fn adt_named(self, name: Seq<char>) -> Option<Seq<(Seq<char>, Seq<TypeV>)>> {
        adts_in(self.stack, self.globals, name)
    }

    /// Opens an empty innermost scope.
    pub open spec fn push(self) -> EnvM<M> {
        EnvM { globals: self.globals, stack: self.stack.push(empty_scope()) }
    }

    /// Closes the innermost scope, if any.
    pub open spec fn pop(self) -> EnvM<M> {
        if self.stack.len() > 0 {
            EnvM { globals: self.globals, stack: self.stack.drop_last() }
        } else {
            self
        }
    }

    /// The function of a name, innermost scope first.
    pub open spec fn function_named(self, name: Seq<char>) -> Option<FunctionV> {
        named_in(self.stack, self.globals, name)
    }

    /// All tests, innermost scope first.
    pub open spec fn all_tests(self) -> Seq<FunctionV> {
        tests_in(self.stack, self.globals)
    }

    /// Whether some scope defines a test of the name.
    pub open spec fn has_test(self, name: Seq<char>) -> bool {
        test_named_in(self.stack, self.globals, name)
    }
}

/// The algebraic data type of a name, innermost scope first.
pub open spec fn adts_in<M>(stack: Seq<ScopeM<M>>, globals: ScopeM<M>, name: Seq<char>) -> Option<Seq<(Seq<char>, Seq<TypeV>)>>
    decreases stack.len(),
{
    if stack.len() == 0 {
        if globals.adts.dom().contains(name) { Some(globals.adts[name]) } else { None }
    } else if stack.last().adts.dom().contains(name) {
        Some(stack.last().adts[name])
    } else {
        adts_in(stack.drop_last(), globals, name)
    }
}

/// Whether a scope of the stack, or the global scope, defines a test of the
/// name.
pub open spec fn test_named_in<M>(stack: Seq<ScopeM<M>>, globals: ScopeM<M>, name: Seq<char>) -> bool
    decreases stack.len(),
{
    if stack.len() == 0 {
        has_key(globals.tests, name)
    } else {
        has_key(stack.last().tests, name) || test_named_in(stack.drop_last(), globals, name)
    }
}

impl<A: Binding> Scope<A> {
    /// What the interpreter sees of the scope.
    pub open spec fn model(&self) -> ScopeM<A::M> {
        ScopeM { vars: self.vars(), funcs: self.funcs(), tests: self.test_list(), adts: self.adts.view_map() }
    }
}

/// The models of a stack of scopes.
pub open spec fn scopes_model<A: Binding>(s: Seq<Scope<A>>) -> Seq<ScopeM<A::M>> {
    s.map_values(|x: Scope<A>| x.model())
}

impl<A: Binding> Environment<A> {
    /// What the interpreter sees of the environment.
    pub open spec fn model(&self) -> EnvM<A::M> {
        EnvM { globals: self.globals.model(), stack: scopes_model(self.stack@) }
    }
}

/// Lookups through a stack agree with lookups through its model.
pub proof fn lemma_lookup_model<A: Binding>(stack: Seq<Scope<A>>, globals: Scope<A>, k: Seq<char>)
    ensures
        var_lookup(stack, globals, k) == lookup_in(scopes_model(stack), globals.model(), k),
        var_home(stack, k) == home_in(scopes_model(stack), k),
        func_by_name_lookup(stack, globals, k) == named_in(scopes_model(stack), globals.model(), k),
        all_tests(stack, globals) == tests_in(scopes_model(stack), globals.model()),
        (test_lookup(stack, globals, k) is Some) == test_named_in(scopes_model(stack), globals.model(), k),
        adt_lookup(stack, globals, k) == adts_in(scopes_model(stack), globals.model(), k),
    decreases stack.len(),
{
    if stack.len() > 0 {
        assert(scopes_model(stack).drop_last() =~= scopes_model(stack.drop_last()));
        lemma_lookup_model(stack.drop_last(), globals, k);
    }
}

/// The model's innermost scope is the model of the innermost scope.
pub proof fn lemma_model_top<A: Binding>(e: Environment<A>)
    ensures
        e.model().top() == e.top().model(),
{
}

/// Changing only the innermost (or global) scope changes the model there.
pub proof fn lemma_model_with_top<A: Binding>(old: Environment<A>, new: Environment<A>)
    requires
        Environment::<A>::same_below_top(&old, &new),
        old.stack@.len() == 0 ==> new.stack@ == old.stack@,
    ensures
        new.model() == old.model().with_top(new.top().model()),
{
    if old.stack@.len() > 0 {
        assert(scopes_model(new.stack@) =~= scopes_model(old.stack@).update(
            old.stack@.len() - 1,
            new.top().model(),
        ));
    }
}

} // verus!

verus! {

/// A variable bound in the innermost scope is found with its mutability and
/// value; every other name resolves as before.
pub proof fn law_declare_then_lookup<M>(m: EnvM<M>, k: Seq<char>, mutable: bool, v: M, other: Seq<char>)
    ensures
        m.declare(k, mutable, v).lookup(k) == Some((mutable, v)),
        other != k ==> m.declare(k, mutable, v).lookup(other) == m.lookup(other),
{
    let d = m.declare(k, mutable, v);
    if m.stack.len() > 0 {
        assert(d.stack.drop_last() =~= m.stack.drop_last());
    }
}

/// Opening a scope hides nothing: every name resolves as before.
pub proof fn law_push_keeps_lookups<M>(m: EnvM<M>, k: Seq<char>)
    ensures
        m.push().lookup(k) == m.lookup(k),
{
    assert(m.push().stack.drop_last() =~= m.stack);
}

/// Closing a scope just opened gives back the environment.
pub proof fn law_push_then_pop<M>(m: EnvM<M>)
    ensures
        m.push().pop() == m,
{
    assert(m.push().pop().stack =~= m.stack);
}

/// A binding made in a scope disappears with the scope: after the scope is
/// closed every name resolves as before it was opened.
pub proof fn law_scoped_binding_vanishes<M>(m: EnvM<M>, k: Seq<char>, mutable: bool, v: M)
    ensures
        m.push().declare(k, mutable, v).pop() == m,
{
    assert(m.push().declare(k, mutable, v).pop().stack =~= m.stack);
}

/// The global scope survives every `pop`.
pub proof fn law_pop_keeps_globals<M>(m: EnvM<M>)
    ensures
        m.pop().globals == m.globals,
{
}

/// An update of a bound variable keeps its mutability and changes its value;
/// other names resolve as before; an unbound variable changes nothing.
pub proof fn law_update_then_lookup<M>(m: EnvM<M>, k: Seq<char>, v: M, other: Seq<char>)
    ensures
        m.lookup(k) matches Some(b) ==> m.update(k, v).lookup(k) == Some((b.0, v)),
        m.lookup(k) is None ==> m.update(k, v) == m,
        other != k ==> m.update(k, v).lookup(other) == m.lookup(other),
{
    lemma_home_lookup(m.stack, m.globals, k);
    let h = home_in(m.stack, k);
    if h >= 0 {
        assert(m.update(k, v).stack[h].vars.remove(k) =~= m.stack[h].vars.remove(k));
        lemma_lookup_update_at(m.stack, m.update(k, v).stack, m.globals, h, k, other);
        lemma_lookup_update_at(m.stack, m.update(k, v).stack, m.globals, h, k, k);
    } else if m.globals.vars.dom().contains(k) {
        assert(m.update(k, v).globals.vars.remove(k) =~= m.globals.vars.remove(k));
        lemma_lookup_globals_at(m.stack, m.globals, m.update(k, v).globals, k, other);
        lemma_lookup_globals_at(m.stack, m.globals, m.update(k, v).globals, k, k);
    }
}

/// Removing a variable uncovers its binding further out (or leaves it
/// unbound); other names resolve as before.
pub proof fn law_remove_then_lookup<M>(m: EnvM<M>, k: Seq<char>, other: Seq<char>)
    ensures
        other != k ==> m.remove(k).lookup(other) == m.lookup(other),
        home_in(m.stack, k) >= 0 ==> m.remove(k).lookup(k) == lookup_in(
            m.stack.subrange(0, home_in(m.stack, k)),
            m.globals,
            k,
        ),
        home_in(m.stack, k) < 0 ==> m.remove(k).lookup(k) is None,
{
    lemma_home_lookup(m.stack, m.globals, k);
    let h = home_in(m.stack, k);
    if h >= 0 {
        assert(m.remove(k).stack[h].vars.remove(k) =~= m.stack[h].vars.remove(k));
        lemma_lookup_update_at(m.stack, m.remove(k).stack, m.globals, h, k, other);
        lemma_lookup_update_at(m.stack, m.remove(k).stack, m.globals, h, k, k);
    } else {
        assert(m.remove(k).globals.vars.remove(k) =~= m.globals.vars.remove(k));
        lemma_lookup_globals_at(m.stack, m.globals, m.remove(k).globals, k, other);
        lemma_lookup_globals_at(m.stack, m.globals, m.remove(k).globals, k, k);
    }
}

/// The function defined last is the one found by its name: a lookup by name
/// gives the most recently defined overload of that name.
pub proof fn law_define_then_find_function<M>(m: EnvM<M>, f: FunctionV)
    ensures
        m.define_function(f).function_named(f.name) == Some(f),
{
    let t = m.top();
    let s = seq_move_last(t.funcs, signature_of(f), f);
    let d = m.define_function(f);
    assert(s.last() == (signature_of(f), f));
    lemma_last_with_name(s, f.name, s.len() - 1);
    assert(d.top().funcs == s);
    assert(named_in_scope(d.top(), f.name) == Some(f));
}

/// Functions are told apart by their signatures, so overloads of one name
/// live side by side: after a function is defined it is found by its own
/// signature, and a lookup by any other signature finds what it found before.
pub proof fn law_overloads_coexist<A: Binding>(
    old: Environment<A>,
    new: Environment<A>,
    f: Function,
    sig: FuncSignatureV,
)
    requires
        Environment::same_below_top(&old, &new),
        new.top().functions.view_map() == old.top().functions.view_map().insert(
            FuncSignatureV { name: f@.name, argument_types: crate::ast::param_types(f@.params) },
            f@,
        ),
    ensures
        func_lookup(
            new.stack@,
            new.globals,
            FuncSignatureV { name: f@.name, argument_types: crate::ast::param_types(f@.params) },
        ) == Some(f@),
        sig != (FuncSignatureV { name: f@.name, argument_types: crate::ast::param_types(f@.params) })
            ==> func_lookup(new.stack@, new.globals, sig) == func_lookup(old.stack@, old.globals, sig),
{
    if old.stack@.len() > 0 {
        assert(new.stack@.drop_last() =~= old.stack@.drop_last());
    }
}

/// Bindings made in a scope vanish with it: open a scope on `e0`, make any
/// number of changes to the innermost scope (`map_variable`, `map_function`,
/// `map_test`, `map_adt` each leave everything below it as it was), then
/// close it; every lookup of a variable, a function, a test or a data type
/// answers as in `e0`, and the environment is as scoped as before.
pub proof fn law_changes_in_scope_vanish_on_pop<A: Binding>(
    e0: Environment<A>,
    steps: Seq<Environment<A>>,
    e3: Environment<A>,
    n: Seq<char>,
    sig: FuncSignatureV,
)
    requires
        steps.len() > 0,
        steps[0].globals == e0.globals,
        steps[0].stack@.drop_last() == e0.stack@,
        steps[0].stack@.len() == e0.stack@.len() + 1,
        forall|i: int| 0 <= i < steps.len() - 1 ==> #[trigger] Environment::same_below_top(&steps[i], &steps[i + 1]),
        e3.globals == steps.last().globals,
        e3.stack@ == steps.last().stack@.drop_last(),
    ensures
        e3.stack@ == e0.stack@,
        e3.globals == e0.globals,
        var_lookup(e3.stack@, e3.globals, n) == var_lookup(e0.stack@, e0.globals, n),
        func_lookup(e3.stack@, e3.globals, sig) == func_lookup(e0.stack@, e0.globals, sig),
        test_lookup(e3.stack@, e3.globals, n) == test_lookup(e0.stack@, e0.globals, n),
        adt_lookup(e3.stack@, e3.globals, n) == adt_lookup(e0.stack@, e0.globals, n),
        (e3.stack@.len() > 0) == (e0.stack@.len() > 0),
{
    lemma_changes_keep_below_top(e0, steps, steps.len() - 1);
    let last = steps.last();
    assert(e3.stack@ =~= e0.stack@);
}

/// Changes to the innermost scope, one after another, keep the scopes below
/// it and the global scope.
proof fn lemma_changes_keep_below_top<A: Binding>(e0: Environment<A>, steps: Seq<Environment<A>>, k: int)
    requires
        0 <= k < steps.len(),
        steps[0].globals == e0.globals,
        steps[0].stack@.drop_last() == e0.stack@,
        steps[0].stack@.len() == e0.stack@.len() + 1,
        forall|i: int| 0 <= i < steps.len() - 1 ==> #[trigger] Environment::same_below_top(&steps[i], &steps[i + 1]),
    ensures
        steps[k].globals == e0.globals,
        steps[k].stack@.len() == e0.stack@.len() + 1,
        forall|j: int| 0 <= j < e0.stack@.len() ==> steps[k].stack@[j] == e0.stack@[j],
    decreases k,
{
    if k == 0 {
        assert forall|j: int| 0 <= j < e0.stack@.len() implies steps[0].stack@[j] == e0.stack@[j] by {
            assert(steps[0].stack@.drop_last()[j] == steps[0].stack@[j]);
        }
    } else {
        lemma_changes_keep_below_top(e0, steps, k - 1);
        let i = k - 1;
        assert(Environment::same_below_top(&steps[i], &steps[i + 1]));
        assert(i + 1 == k);
    }
}

/// The table of all visible functions agrees with the lookup by signature:
/// a signature is in it exactly when `lookup_function` finds a function for
/// it, and then with that function (inner scopes shadow outer ones and the
/// global scope).
pub proof fn law_all_functions_agree_with_lookup<A: Binding>(stack: Seq<Scope<A>>, globals: Scope<A>, sig: FuncSignatureV)
    ensures
        func_lookup(stack, globals, sig) == (if all_functions(stack, globals).dom().contains(sig) {
            Some(all_functions(stack, globals)[sig])
        } else {
            None
        }),
    decreases stack.len(),
{
    if stack.len() > 0 {
        law_all_functions_agree_with_lookup(stack.drop_last(), globals, sig);
    }
}

/// Where the innermost binding of `k` lives, and what it says.
proof fn lemma_home_lookup<M>(stack: Seq<ScopeM<M>>, globals: ScopeM<M>, k: Seq<char>)
    ensures
        -1 <= home_in(stack, k) < stack.len(),
        home_in(stack, k) >= 0 ==> stack[home_in(stack, k)].vars.dom().contains(k)
            && lookup_in(stack, globals, k) == Some(stack[home_in(stack, k)].vars[k])
            && forall|j: int| home_in(stack, k) < j < stack.len() ==> !(#[trigger] stack[j]).vars.dom().contains(k),
        home_in(stack, k) < 0 ==> lookup_in(stack, globals, k) == (if globals.vars.dom().contains(k) {
            Some(globals.vars[k])
        } else {
            None
        }) && forall|j: int| 0 <= j < stack.len() ==> !(#[trigger] stack[j]).vars.dom().contains(k),
    decreases stack.len(),
{
    if stack.len() > 0 {
        lemma_home_lookup(stack.drop_last(), globals, k);
        if !stack.last().vars.dom().contains(k) {
            assert forall|j: int| home_in(stack, k) < j < stack.len() implies !(#[trigger] stack[j]).vars.dom().contains(k) by {
                if j < stack.len() - 1 {
                    assert(stack.drop_last()[j] == stack[j]);
                }
            }
            if home_in(stack, k) >= 0 {
                assert(stack.drop_last()[home_in(stack, k)] == stack[home_in(stack, k)]);
            }
        }
    }
}

/// Changing the scope at position `h` only at `k`.
proof fn lemma_lookup_update_at<M>(
    s1: Seq<ScopeM<M>>,
    s2: Seq<ScopeM<M>>,
    g: ScopeM<M>,
    h: int,
    k: Seq<char>,
    x: Seq<char>,
)
    requires
        0 <= h < s1.len(),
        s1.len() == s2.len(),
        forall|i: int| 0 <= i < s1.len() && i != h ==> (#[trigger] s1[i]).vars == s2[i].vars,
        s2[h].vars.remove(k) == s1[h].vars.remove(k),
        forall|j: int| h < j < s1.len() ==> !(#[trigger] s1[j]).vars.dom().contains(k),
        s1[h].vars.dom().contains(k),
    ensures
        x != k ==> lookup_in(s2, g, x) == lookup_in(s1, g, x),
        x == k && s2[h].vars.dom().contains(k) ==> lookup_in(s2, g, x) == Some(s2[h].vars[k]),
        x == k && !s2[h].vars.dom().contains(k) ==> lookup_in(s2, g, x) == lookup_in(s1.subrange(0, h), g, x),
    decreases s1.len(),
{
    if x != k {
        assert(s2[h].vars.remove(k).dom().contains(x) == s2[h].vars.dom().contains(x));
        assert(s1[h].vars.remove(k).dom().contains(x) == s1[h].vars.dom().contains(x));
        if s1[h].vars.dom().contains(x) {
            assert(s2[h].vars.remove(k)[x] == s2[h].vars[x]);
            assert(s1[h].vars.remove(k)[x] == s1[h].vars[x]);
        }
    }
    if s1.len() - 1 > h {
        assert(s1.drop_last().subrange(0, h) =~= s1.subrange(0, h));
        assert(s1[s1.len() - 1].vars == s2[s1.len() - 1].vars);
        lemma_lookup_update_at(s1.drop_last(), s2.drop_last(), g, h, k, x);
    } else {
        assert(s1.drop_last() =~= s1.subrange(0, h));
        lemma_lookup_same_vars(s1.drop_last(), s2.drop_last(), g, x);
    }
}

/// Lookups only depend on the variables of the scopes.
proof fn lemma_lookup_same_vars<M>(s1: Seq<ScopeM<M>>, s2: Seq<ScopeM<M>>, g: ScopeM<M>, x: Seq<char>)
    requires
        s1.len() == s2.len(),
        forall|i: int| 0 <= i < s1.len() ==> (#[trigger] s1[i]).vars == s2[i].vars,
    ensures
        lookup_in(s2, g, x) == lookup_in(s1, g, x),
    decreases s1.len(),
{
    if s1.len() > 0 {
        lemma_lookup_same_vars(s1.drop_last(), s2.drop_last(), g, x);
    }
}

/// Changing the global variables only at `k`, which no local scope binds.
proof fn lemma_lookup_globals_at<M>(s: Seq<ScopeM<M>>, g1: ScopeM<M>, g2: ScopeM<M>, k: Seq<char>, x: Seq<char>)
    requires
        g2.vars.remove(k) == g1.vars.remove(k),
        forall|j: int| 0 <= j < s.len() ==> !(#[trigger] s[j]).vars.dom().contains(k),
    ensures
        x != k ==> lookup_in(s, g2, x) == lookup_in(s, g1, x),
        x == k ==> lookup_in(s, g2, x) == (if g2.vars.dom().contains(k) {
            Some(g2.vars[k])
        } else {
            None
        }),
    decreases s.len(),
{
    if x != k {
        assert(g2.vars.remove(k).dom().contains(x) == g2.vars.dom().contains(x));
        assert(g1.vars.remove(k).dom().contains(x) == g1.vars.dom().contains(x));
        if g1.vars.dom().contains(x) {
            assert(g2.vars.remove(k)[x] == g2.vars[x]);
            assert(g1.vars.remove(k)[x] == g1.vars[x]);
        }
    }
    if s.len() > 0 {
        lemma_lookup_globals_at(s.drop_last(), g1, g2, k, x);
    }
}

} // verus!
