//! Functions of the runtime: calling a built-in and the stack discipline of
//! that call, and loading compiled functions and classes into a realm.

use crate::nan::Value;
use crate::pointers::JsPrimitiveString;
use crate::program::{
    atom_strings, class_named, class_strings, classes_named, classes_strings, functions_strings,
    lemma_classes_strings_step, lemma_functions_strings_step, strings_of, Class, Function,
};
use crate::string_pool::{
    intern_all, intern_one, lemma_intern_all_concat, lemma_intern_all_grows, lemma_prefix_of_concat,
    lemma_room_for_next, lemma_room_for_part, pool_capacity, Realm,
};
use crate::result::JsResult;
use std::rc::Rc;
use vstd::prelude::*;

verus! {

/// The state of a running thread that calls read: its value stack.
pub struct JsThread<'a> {
    pub stack: Vec<Value<'a>>,
}

impl<'a> JsThread<'a> {
    /// A thread with an empty stack.
    pub fn new() -> (r: Self)
        ensures
            r.stack@.len() == 0,
    {
        JsThread { stack: Vec::new() }
    }

    /// Drops every stack entry from position `len` on; a stack that is not
    /// longer than `len` stays as it is.
    pub fn truncate_stack(&mut self, len: usize)
        ensures
            final(self).stack@ == if len <= old(self).stack@.len() {
                old(self).stack@.subrange(0, len as int)
            } else {
                old(self).stack@
            },
    {
        self.stack.truncate(len);
    }
}

/// The code of a built-in function. It finds its `arguments` arguments on top
/// of the thread's stack, is called on `target`, with the built-in's bound
/// `context`, and returns its result, if it has one.
///
/// Each built-in may say, in `call_allows`, which stacks it may leave and
/// which results it may give back for a call; one that says nothing allows
/// any.
pub trait BuiltinFn<'a> {
    /// A call with `arguments` arguments on stack `before`, on `target` and
    /// with bound `context`, may leave the stack `after` and return `r`.
    open spec fn call_allows(
        &self,
        arguments: usize,
        before: Seq<Value<'a>>,
        target: Value<'a>,
        context: Option<Value<'a>>,
        after: Seq<Value<'a>>,
        r: JsResult<'a, Option<Value<'a>>>,
    ) -> bool {
        true
    }

    fn call(
        &self,
        arguments: usize,
        frame: &mut JsThread<'a>,
        target: Value<'a>,
        context: Option<Value<'a>>,
    ) -> (r: JsResult<'a, Option<Value<'a>>>)
        ensures
            self.call_allows(arguments, old(frame).stack@, target, context, final(frame).stack@, r),
    ;
}

/// The stack `stack`, cut back to at most `len` entries.
pub open spec fn cut_stack<'a>(stack: Seq<Value<'a>>, len: int) -> Seq<Value<'a>> {
    if len <= stack.len() {
        stack.subrange(0, len)
    } else {
        stack
    }
}

/// Cutting a stack back keeps its bottom entries as they were, in order, and
/// drops the rest: the cut stack holds `len` entries, or all of them where
/// the stack is no longer than that.
pub proof fn lemma_cut_stack_keeps_bottom<'a>(stack: Seq<Value<'a>>, len: int)
    requires
        0 <= len,
    ensures
        cut_stack(stack, len).len() == if len <= stack.len() {
            len
        } else {
            stack.len() as int
        },
        forall|k: int| 0 <= k < cut_stack(stack, len).len() ==> cut_stack(stack, len)[k] == stack[k],
{
}

/// A built-in function, with the value it is bound to, if any.
pub struct BuiltIn<'a, F> {
    pub op: F,
    pub context: Option<Value<'a>>,
}

impl<'a, F: BuiltinFn<'a>> BuiltIn<'a, F> {
    /// Calls the built-in once, with the `arguments` values on top of the
    /// stack, on `target` and with the bound context, then drops the
    /// arguments: the stack the built-in left is cut back to the length the
    /// stack had below the arguments (a built-in that popped deeper leaves it
    /// shorter still). The result, a value, none or an error, is the
    /// built-in's, unchanged.
    pub fn apply_return(
        &self,
        arguments: usize,
        thread: &mut JsThread<'a>,
        target: Value<'a>,
    ) -> (r: JsResult<'a, Option<Value<'a>>>)
        requires
            arguments <= old(thread).stack@.len(),
        ensures
            exists|left: Seq<Value<'a>>|
                #[trigger] self.op.call_allows(
                    arguments,
                    old(thread).stack@,
                    target,
                    self.context,
                    left,
                    r,
                ) && final(thread).stack@ == cut_stack(
                    left,
                    old(thread).stack@.len() - arguments,
                ),
            final(thread).stack@.len() <= old(thread).stack@.len() - arguments,
    {
        let start_len: usize = thread.stack.len() - arguments;
        let result = self.op.call(arguments, thread, target, self.context);
        let ghost left = thread.stack@;
        thread.truncate_stack(start_len);
        assert(self.op.call_allows(arguments, old(thread).stack@, target, self.context, left, result));
        result
    }
}

/// `p` is a handle of `pool` that stands for `s`.
pub open spec fn resolves(pool: Seq<Seq<char>>, p: JsPrimitiveString, s: Seq<char>) -> bool {
    p.spec_index() < pool.len() && pool[p.spec_index() as int] == s
}

/// In a pool without duplicates, a string has one handle at most: two
/// handles that stand for the same string are equal.
pub proof fn lemma_handle_unique(
    pool: Seq<Seq<char>>,
    p: JsPrimitiveString,
    q: JsPrimitiveString,
    s: Seq<char>,
)
    requires
        pool.no_duplicates(),
        resolves(pool, p, s),
        resolves(pool, q, s),
    ensures
        p == q,
{
    p.lemma_index_determines(p.spec_index());
    q.lemma_index_determines(q.spec_index());
}

/// Each of `handles` stands, in `pool`, for the atom at its position.
pub open spec fn resolves_all(
    pool: Seq<Seq<char>>,
    handles: Seq<JsPrimitiveString>,
    atoms: Seq<String>,
) -> bool {
    &&& handles.len() == atoms.len()
    &&& forall|i: int| 0 <= i < atoms.len() ==> resolves(pool, #[trigger] handles[i], atoms[i]@)
}

/// A loaded function, shared by everything that refers to it.
#[derive(Clone)]
pub struct JsFunction<I, L, LI> {
    inner: Rc<JsFunctionInner<I, L, LI>>,
}

/// What a loaded function holds: its instructions, its atoms as handles into
/// the realm's string pool, its loaded nested functions and classes, its
/// frame sizes, its locals and how they start out, and its name.
pub struct JsFunctionInner<I, L, LI> {
    pub instructions: Vec<I>,
    pub atoms: Vec<JsPrimitiveString>,
    pub functions: Vec<JsFunction<I, L, LI>>,
    pub classes: Vec<JsClass<I, L, LI>>,
    pub args_size: usize,
    pub local_size: usize,
    pub locals: Vec<L>,
    pub locals_init: Vec<LI>,
    pub stack_size: usize,
    pub name: JsPrimitiveString,
}

/// A loaded class.
#[derive(Clone)]
pub struct JsClass<I, L, LI> {
    pub construct: Option<JsFunction<I, L, LI>>,
    pub atoms: Vec<JsPrimitiveString>,
    pub name: JsPrimitiveString,
    pub methods: Vec<JsFunction<I, L, LI>>,
    pub static_methods: Vec<JsFunction<I, L, LI>>,
}

impl<I, L, LI> JsFunction<I, L, LI> {
    /// What the function holds.
    pub closed spec fn spec_inner(self) -> JsFunctionInner<I, L, LI> {
        *self.inner
    }

    /// Functions that hold the same are the same.
    pub proof fn lemma_inner_determines(self, other: Self)
        requires
            self.spec_inner() == other.spec_inner(),
        ensures
            self == other,
    {
    }

    /// The function's name.
    pub fn name(&self) -> (r: JsPrimitiveString)
        ensures
            r == self.spec_inner().name,
    {
        self.inner.name
    }

    /// The nested function at `index`.
    pub fn child_function(&self, index: usize) -> (r: &JsFunction<I, L, LI>)
        requires
            index < self.spec_inner().functions@.len(),
        ensures
            *r == self.spec_inner().functions@[index as int],
    {
        &self.inner.functions[index]
    }

    /// The class at `index`.
    pub fn child_class(&self, index: usize) -> (r: &JsClass<I, L, LI>)
        requires
            index < self.spec_inner().classes@.len(),
        ensures
            *r == self.spec_inner().classes@[index as int],
    {
        &self.inner.classes[index]
    }

    /// How many locals a call of the function has.
    pub fn local_size(&self) -> (r: usize)
        ensures
            r == self.spec_inner().local_size,
    {
        self.inner.local_size
    }

    /// How many arguments the function takes.
    pub fn args_size(&self) -> (r: usize)
        ensures
            r == self.spec_inner().args_size,
    {
        self.inner.args_size
    }

    /// The atom at `index`.
    pub fn get_atom(&self, index: usize) -> (r: JsPrimitiveString)
        requires
            index < self.spec_inner().atoms@.len(),
        ensures
            r == self.spec_inner().atoms@[index as int],
    {
        self.inner.atoms[index]
    }

    /// The function's locals.
    pub fn locals(&self) -> (r: &Vec<L>)
        ensures
            *r == self.spec_inner().locals,
    {
        &self.inner.locals
    }

    /// The function's instructions.
    pub fn instructions(&self) -> (r: &Vec<I>)
        ensures
            *r == self.spec_inner().instructions,
    {
        &self.inner.instructions
    }

    /// All the function's atoms.
    pub fn atoms(&self) -> (r: &Vec<JsPrimitiveString>)
        ensures
            *r == self.spec_inner().atoms,
    {
        &self.inner.atoms
    }
}

impl<I, L, LI> From<JsFunctionInner<I, L, LI>> for JsFunction<I, L, LI> {
    /// The function that holds `inner`.
    fn from(inner: JsFunctionInner<I, L, LI>) -> (r: Self)
        ensures
            r.spec_inner() == inner,
    {
        let ghost held = inner;
        let r = JsFunction { inner: Rc::new(inner) };
        proof {
            assert(r.spec_inner() == held);
            let f = choose|f: JsFunction<I, L, LI>| f.spec_inner() == held;
            r.lemma_inner_determines(f);
        }
        r
    }
}

impl<I, L, LI> vstd::std_specs::convert::FromSpecImpl<JsFunctionInner<I, L, LI>> for JsFunction<I, L, LI> {
    open spec fn obeys_from_spec() -> bool {
        true
    }

    open spec fn from_spec(inner: JsFunctionInner<I, L, LI>) -> Self {
        choose|f: JsFunction<I, L, LI>| f.spec_inner() == inner
    }
}

/// `js` is `f` loaded against `pool`: its instructions, locals and local
/// initialisers are `f`'s, every atom and name stands, in `pool`, for the
/// string that `f` has there (a function without a name gets `empty`), the
/// frame sizes are `f`'s, and the nested functions and classes are `f`'s,
/// loaded in the same way.
pub open spec fn loaded<I, L, LI>(
    pool: Seq<Seq<char>>,
    empty: JsPrimitiveString,
    js: JsFunction<I, L, LI>,
    f: Function<I, L, LI>,
) -> bool
    decreases f, 0nat,
{
    let inner = js.spec_inner();
    &&& inner.instructions == f.instructions
    &&& inner.locals == f.locals
    &&& inner.locals_init == f.locals_init
    &&& resolves_all(pool, inner.atoms@, f.atoms@)
    &&& inner.args_size == f.args_size
    &&& inner.local_size == f.local_size
    &&& inner.stack_size == f.stack_size
    &&& match f.name {
        Some(name) => resolves(pool, inner.name, name@),
        None => inner.name == empty,
    }
    &&& loaded_all(pool, empty, inner.functions@, f.functions@)
    &&& loaded_classes(pool, empty, inner.classes@, f.classes@)
}

/// Each of `js` is the function at its position in `fs`, loaded.
pub open spec fn loaded_all<I, L, LI>(
    pool: Seq<Seq<char>>,
    empty: JsPrimitiveString,
    js: Seq<JsFunction<I, L, LI>>,
    fs: Seq<Function<I, L, LI>>,
) -> bool
    decreases fs, 1nat,
{
    &&& js.len() == fs.len()
    &&& forall|i: int| 0 <= i < fs.len() ==> loaded(pool, empty, #[trigger] js[i], fs[i])
}

/// `jc` is `c` loaded against `pool`: its constructor, if any, loaded; its
/// atoms and methods loaded; its name the handle of its first atom.
pub open spec fn loaded_class<I, L, LI>(
    pool: Seq<Seq<char>>,
    empty: JsPrimitiveString,
    jc: JsClass<I, L, LI>,
    c: Class<I, L, LI>,
) -> bool
    decreases c, 0nat,
{
    &&& match c.construct {
        Some(f) => jc.construct matches Some(j) && loaded(pool, empty, j, f),
        None => jc.construct is None,
    }
    &&& resolves_all(pool, jc.atoms@, c.atoms@)
    &&& resolves(pool, jc.name, c.atoms@[0]@)
    &&& loaded_all(pool, empty, jc.methods@, c.methods@)
    &&& loaded_all(pool, empty, jc.static_methods@, c.static_methods@)
}

/// Each of `jcs` is the class at its position in `cs`, loaded.
pub open spec fn loaded_classes<I, L, LI>(
    pool: Seq<Seq<char>>,
    empty: JsPrimitiveString,
    jcs: Seq<JsClass<I, L, LI>>,
    cs: Seq<Class<I, L, LI>>,
) -> bool
    decreases cs, 1nat,
{
    &&& jcs.len() == cs.len()
    &&& forall|i: int| 0 <= i < cs.len() ==> loaded_class(pool, empty, #[trigger] jcs[i], cs[i])
}

/// Growing the pool does not undo a load: what stood for a string still does.
pub proof fn lemma_loaded_grows<I, L, LI>(
    pool: Seq<Seq<char>>,
    grown: Seq<Seq<char>>,
    empty: JsPrimitiveString,
    js: JsFunction<I, L, LI>,
    f: Function<I, L, LI>,
)
    requires
        pool.is_prefix_of(grown),
        loaded(pool, empty, js, f),
    ensures
        loaded(grown, empty, js, f),
    decreases f, 0nat,
{
    let inner = js.spec_inner();
    assert forall|i: int| 0 <= i < f.atoms@.len() implies resolves(
        grown,
        #[trigger] inner.atoms@[i],
        f.atoms@[i]@,
    ) by {
        assert(resolves(pool, inner.atoms@[i], f.atoms@[i]@));
        assert(grown[inner.atoms@[i].spec_index() as int] == pool[inner.atoms@[i].spec_index() as int]);
    }
    if let Some(name) = f.name {
        assert(grown[inner.name.spec_index() as int] == pool[inner.name.spec_index() as int]);
    }
    assert forall|i: int| 0 <= i < f.functions@.len() implies loaded(
        grown,
        empty,
        #[trigger] inner.functions@[i],
        f.functions@[i],
    ) by {
        lemma_loaded_grows(pool, grown, empty, inner.functions@[i], f.functions@[i]);
    }
    assert forall|i: int| 0 <= i < f.classes@.len() implies loaded_class(
        grown,
        empty,
        #[trigger] inner.classes@[i],
        f.classes@[i],
    ) by {
        lemma_class_loaded_grows(pool, grown, empty, inner.classes@[i], f.classes@[i]);
    }
}

/// Growing the pool does not undo a class load.
pub proof fn lemma_class_loaded_grows<I, L, LI>(
    pool: Seq<Seq<char>>,
    grown: Seq<Seq<char>>,
    empty: JsPrimitiveString,
    jc: JsClass<I, L, LI>,
    c: Class<I, L, LI>,
)
    requires
        pool.is_prefix_of(grown),
        loaded_class(pool, empty, jc, c),
    ensures
        loaded_class(grown, empty, jc, c),
    decreases c, 0nat,
{
    if let Some(f) = c.construct {
        lemma_loaded_grows(pool, grown, empty, jc.construct->0, f);
    }
    assert forall|i: int| 0 <= i < c.atoms@.len() implies resolves(
        grown,
        #[trigger] jc.atoms@[i],
        c.atoms@[i]@,
    ) by {
        assert(resolves(pool, jc.atoms@[i], c.atoms@[i]@));
        assert(grown[jc.atoms@[i].spec_index() as int] == pool[jc.atoms@[i].spec_index() as int]);
    }
    assert(grown[jc.name.spec_index() as int] == pool[jc.name.spec_index() as int]);
    assert forall|i: int| 0 <= i < c.methods@.len() implies loaded(
        grown,
        empty,
        #[trigger] jc.methods@[i],
        c.methods@[i],
    ) by {
        lemma_loaded_grows(pool, grown, empty, jc.methods@[i], c.methods@[i]);
    }
    assert forall|i: int| 0 <= i < c.static_methods@.len() implies loaded(
        grown,
        empty,
        #[trigger] jc.static_methods@[i],
        c.static_methods@[i],
    ) by {
        lemma_loaded_grows(pool, grown, empty, jc.static_methods@[i], c.static_methods@[i]);
    }
}

proof fn lemma_resolves_all_grows(
    pool: Seq<Seq<char>>,
    grown: Seq<Seq<char>>,
    handles: Seq<JsPrimitiveString>,
    atoms: Seq<String>,
)
    requires
        pool.is_prefix_of(grown),
        resolves_all(pool, handles, atoms),
    ensures
        resolves_all(grown, handles, atoms),
{
    assert forall|i: int| 0 <= i < atoms.len() implies resolves(
        grown,
        #[trigger] handles[i],
        atoms[i]@,
    ) by {
        assert(resolves(pool, handles[i], atoms[i]@));
        assert(grown[handles[i].spec_index() as int] == pool[handles[i].spec_index() as int]);
    }
}

proof fn lemma_loaded_all_grows<I, L, LI>(
    pool: Seq<Seq<char>>,
    grown: Seq<Seq<char>>,
    empty: JsPrimitiveString,
    js: Seq<JsFunction<I, L, LI>>,
    fs: Seq<Function<I, L, LI>>,
)
    requires
        pool.is_prefix_of(grown),
        loaded_all(pool, empty, js, fs),
    ensures
        loaded_all(grown, empty, js, fs),
{
    assert forall|i: int| 0 <= i < fs.len() implies loaded(grown, empty, #[trigger] js[i], fs[i]) by {
        lemma_loaded_grows(pool, grown, empty, js[i], fs[i]);
    }
}

proof fn lemma_loaded_classes_grows<I, L, LI>(
    pool: Seq<Seq<char>>,
    grown: Seq<Seq<char>>,
    empty: JsPrimitiveString,
    jcs: Seq<JsClass<I, L, LI>>,
    cs: Seq<Class<I, L, LI>>,
)
    requires
        pool.is_prefix_of(grown),
        loaded_classes(pool, empty, jcs, cs),
    ensures
        loaded_classes(grown, empty, jcs, cs),
{
    assert forall|i: int| 0 <= i < cs.len() implies loaded_class(
        grown,
        empty,
        #[trigger] jcs[i],
        cs[i],
    ) by {
        lemma_class_loaded_grows(pool, grown, empty, jcs[i], cs[i]);
    }
}

proof fn lemma_prefix_trans(a: Seq<Seq<char>>, b: Seq<Seq<char>>, c: Seq<Seq<char>>)
    requires
        a.is_prefix_of(b),
        b.is_prefix_of(c),
    ensures
        a.is_prefix_of(c),
{
    assert(a =~= c.subrange(0, a.len() as int)) by {
        assert forall|i: int| 0 <= i < a.len() implies a[i] == c[i] by {
            assert(a[i] == b[i]);
            assert(b[i] == c[i]);
        }
    }
}

/// Interning a single string is interning the one-string run.
proof fn lemma_intern_all_single(pool: Seq<Seq<char>>, s: Seq<char>)
    ensures
        intern_all(pool, seq![s]) == intern_one(pool, s),
{
    let one = seq![s];
    assert(one.drop_last() =~= Seq::<Seq<char>>::empty());
    assert(intern_all(pool, one.drop_last()) == pool);
    assert(one.last() == s);
    assert(intern_all(pool, one) == intern_one(intern_all(pool, one.drop_last()), one.last()));
}

/// Loading a function twice, the second time into the pool that the first
/// load left or a pool grown from it, gives the same handles for its atoms
/// and its name.
pub proof fn lemma_load_twice_same_handles<I, L, LI>(
    first_pool: Seq<Seq<char>>,
    second_pool: Seq<Seq<char>>,
    empty: JsPrimitiveString,
    first: JsFunction<I, L, LI>,
    second: JsFunction<I, L, LI>,
    f: Function<I, L, LI>,
)
    requires
        first_pool.is_prefix_of(second_pool),
        second_pool.no_duplicates(),
        loaded(first_pool, empty, first, f),
        loaded(second_pool, empty, second, f),
    ensures
        first.spec_inner().atoms@ == second.spec_inner().atoms@,
        first.spec_inner().name == second.spec_inner().name,
{
    lemma_loaded_grows(first_pool, second_pool, empty, first, f);
    let a = first.spec_inner();
    let b = second.spec_inner();
    assert forall|i: int| 0 <= i < a.atoms@.len() implies a.atoms@[i] == b.atoms@[i] by {
        lemma_handle_unique(second_pool, a.atoms@[i], b.atoms@[i], f.atoms@[i]@);
    }
    assert(a.atoms@ =~= b.atoms@);
    if let Some(name) = f.name {
        lemma_handle_unique(second_pool, a.name, b.name, name@);
    }
}

/// Interns `atoms` in turn and returns their handles.
fn intern_atoms(atoms: Vec<String>, realm: &mut Realm) -> (r: Vec<JsPrimitiveString>)
    requires
        old(realm).wf(),
        intern_all(old(realm).strings@, atom_strings(atoms@)).len() <= pool_capacity(),
    ensures
        final(realm).wf(),
        final(realm).constants == old(realm).constants,
        final(realm).strings@ == intern_all(old(realm).strings@, atom_strings(atoms@)),
        resolves_all(final(realm).strings@, r@, atoms@),
{
    let ghost pool0 = realm.strings@;
    let ghost constants = realm.constants;
    let ghost all = atoms@;
    let mut r: Vec<JsPrimitiveString> = Vec::new();
    assert(atom_strings(all.take(0)) =~= Seq::<Seq<char>>::empty());
    for atom in it: atoms.into_iter()
        invariant
            it.seq() == all,
            realm.wf(),
            realm.constants == constants,
            intern_all(pool0, atom_strings(all)).len() <= pool_capacity(),
            realm.strings@ == intern_all(pool0, atom_strings(all.take(it.index() as int))),
            r@.len() == it.index(),
            forall|j: int| 0 <= j < it.index() ==> resolves(realm.strings@, #[trigger] r@[j], all[j]@),
    {
        let ghost i = it.index() as int;
        assert(atom == all[i]);
        proof {
            assert(atom_strings(all).take(i) =~= atom_strings(all.take(i)));
            lemma_room_for_next(pool0, atom_strings(all), i);
        }
        let ghost before = realm.strings@;
        let p = realm.intern(atom);
        proof {
            let done = atom_strings(all.take(i));
            assert(atom_strings(all.take(i + 1)) =~= done.push(all[i]@));
            assert(done.push(all[i]@).drop_last() =~= done);
            assert forall|j: int| 0 <= j < i implies resolves(
                realm.strings@,
                #[trigger] r@[j],
                all[j]@,
            ) by {
                assert(realm.strings@[r@[j].spec_index() as int] == before[r@[j].spec_index() as int]);
            }
        }
        r.push(p);
    }
    assert(all.take(all.len() as int) =~= all);
    r
}

/// Loads each of `fs` in turn.
fn load_functions<I, L, LI>(fs: Vec<Function<I, L, LI>>, realm: &mut Realm) -> (r: Vec<
    JsFunction<I, L, LI>,
>)
    requires
        old(realm).wf(),
        forall|i: int| 0 <= i < fs@.len() ==> classes_named(#[trigger] fs@[i]),
        intern_all(old(realm).strings@, functions_strings(fs@)).len() <= pool_capacity(),
    ensures
        final(realm).wf(),
        final(realm).constants == old(realm).constants,
        final(realm).strings@ == intern_all(old(realm).strings@, functions_strings(fs@)),
        loaded_all(final(realm).strings@, old(realm).constants.empty_string, r@, fs@),
    decreases fs,
{
    let ghost pool0 = realm.strings@;
    let ghost constants = realm.constants;
    let ghost empty = constants.empty_string;
    let ghost all = fs@;
    let mut r: Vec<JsFunction<I, L, LI>> = Vec::new();
    assert(functions_strings(all.take(0)) =~= Seq::<Seq<char>>::empty()) by {
        assert(all.take(0) =~= Seq::<Function<I, L, LI>>::empty());
    }
    for f in it: fs.into_iter()
        invariant
            it.seq() == all,
            all == fs@,
            realm.wf(),
            realm.constants == constants,
            empty == constants.empty_string,
            forall|j: int| 0 <= j < all.len() ==> classes_named(#[trigger] all[j]),
            intern_all(pool0, functions_strings(all)).len() <= pool_capacity(),
            realm.strings@ == intern_all(pool0, functions_strings(all.take(it.index() as int))),
            r@.len() == it.index(),
            forall|j: int|
                0 <= j < it.index() ==> loaded(realm.strings@, empty, #[trigger] r@[j], all[j]),
    {
        let ghost i = it.index() as int;
        assert(f == all[i]);
        let ghost before = realm.strings@;
        let ghost done = functions_strings(all.take(i));
        proof {
            lemma_functions_strings_step(all, i);
            lemma_intern_all_concat(pool0, done, strings_of(all[i]));
            lemma_room_for_part(pool0, functions_strings(all.take(i + 1)), functions_strings(all));
        }
        let loaded_one = JsFunction::load(f, realm);
        proof {
            lemma_intern_all_grows(before, strings_of(all[i]));
            assert forall|j: int| 0 <= j < i implies loaded(
                realm.strings@,
                empty,
                #[trigger] r@[j],
                all[j],
            ) by {
                lemma_loaded_grows(before, realm.strings@, empty, r@[j], all[j]);
            }
        }
        r.push(loaded_one);
    }
    assert(all.take(all.len() as int) =~= all);
    r
}

/// Loads each of `cs` in turn.
fn load_classes<I, L, LI>(cs: Vec<Class<I, L, LI>>, realm: &mut Realm) -> (r: Vec<
    JsClass<I, L, LI>,
>)
    requires
        old(realm).wf(),
        forall|i: int| 0 <= i < cs@.len() ==> class_named(#[trigger] cs@[i]),
        intern_all(old(realm).strings@, classes_strings(cs@)).len() <= pool_capacity(),
    ensures
        final(realm).wf(),
        final(realm).constants == old(realm).constants,
        final(realm).strings@ == intern_all(old(realm).strings@, classes_strings(cs@)),
        loaded_classes(final(realm).strings@, old(realm).constants.empty_string, r@, cs@),
    decreases cs,
{
    let ghost pool0 = realm.strings@;
    let ghost constants = realm.constants;
    let ghost empty = constants.empty_string;
    let ghost all = cs@;
    let mut r: Vec<JsClass<I, L, LI>> = Vec::new();
    assert(classes_strings(all.take(0)) =~= Seq::<Seq<char>>::empty()) by {
        assert(all.take(0) =~= Seq::<Class<I, L, LI>>::empty());
    }
    for c in it: cs.into_iter()
        invariant
            it.seq() == all,
            all == cs@,
            realm.wf(),
            realm.constants == constants,
            empty == constants.empty_string,
            forall|j: int| 0 <= j < all.len() ==> class_named(#[trigger] all[j]),
            intern_all(pool0, classes_strings(all)).len() <= pool_capacity(),
            realm.strings@ == intern_all(pool0, classes_strings(all.take(it.index() as int))),
            r@.len() == it.index(),
            forall|j: int|
                0 <= j < it.index() ==> loaded_class(realm.strings@, empty, #[trigger] r@[j], all[j]),
    {
        let ghost i = it.index() as int;
        assert(c == all[i]);
        let ghost before = realm.strings@;
        let ghost done = classes_strings(all.take(i));
        proof {
            lemma_classes_strings_step(all, i);
            lemma_intern_all_concat(pool0, done, class_strings(all[i]));
            lemma_room_for_part(pool0, classes_strings(all.take(i + 1)), classes_strings(all));
        }
        let loaded_one = load_class(c, realm);
        proof {
            lemma_intern_all_grows(before, class_strings(all[i]));
            assert forall|j: int| 0 <= j < i implies loaded_class(
                realm.strings@,
                empty,
                #[trigger] r@[j],
                all[j],
            ) by {
                lemma_class_loaded_grows(before, realm.strings@, empty, r@[j], all[j]);
            }
        }
        r.push(loaded_one);
    }
    assert(all.take(all.len() as int) =~= all);
    r
}

/// Loads a class: its constructor, then its atoms, its name (its first atom),
/// its methods and its static methods.
fn load_class<I, L, LI>(c: Class<I, L, LI>, realm: &mut Realm) -> (r: JsClass<I, L, LI>)
    requires
        old(realm).wf(),
        class_named(c),
        intern_all(old(realm).strings@, class_strings(c)).len() <= pool_capacity(),
    ensures
        final(realm).wf(),
        final(realm).constants == old(realm).constants,
        final(realm).strings@ == intern_all(old(realm).strings@, class_strings(c)),
        loaded_class(final(realm).strings@, old(realm).constants.empty_string, r, c),
    decreases c,
{
    let ghost p0 = realm.strings@;
    let ghost empty = realm.constants.empty_string;
    let ghost cv: Class<I, L, LI> = c;
    let ghost cons_s = match cv.construct {
        Some(f) => strings_of(f),
        None => Seq::<Seq<char>>::empty(),
    };
    let ghost atoms_s = atom_strings(cv.atoms@);
    let ghost name_s = seq![cv.atoms@[0]@];
    let ghost methods_s = functions_strings(cv.methods@);
    let ghost statics_s = functions_strings(cv.static_methods@);
    let ghost total = class_strings(cv);
    assert(total == cons_s + atoms_s + name_s + methods_s + statics_s);
    proof {
        lemma_prefix_of_concat(cons_s, atoms_s);
        lemma_prefix_of_concat(cons_s + atoms_s, name_s);
        lemma_prefix_of_concat(cons_s + atoms_s + name_s, methods_s);
        lemma_prefix_of_concat(cons_s + atoms_s + name_s + methods_s, statics_s);
        lemma_prefix_trans(cons_s + atoms_s + name_s, cons_s + atoms_s + name_s + methods_s, total);
        lemma_prefix_trans(cons_s + atoms_s, cons_s + atoms_s + name_s, total);
        lemma_prefix_trans(cons_s, cons_s + atoms_s, total);
        lemma_room_for_part(p0, cons_s, total);
    }
    let Class { construct, atoms, methods, static_methods } = c;
    let name_string = atoms[0].clone();

    let construct = match construct {
        Some(f) => Some(JsFunction::load(f, realm)),
        None => None,
    };
    let ghost p1 = realm.strings@;
    proof {
        assert(p1 == intern_all(p0, cons_s)) by {
            if cv.construct is None {
                assert(cons_s =~= Seq::<Seq<char>>::empty());
            }
        }
        lemma_intern_all_grows(p0, cons_s);
        lemma_intern_all_concat(p0, cons_s, atoms_s);
        lemma_room_for_part(p0, cons_s + atoms_s, total);
    }
    let atoms = intern_atoms(atoms, realm);
    let ghost p2 = realm.strings@;
    proof {
        lemma_intern_all_grows(p1, atoms_s);
        assert(resolves(p2, atoms@[0], cv.atoms@[0]@));
        assert(p2[atoms@[0].spec_index() as int] == cv.atoms@[0]@);
    }
    let name = realm.intern(name_string);
    let ghost p3 = realm.strings@;
    proof {
        lemma_intern_all_single(p2, cv.atoms@[0]@);
        lemma_intern_all_concat(p0, cons_s + atoms_s, name_s);
        lemma_intern_all_concat(p0, cons_s + atoms_s + name_s, methods_s);
        lemma_room_for_part(p0, cons_s + atoms_s + name_s + methods_s, total);
    }
    let methods = load_functions(methods, realm);
    let ghost p4 = realm.strings@;
    proof {
        lemma_intern_all_grows(p3, methods_s);
        lemma_intern_all_concat(p0, cons_s + atoms_s + name_s + methods_s, statics_s);
    }
    let static_methods = load_functions(static_methods, realm);
    let ghost p5 = realm.strings@;
    proof {
        lemma_intern_all_grows(p4, statics_s);
        lemma_intern_all_grows(p0, cons_s);
        lemma_prefix_trans(p1, p2, p3);
        lemma_prefix_trans(p1, p3, p4);
        lemma_prefix_trans(p1, p4, p5);
        lemma_prefix_trans(p2, p3, p4);
        lemma_prefix_trans(p2, p4, p5);
        lemma_prefix_trans(p3, p4, p5);
        if let Some(f) = cv.construct {
            lemma_loaded_grows(p1, p5, empty, construct->0, f);
        }
        lemma_resolves_all_grows(p2, p5, atoms@, cv.atoms@);
        assert(p5[name.spec_index() as int] == p3[name.spec_index() as int]);
        lemma_loaded_all_grows(p4, p5, empty, methods@, cv.methods@);
    }
    JsClass { construct, atoms, name, methods, static_methods }
}

impl<I, L, LI> JsFunction<I, L, LI> {
    /// Loads a compiled function into the realm: keeps its instructions,
    /// locals and local initialisers, interns its atoms, loads its nested
    /// functions and its classes, then interns its name. The pool ends up as
    /// after interning every string of the function in turn (see
    /// `strings_of`), and the loaded function stands for the compiled one
    /// (see `loaded`); a function without a name gets the realm's empty
    /// string. Every class in it must have its name as first atom, and the
    /// pool must have room for the strings that are new to it.
    pub fn load(function: Function<I, L, LI>, realm: &mut Realm) -> (r: Self)
        requires
            old(realm).wf(),
            classes_named(function),
            intern_all(old(realm).strings@, strings_of(function)).len() <= pool_capacity(),
        ensures
            final(realm).wf(),
            final(realm).constants == old(realm).constants,
            final(realm).strings@ == intern_all(old(realm).strings@, strings_of(function)),
            loaded(final(realm).strings@, old(realm).constants.empty_string, r, function),
        decreases function,
    {
        let ghost p0 = realm.strings@;
        let ghost empty = realm.constants.empty_string;
        let ghost fv: Function<I, L, LI> = function;
        let ghost atoms_s = atom_strings(fv.atoms@);
        let ghost functions_s = functions_strings(fv.functions@);
        let ghost classes_s = classes_strings(fv.classes@);
        let ghost name_s = match fv.name {
            Some(name) => seq![name@],
            None => Seq::<Seq<char>>::empty(),
        };
        let ghost total = strings_of(fv);
        assert(total == atoms_s + functions_s + classes_s + name_s);
        proof {
            lemma_prefix_of_concat(atoms_s, functions_s);
            lemma_prefix_of_concat(atoms_s + functions_s, classes_s);
            lemma_prefix_of_concat(atoms_s + functions_s + classes_s, name_s);
            lemma_prefix_trans(atoms_s + functions_s, atoms_s + functions_s + classes_s, total);
            lemma_prefix_trans(atoms_s, atoms_s + functions_s, total);
            lemma_room_for_part(p0, atoms_s, total);
        }
        let Function {
            instructions,
            atoms,
            functions,
            stack_size,
            name,
            local_size,
            locals,
            locals_init,
            args_size,
            classes,
        } = function;

        let atoms = intern_atoms(atoms, realm);
        let ghost p1 = realm.strings@;
        proof {
            lemma_intern_all_grows(p0, atoms_s);
            lemma_intern_all_concat(p0, atoms_s, functions_s);
            lemma_room_for_part(p0, atoms_s + functions_s, total);
        }
        let functions = load_functions(functions, realm);
        let ghost p2 = realm.strings@;
        proof {
            lemma_intern_all_grows(p1, functions_s);
            lemma_intern_all_concat(p0, atoms_s + functions_s, classes_s);
            lemma_room_for_part(p0, atoms_s + functions_s + classes_s, total);
        }
        let classes = load_classes(classes, realm);
        let ghost p3 = realm.strings@;
        proof {
            lemma_intern_all_grows(p2, classes_s);
            lemma_intern_all_concat(p0, atoms_s + functions_s + classes_s, name_s);
            if let Some(n) = fv.name {
                lemma_intern_all_single(p3, n@);
            }
        }
        let name = match name {
            Some(name) => realm.intern(name),
            None => realm.constants.empty_string,
        };
        let ghost p4 = realm.strings@;
        proof {
            if fv.name is None {
                assert(name_s =~= Seq::<Seq<char>>::empty());
                assert(p3.is_prefix_of(p4));
            }
            lemma_prefix_trans(p1, p2, p3);
            lemma_prefix_trans(p1, p3, p4);
            lemma_prefix_trans(p2, p3, p4);
            lemma_resolves_all_grows(p1, p4, atoms@, fv.atoms@);
            lemma_loaded_all_grows(p2, p4, empty, functions@, fv.functions@);
            lemma_loaded_classes_grows(p3, p4, empty, classes@, fv.classes@);
        }
        JsFunction {
            inner: Rc::new(
                JsFunctionInner {
                    instructions,
                    atoms,
                    functions,
                    classes,
                    args_size,
                    local_size,
                    locals,
                    locals_init,
                    stack_size,
                    name,
                },
            ),
        }
    }
}

/// How the compiler says a local starts out: as a constant of the function
/// (of type `C`), or as a new function object for the nested function at an
/// index.
#[derive(Clone, Copy)]
pub enum LocalInit<C> {
    Constant(C),
    Function(usize),
}

/// How a local of a loaded function starts out: as a constant, read against
/// the function's atoms, or as a new function object for the given nested
/// function.
pub enum LocalStart<'f, I, L, C> {
    Constant(C),
    Function(&'f JsFunction<I, L, LocalInit<C>>),
}

/// Every local initialiser of `f` that makes a function names a nested
/// function of `f`.
pub open spec fn inits_in_range<I, L, C>(f: JsFunction<I, L, LocalInit<C>>) -> bool {
    forall|k: int|
        0 <= k < f.spec_inner().locals_init@.len() ==> match #[trigger] f.spec_inner().locals_init@[k] {
            LocalInit::Function(index) => index < f.spec_inner().functions@.len(),
            LocalInit::Constant(_) => true,
        }
}

impl<I, L, C: Copy> JsFunction<I, L, LocalInit<C>> {
    /// How each local starts out, in order: a constant initialiser gives its
    /// constant, and a function initialiser gives the nested function that it
    /// names, for which the caller makes a function object.
    pub fn init(&self) -> (r: Vec<LocalStart<'_, I, L, C>>)
        requires
            inits_in_range(*self),
        ensures
            r@.len() == self.spec_inner().locals_init@.len(),
            forall|k: int|
                0 <= k < r@.len() ==> match self.spec_inner().locals_init@[k] {
                    LocalInit::Constant(c) => #[trigger] r@[k] == LocalStart::<'_, I, L, C>::Constant(c),
                    LocalInit::Function(index) => r@[k] == LocalStart::<'_, I, L, C>::Function(
                        &self.spec_inner().functions@[index as int],
                    ),
                },
    {
        let inits = &self.inner.locals_init;
        let functions = &self.inner.functions;
        let mut r: Vec<LocalStart<'_, I, L, C>> = Vec::new();
        let mut k: usize = 0;
        while k < inits.len()
            invariant
                inits@ == self.spec_inner().locals_init@,
                functions@ == self.spec_inner().functions@,
                inits_in_range(*self),
                k <= inits@.len(),
                r@.len() == k,
                forall|j: int|
                    0 <= j < k ==> match inits@[j] {
                        LocalInit::Constant(c) => #[trigger] r@[j] == LocalStart::<'_, I, L, C>::Constant(c),
                        LocalInit::Function(index) => r@[j] == LocalStart::<'_, I, L, C>::Function(
                            &functions@[index as int],
                        ),
                    },
            decreases inits@.len() - k,
        {
            let start = match inits[k] {
                LocalInit::Constant(constant) => LocalStart::Constant(constant),
                LocalInit::Function(index) => {
                    assert(match inits@[k as int] {
                        LocalInit::Function(index) => index < functions@.len(),
                        LocalInit::Constant(_) => true,
                    });
                    LocalStart::Function(&functions[index])
                },
            };
            r.push(start);
            k = k + 1;
        }
        r
    }
}

} // verus!
