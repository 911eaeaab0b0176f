//! Compiled code as the compiler hands it to the runtime, before loading:
//! the parts of each function and class that loading reads.

use vstd::prelude::*;

verus! {

/// A compiled function: its instructions (of type `I`), string constants,
/// nested functions and classes, frame sizes, locals (of type `L`) and how
/// they start out (of type `LI`), and name.
pub struct Function<I, L, LI> {
    pub instructions: Vec<I>,
    pub atoms: Vec<String>,
    pub functions: Vec<Function<I, L, LI>>,
    pub stack_size: usize,
    pub name: Option<String>,
    pub local_size: usize,
    pub locals: Vec<L>,
    pub locals_init: Vec<LI>,
    pub args_size: usize,
    pub classes: Vec<Class<I, L, LI>>,
}

/// A compiled class: its constructor, string constants (the first is the
/// class's name), and methods.
pub struct Class<I, L, LI> {
    pub construct: Option<Function<I, L, LI>>,
    pub atoms: Vec<String>,
    pub methods: Vec<Function<I, L, LI>>,
    pub static_methods: Vec<Function<I, L, LI>>,
}

/// The strings of `atoms`, in order.
pub open spec fn atom_strings(atoms: Seq<String>) -> Seq<Seq<char>> {
    atoms.map_values(|s: String| s@)
}

/// Every string that loading `f` interns, in the order it interns them:
/// its atoms, the strings of its nested functions, those of its classes,
/// then its name, if it has one.
pub open spec fn strings_of<I, L, LI>(f: Function<I, L, LI>) -> Seq<Seq<char>>
    decreases f, 0nat,
{
    let name_strings = match f.name {
        Some(name) => seq![name@],
        None => Seq::empty(),
    };
    atom_strings(f.atoms@) + functions_strings(f.functions@) + classes_strings(f.classes@)
        + name_strings
}

/// The strings of each of `fs` in turn.
pub open spec fn functions_strings<I, L, LI>(fs: Seq<Function<I, L, LI>>) -> Seq<Seq<char>>
    decreases fs, 1nat,
{
    if fs.len() == 0 {
        Seq::empty()
    } else {
        functions_strings(fs.drop_last()) + strings_of(fs.last())
    }
}

/// Every string that loading `c` interns, in order: those of its constructor,
/// its atoms, its name (its first atom), then those of its methods and of its
/// static methods.
pub open spec fn class_strings<I, L, LI>(c: Class<I, L, LI>) -> Seq<Seq<char>>
    decreases c, 0nat,
{
    let constructor_strings = match c.construct {
        Some(f) => strings_of(f),
        None => Seq::empty(),
    };
    constructor_strings + atom_strings(c.atoms@) + seq![c.atoms@[0]@] + functions_strings(
        c.methods@,
    ) + functions_strings(c.static_methods@)
}

/// The strings of each of `cs` in turn.
pub open spec fn classes_strings<I, L, LI>(cs: Seq<Class<I, L, LI>>) -> Seq<Seq<char>>
    decreases cs, 1nat,
{
    if cs.len() == 0 {
        Seq::empty()
    } else {
        classes_strings(cs.drop_last()) + class_strings(cs.last())
    }
}

/// Every class nested anywhere in `f` has at least one atom, its name.
pub open spec fn classes_named<I, L, LI>(f: Function<I, L, LI>) -> bool
    decreases f, 0nat,
{
    &&& forall|i: int| 0 <= i < f.functions@.len() ==> classes_named(#[trigger] f.functions@[i])
    &&& forall|i: int| 0 <= i < f.classes@.len() ==> class_named(#[trigger] f.classes@[i])
}

/// `c` has a name, and so has every class nested anywhere in it.
pub open spec fn class_named<I, L, LI>(c: Class<I, L, LI>) -> bool
    decreases c, 0nat,
{
    &&& c.atoms@.len() > 0
    &&& match c.construct {
        Some(f) => classes_named(f),
        None => true,
    }
    &&& forall|i: int| 0 <= i < c.methods@.len() ==> classes_named(#[trigger] c.methods@[i])
    &&& forall|i: int| 0 <= i < c.static_methods@.len() ==> classes_named(
        #[trigger] c.static_methods@[i],
    )
}

/// The strings of the first `i + 1` functions are those of the first `i`,
/// then those of the next one; and they begin the strings of all.
pub proof fn lemma_functions_strings_step<I, L, LI>(fs: Seq<Function<I, L, LI>>, i: int)
    requires
        0 <= i < fs.len(),
    ensures
        functions_strings(fs.take(i + 1)) == functions_strings(fs.take(i)) + strings_of(fs[i]),
        functions_strings(fs.take(i + 1)).is_prefix_of(functions_strings(fs)),
{
    assert(fs.take(i + 1).drop_last() =~= fs.take(i));
    assert(fs.take(i + 1).last() == fs[i]);
    lemma_functions_strings_prefix(fs, i + 1);
}

/// The strings of the first `j` functions begin the strings of all.
pub proof fn lemma_functions_strings_prefix<I, L, LI>(fs: Seq<Function<I, L, LI>>, j: int)
    requires
        0 <= j <= fs.len(),
    ensures
        functions_strings(fs.take(j)).is_prefix_of(functions_strings(fs)),
    decreases fs.len(),
{
    if j == fs.len() {
        assert(fs.take(j) =~= fs);
        assert(functions_strings(fs) =~= functions_strings(fs).subrange(0, functions_strings(fs).len() as int));
    } else {
        assert(fs.drop_last().take(j) =~= fs.take(j));
        lemma_functions_strings_prefix(fs.drop_last(), j);
        let a = functions_strings(fs.take(j));
        let b = functions_strings(fs.drop_last());
        let whole = functions_strings(fs);
        assert(whole == b + strings_of(fs.last()));
        assert(a =~= whole.subrange(0, a.len() as int)) by {
            assert forall|k: int| 0 <= k < a.len() implies a[k] == whole[k] by {
                assert(a[k] == b[k]);
            }
        }
    }
}

/// As `lemma_functions_strings_step`, for classes.
pub proof fn lemma_classes_strings_step<I, L, LI>(cs: Seq<Class<I, L, LI>>, i: int)
    requires
        0 <= i < cs.len(),
    ensures
        classes_strings(cs.take(i + 1)) == classes_strings(cs.take(i)) + class_strings(cs[i]),
        classes_strings(cs.take(i + 1)).is_prefix_of(classes_strings(cs)),
{
    assert(cs.take(i + 1).drop_last() =~= cs.take(i));
    assert(cs.take(i + 1).last() == cs[i]);
    lemma_classes_strings_prefix(cs, i + 1);
}

/// The strings of the first `j` classes begin the strings of all.
pub proof fn lemma_classes_strings_prefix<I, L, LI>(cs: Seq<Class<I, L, LI>>, j: int)
    requires
        0 <= j <= cs.len(),
    ensures
        classes_strings(cs.take(j)).is_prefix_of(classes_strings(cs)),
    decreases cs.len(),
{
    if j == cs.len() {
        assert(cs.take(j) =~= cs);
        assert(classes_strings(cs) =~= classes_strings(cs).subrange(0, classes_strings(cs).len() as int));
    } else {
        assert(cs.drop_last().take(j) =~= cs.take(j));
        lemma_classes_strings_prefix(cs.drop_last(), j);
        let a = classes_strings(cs.take(j));
        let b = classes_strings(cs.drop_last());
        let whole = classes_strings(cs);
        assert(whole == b + class_strings(cs.last()));
        assert(a =~= whole.subrange(0, a.len() as int)) by {
            assert forall|k: int| 0 <= k < a.len() implies a[k] == whole[k] by {
                assert(a[k] == b[k]);
            }
        }
    }
}

} // verus!
