//! The realm's string pool: every distinct string is stored once, and a
//! string is handed around as the index of its entry.

use crate::pointers::{JsPrimitiveString, StringPointer};
use vstd::prelude::*;

verus! {

/// How many strings a pool can hold: one for each 32-bit index.
pub open spec fn pool_capacity() -> nat {
    0x1_0000_0000
}

/// The pool `pool` after interning `s`: unchanged when it holds `s` already,
/// else with `s` added at the end.
pub open spec fn intern_one(pool: Seq<Seq<char>>, s: Seq<char>) -> Seq<Seq<char>> {
    if pool.contains(s) {
        pool
    } else {
        pool.push(s)
    }
}

/// The pool `pool` after interning each of `strings` in turn.
pub open spec fn intern_all(pool: Seq<Seq<char>>, strings: Seq<Seq<char>>) -> Seq<Seq<char>>
    decreases strings.len(),
{
    if strings.len() == 0 {
        pool
    } else {
        intern_one(intern_all(pool, strings.drop_last()), strings.last())
    }
}

/// Interning a string that the pool already holds changes nothing: so
/// interning a string twice is interning it once.
pub proof fn lemma_intern_twice(pool: Seq<Seq<char>>, s: Seq<char>)
    ensures
        intern_one(intern_one(pool, s), s) == intern_one(pool, s),
        intern_one(pool, s).contains(s),
{
    if !pool.contains(s) {
        assert(pool.push(s)[pool.len() as int] == s);
    }
}

/// Interning a run of strings in two parts is interning it in one.
pub proof fn lemma_intern_all_concat(pool: Seq<Seq<char>>, a: Seq<Seq<char>>, b: Seq<Seq<char>>)
    ensures
        intern_all(pool, a + b) == intern_all(intern_all(pool, a), b),
    decreases b.len(),
{
    if b.len() == 0 {
        assert(a + b =~= a);
    } else {
        assert((a + b).drop_last() =~= a + b.drop_last());
        assert((a + b).last() == b.last());
        lemma_intern_all_concat(pool, a, b.drop_last());
    }
}

/// Interning keeps what the pool held where it was, adds at most one entry
/// per string, keeps the pool free of duplicates, and leaves the pool holding
/// each interned string and nothing that was neither in it nor interned.
pub proof fn lemma_intern_all_grows(pool: Seq<Seq<char>>, strings: Seq<Seq<char>>)
    ensures
        pool.is_prefix_of(intern_all(pool, strings)),
        intern_all(pool, strings).len() <= pool.len() + strings.len(),
        pool.no_duplicates() ==> intern_all(pool, strings).no_duplicates(),
        forall|i: int| 0 <= i < strings.len() ==> intern_all(pool, strings).contains(#[trigger] strings[i]),
        forall|k: int|
            pool.len() <= k < intern_all(pool, strings).len() ==> strings.contains(
                #[trigger] intern_all(pool, strings)[k],
            ),
    decreases strings.len(),
{
    if strings.len() > 0 {
        let before = intern_all(pool, strings.drop_last());
        let s = strings.last();
        lemma_intern_all_grows(pool, strings.drop_last());
        lemma_intern_twice(before, s);
        let after = intern_one(before, s);
        assert forall|i: int| 0 <= i < strings.len() implies after.contains(#[trigger] strings[i]) by {
            if i < strings.len() - 1 {
                assert(strings.drop_last()[i] == strings[i]);
                let j = choose|j: int| 0 <= j < before.len() && before[j] == strings[i];
                assert(after[j] == strings[i]);
            }
        }
        assert forall|k: int| pool.len() <= k < after.len() implies strings.contains(#[trigger] after[k]) by {
            if k < before.len() {
                assert(after[k] == before[k]);
                let j = choose|j: int| 0 <= j < strings.drop_last().len() && strings.drop_last()[j] == before[k];
                assert(strings[j] == before[k]);
            } else {
                assert(after[k] == s);
                assert(strings[strings.len() - 1] == s);
            }
        }
    }
}

/// Interning the first part of a run leaves the first part of the pool that
/// interning the whole run leaves.
pub proof fn lemma_intern_all_prefix(pool: Seq<Seq<char>>, a: Seq<Seq<char>>, b: Seq<Seq<char>>)
    requires
        a.is_prefix_of(b),
    ensures
        intern_all(pool, a).is_prefix_of(intern_all(pool, b)),
{
    let rest = b.skip(a.len() as int);
    assert(b =~= a + rest);
    lemma_intern_all_concat(pool, a, rest);
    lemma_intern_all_grows(intern_all(pool, a), rest);
}

/// Where the pool that a whole run leaves fits, so does the pool that any
/// first part of it leaves.
pub proof fn lemma_room_for_part(pool: Seq<Seq<char>>, a: Seq<Seq<char>>, b: Seq<Seq<char>>)
    requires
        a.is_prefix_of(b),
        intern_all(pool, b).len() <= pool_capacity(),
    ensures
        intern_all(pool, a).len() <= pool_capacity(),
{
    lemma_intern_all_prefix(pool, a, b);
}

/// Where the pool that a whole run leaves fits, then at each step of the run
/// the pool holds the next string already or has room for it.
pub proof fn lemma_room_for_next(pool: Seq<Seq<char>>, strings: Seq<Seq<char>>, k: int)
    requires
        0 <= k < strings.len(),
        intern_all(pool, strings).len() <= pool_capacity(),
    ensures
        intern_all(pool, strings.take(k)).contains(strings[k]) || intern_all(
            pool,
            strings.take(k),
        ).len() < pool_capacity(),
{
    let next = strings.take(k + 1);
    assert(next.drop_last() =~= strings.take(k));
    assert(next.last() == strings[k]);
    assert(next.is_prefix_of(strings));
    lemma_room_for_part(pool, next, strings);
}

/// A run is the first part of itself followed by more.
pub proof fn lemma_prefix_of_concat(a: Seq<Seq<char>>, b: Seq<Seq<char>>)
    ensures
        a.is_prefix_of(a + b),
{
    assert(a =~= (a + b).subrange(0, a.len() as int));
}

/// Interning strings that the pool holds already changes nothing.
pub proof fn lemma_intern_all_known(pool: Seq<Seq<char>>, strings: Seq<Seq<char>>)
    requires
        forall|i: int| 0 <= i < strings.len() ==> pool.contains(#[trigger] strings[i]),
    ensures
        intern_all(pool, strings) == pool,
    decreases strings.len(),
{
    if strings.len() > 0 {
        assert forall|i: int| 0 <= i < strings.drop_last().len() implies pool.contains(
            #[trigger] strings.drop_last()[i],
        ) by {
            assert(strings.drop_last()[i] == strings[i]);
        }
        lemma_intern_all_known(pool, strings.drop_last());
        assert(pool.contains(strings[strings.len() - 1]));
    }
}

/// Interning a run of strings a second time changes nothing: the pool after
/// two rounds is the pool after one.
pub proof fn lemma_intern_all_twice(pool: Seq<Seq<char>>, strings: Seq<Seq<char>>)
    ensures
        intern_all(intern_all(pool, strings), strings) == intern_all(pool, strings),
{
    lemma_intern_all_grows(pool, strings);
    lemma_intern_all_known(intern_all(pool, strings), strings);
}

/// In a pool without duplicates, each string has one entry at most: two
/// entries that hold the same string are the same entry.
pub proof fn lemma_entry_unique(pool: Seq<Seq<char>>, i: int, j: int)
    requires
        pool.no_duplicates(),
        0 <= i < pool.len(),
        0 <= j < pool.len(),
        pool[i] == pool[j],
    ensures
        i == j,
{
}

/// A pool of distinct strings, indexed by 32-bit handles.
pub struct StringPool {
    strings: Vec<String>,
}

impl View for StringPool {
    type V = Seq<Seq<char>>;

    closed spec fn view(&self) -> Seq<Seq<char>> {
        self.strings@.map_values(|s: String| s@)
    }
}

impl StringPool {
    /// The pool holds no string twice, and every index fits in a handle.
    pub open spec fn wf(&self) -> bool {
        &&& self@.no_duplicates()
        &&& self@.len() <= pool_capacity()
    }

    /// An empty pool.
    pub fn new() -> (r: Self)
        ensures
            r.wf(),
            r@ == Seq::<Seq<char>>::empty(),
    {
        let r = StringPool { strings: Vec::new() };
        assert(r@ =~= Seq::<Seq<char>>::empty());
        r
    }

    /// The number of strings in the pool.
    pub fn len(&self) -> (r: usize)
        ensures
            r == self@.len(),
    {
        self.strings.len()
    }

    /// The handle of `s`: where the pool holds `s`, its entry; else a new
    /// entry at the end, which then holds `s`.
    pub fn intern(&mut self, s: String) -> (p: JsPrimitiveString)
        requires
            old(self).wf(),
            old(self)@.contains(s@) || old(self)@.len() < pool_capacity(),
        ensures
            final(self).wf(),
            final(self)@ == intern_one(old(self)@, s@),
            p.spec_index() < final(self)@.len(),
            final(self)@[p.spec_index() as int] == s@,
    {
        let ghost pool = self@;
        let mut i: usize = 0;
        while i < self.strings.len()
            invariant
                self@ == pool,
                pool.no_duplicates(),
                pool.len() <= pool_capacity(),
                i <= pool.len(),
                forall|j: int| 0 <= j < i ==> pool[j] != s@,
            decreases pool.len() - i,
        {
            if self.strings[i] == s {
                assert(pool[i as int] == s@);
                return StringPointer::new(i as u32);
            }
            i = i + 1;
        }
        assert(!pool.contains(s@));
        let index: usize = self.strings.len();
        self.strings.push(s);
        assert(self@ =~= pool.push(s@));
        assert forall|a: int, b: int|
            0 <= a < self@.len() && 0 <= b < self@.len() && a != b implies self@[a] != self@[b] by {
            if a < pool.len() && b < pool.len() {
            } else if a == pool.len() {
                assert(self@[b] == pool[b]);
            } else {
                assert(self@[a] == pool[a]);
            }
        }
        StringPointer::new(index as u32)
    }

    /// The string that `p` stands for.
    pub fn get(&self, p: JsPrimitiveString) -> (r: &String)
        requires
            p.spec_index() < self@.len(),
        ensures
            r@ == self@[p.spec_index() as int],
    {
        &self.strings[p.index() as usize]
    }
}

/// Strings that a realm keeps at hand.
pub struct RealmConstants {
    /// The empty string.
    pub empty_string: JsPrimitiveString,
}

/// What the runtime shares between its threads that loading reads: the
/// string pool and its constants.
pub struct Realm {
    pub strings: StringPool,
    pub constants: RealmConstants,
}

impl Realm {
    /// The pool is well formed and holds the empty string at the handle that
    /// the constants give for it.
    pub open spec fn wf(&self) -> bool {
        &&& self.strings.wf()
        &&& self.constants.empty_string.spec_index() < self.strings@.len()
        &&& self.strings@[self.constants.empty_string.spec_index() as int] == Seq::<char>::empty()
    }

    /// Interns `s` in the realm's pool.
    pub fn intern(&mut self, s: String) -> (p: JsPrimitiveString)
        requires
            old(self).wf(),
            old(self).strings@.contains(s@) || old(self).strings@.len() < pool_capacity(),
        ensures
            final(self).wf(),
            final(self).constants == old(self).constants,
            final(self).strings@ == intern_one(old(self).strings@, s@),
            old(self).strings@.is_prefix_of(final(self).strings@),
            p.spec_index() < final(self).strings@.len(),
            final(self).strings@[p.spec_index() as int] == s@,
    {
        let ghost before = self.strings@;
        let p = self.strings.intern(s);
        proof {
            let e: int = self.constants.empty_string.spec_index() as int;
            assert(self.strings@[e] == before[e]);
        }
        p
    }

    /// A realm whose pool holds the empty string alone.
    pub fn new() -> (r: Self)
        ensures
            r.wf(),
            r.strings@ == seq![Seq::<char>::empty()],
    {
        let mut strings = StringPool::new();
        let empty_string = strings.intern(String::new());
        assert(strings@ =~= seq![Seq::<char>::empty()]);
        Realm { strings, constants: RealmConstants { empty_string } }
    }
}

} // verus!
