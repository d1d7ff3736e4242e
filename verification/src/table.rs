use vstd::prelude::*;
use crate::object::Object;

verus! {

/// The string-interning table. It holds every string object the program
/// ever produced, each text at most once, so that equal texts share one
/// handle (their index here) and handle equality decides text equality.
pub struct Table {
    objs: Vec<Object>,
}

impl View for Table {
    type V = Seq<Seq<char>>;

    closed spec fn view(&self) -> Seq<Seq<char>> {
        self.objs@.map(|i: int, o: Object| o@)
    }
}

/// The interning invariant: no two entries of the table hold the same text.
pub open spec fn table_wf(t: Table) -> bool {
    forall|i: int, j: int| 0 <= i < j < t@.len() ==> t@[i] != t@[j]
}

/// Whether the pool holds the text somewhere.
pub open spec fn pool_has(pool: Seq<Seq<char>>, s: Seq<char>) -> bool {
    exists|j: int| 0 <= j < pool.len() && pool[j] == s
}

/// The handle interning `s` into `pool` yields: the first entry with that
/// text, or the place where it is appended.
pub open spec fn spec_intern_index(pool: Seq<Seq<char>>, s: Seq<char>) -> int
    decreases pool.len(),
{
    if pool.len() == 0 {
        0
    } else if pool[0] == s {
        0
    } else {
        1 + spec_intern_index(pool.drop_first(), s)
    }
}

/// The pool after interning `s`: unchanged when the text is already there,
/// extended by it otherwise.
pub open spec fn spec_intern_pool(pool: Seq<Seq<char>>, s: Seq<char>) -> Seq<Seq<char>> {
    if pool_has(pool, s) {
        pool
    } else {
        pool.push(s)
    }
}

/// The interning handle is the first entry with the text, or the length of
/// the pool when no entry has it.
pub proof fn lemma_intern_index(pool: Seq<Seq<char>>, s: Seq<char>)
    ensures
        0 <= spec_intern_index(pool, s) <= pool.len(),
        spec_intern_index(pool, s) < pool.len() ==> pool[spec_intern_index(pool, s)] == s,
        forall|j: int| 0 <= j < spec_intern_index(pool, s) ==> pool[j] != s,
        !pool_has(pool, s) ==> spec_intern_index(pool, s) == pool.len(),
    decreases pool.len(),
{
    if pool.len() > 0 && pool[0] != s {
        lemma_intern_index(pool.drop_first(), s);
        let tail = pool.drop_first();
        assert forall|j: int| 0 <= j < spec_intern_index(pool, s) implies pool[j] != s by {
            if j > 0 {
                assert(pool[j] == tail[j - 1]);
            }
        }
        if !pool_has(pool, s) {
            assert forall|j: int| 0 <= j < tail.len() implies tail[j] != s by {
                assert(tail[j] == pool[j + 1]);
            }
        }
        if spec_intern_index(pool, s) < pool.len() {
            assert(pool[spec_intern_index(pool, s)] == tail[spec_intern_index(tail, s)]);
        }
    }
}

impl Table {
    pub fn new() -> (r: Table)
        ensures
            r@ =~= Seq::<Seq<char>>::empty(),
            table_wf(r),
    {
        Table { objs: Vec::new() }
    }

    pub fn len(&self) -> (n: usize)
        ensures
            n == self@.len(),
    {
        self.objs.len()
    }

    /// The object behind a handle.
    pub fn get(&self, i: usize) -> (r: &Object)
        requires
            i < self@.len(),
        ensures
            r@ == self@[i as int],
    {
        &self.objs[i]
    }

    /// Canonicalizes a string: returns the handle of the entry holding this
    /// text, appending the string only when no entry holds it yet. The
    /// handle returned is always the first (and, once the table is well
    /// formed, the only) entry with this text.
    pub fn intern(&mut self, s: String) -> (i: usize)
        ensures
            final(self)@.len() >= old(self)@.len(),
            i < final(self)@.len(),
            final(self)@[i as int] == s@,
            forall|j: int| 0 <= j < i ==> final(self)@[j] != s@,
            pool_has(old(self)@, s@) ==> final(self)@ =~= old(self)@,
            !pool_has(old(self)@, s@) ==> final(self)@ =~= old(self)@.push(s@),
            i as int == spec_intern_index(old(self)@, s@),
            final(self)@ == spec_intern_pool(old(self)@, s@),
            table_wf(*old(self)) ==> table_wf(*final(self)),
    {
        proof {
            lemma_intern_index(self@, s@);
        }
        let n = self.objs.len();
        let mut j: usize = 0;
        while j < n
            invariant
                self.objs@ == old(self).objs@,
                n == self.objs@.len(),
                j <= n,
                forall|k: int| 0 <= k < j ==> self@[k] != s@,
            decreases n - j,
        {
            let hit = match &self.objs[j] {
                Object::String(t) => t.eq(&s),
            };
            assert(hit == (self@[j as int] == s@));
            if hit {
                proof {
                    lemma_intern_index(old(self)@, s@);
                    let idx = spec_intern_index(old(self)@, s@);
                    if idx < j {
                        assert(old(self)@[idx] == s@);
                        assert(false);
                    }
                    if idx > j {
                        assert(old(self)@[j as int] != s@);
                        assert(false);
                    }
                }
                return j;
            }
            j += 1;
        }
        let ghost old_view = self@;
        self.objs.push(Object::String(s));
        assert(self@ =~= old_view.push(s@));
        n
    }
}

/// Interned identity: in a well-formed table two handles with the same text
/// are the same handle, so handle equality and text equality agree.
pub proof fn lemma_interned_handle_unique(t: &Table, i: int, j: int)
    requires
        table_wf(*t),
        0 <= i < t@.len(),
        0 <= j < t@.len(),
        t@[i] == t@[j],
    ensures
        i == j,
{
}

} // verus!
