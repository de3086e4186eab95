//! String pool for interning strings.
//! This module provides a simple string pool to avoid duplicating strings in memory.

use vstd::prelude::*;

verus! {

#[derive(Debug, Clone, PartialEq, Eq, Copy, Hash, Structural)]
pub struct StrDescriptor(pub usize);

impl StrDescriptor {
    pub fn new(index: usize) -> (r: Self)
        ensures r.0 == index,
    {
        StrDescriptor(index)
    }

    pub fn index(&self) -> (r: usize)
        ensures r == self.0,
    {
        self.0
    }
}

/// The interned strings; a descriptor is the position of its string.
#[derive(Debug)]
pub struct StringPool {
    pool: Vec<String>,
}

impl View for StringPool {
    type V = Seq<Seq<char>>;

    closed spec fn view(&self) -> Seq<Seq<char>> {
        Seq::new(self.pool@.len(), |i: int| self.pool@[i]@)
    }
}

impl StringPool {
    /// No string is interned twice.
    pub open spec fn wf(self) -> bool {
        forall|i: int, j: int| 0 <= i < j < self@.len() ==> self@[i] != self@[j]
    }

    /// Whether the descriptor names a string of the pool.
    pub open spec fn holds(self, d: StrDescriptor) -> bool {
        d.0 < self@.len()
    }

    pub fn new() -> (r: Self)
        ensures r@ == Seq::<Seq<char>>::empty(), r.wf(),
    {
        Self { pool: Vec::new() }
    }

    /// The number of interned strings.
    pub fn len(&self) -> (r: usize)
        ensures r == self@.len(),
    {
        self.pool.len()
    }

    /// Interns a string: an equal string already in the pool keeps its descriptor,
    /// a new one gets the next index.
    pub fn intern(&mut self, string: String) -> (r: StrDescriptor)
        requires old(self).wf(),
        ensures
            final(self).wf(),
            final(self)@[r.0 as int] == string@,
            r.0 < final(self)@.len(),
            old(self)@.contains(string@) ==> final(self)@ == old(self)@ && old(self)@[r.0 as int] == string@,
            !old(self)@.contains(string@) ==> final(self)@ == old(self)@.push(string@)
                && r.0 == old(self)@.len(),
    {
        let mut i: usize = 0;
        while i < self.pool.len()
            invariant
                i <= self.pool@.len(),
                self.pool@ == old(self).pool@,
                old(self).wf(),
                forall|j: int| 0 <= j < i ==> self@[j] != string@,
            decreases self.pool.len() - i,
        {
            if self.pool[i] == string {
                assert(self@ =~= old(self)@);
                return StrDescriptor(i);
            }
            i = i + 1;
        }
        let index = self.pool.len();
        let ghost s = string@;
        self.pool.push(string);
        assert(self@ =~= old(self)@.push(s));
        StrDescriptor(index)
    }

    pub fn get(&self, descriptor: StrDescriptor) -> (r: Option<&String>)
        ensures
            match r {
                Some(s) => self.holds(descriptor) && s@ == self@[descriptor.0 as int],
                None => !self.holds(descriptor),
            },
    {
        if descriptor.0 < self.pool.len() {
            Some(&self.pool[descriptor.0])
        } else {
            None
        }
    }

    /// Appends the string named by a descriptor of the pool.
    pub fn push_name(&self, descriptor: StrDescriptor, out: &mut Vec<char>)
        requires self.holds(descriptor),
        ensures final(out)@ == old(out)@ + self@[descriptor.0 as int],
    {
        crate::text::push_string(out, &self.pool[descriptor.0]);
    }

    /// Every interned string with its index, one per line: `[i]: string`.
    pub fn dump(&self) -> (r: String)
        ensures r@ == dump_lines(self@, 0),
    {
        let mut out: Vec<char> = Vec::new();
        let mut i: usize = 0;
        while i < self.pool.len()
            invariant
                i <= self.pool@.len(),
                out@ + dump_lines(self@, i as int) == dump_lines(self@, 0),
            decreases self.pool.len() - i,
        {
            if i > 0 {
                out.push('\n');
            }
            out.push('[');
            crate::text::push_nat(&mut out, i as u64);
            crate::text::push_str(&mut out, "]: ");
            crate::text::push_string(&mut out, &self.pool[i]);
            proof { dump_step(self@, i as int); }
            i = i + 1;
            assert(out@ + dump_lines(self@, i as int) == dump_lines(self@, 0));
        }
        assert(dump_lines(self@, i as int) == Seq::<char>::empty());
        assert(out@ =~= dump_lines(self@, 0));
        crate::text::string_from_chars(&out)
    }
}

/// The dump lines of the strings from index `i` on.
pub open spec fn dump_lines(pool: Seq<Seq<char>>, i: int) -> Seq<char>
    decreases pool.len() - i,
{
    if i < 0 || i >= pool.len() {
        Seq::empty()
    } else {
        (if i > 0 { seq!['\n'] } else { Seq::empty() })
            + seq!['['] + crate::text::dec_nat(i as nat) + "]: "@ + pool[i] + dump_lines(pool, i + 1)
    }
}

proof fn dump_step(pool: Seq<Seq<char>>, i: int)
    requires 0 <= i < pool.len(),
    ensures
        dump_lines(pool, i) == (if i > 0 { seq!['\n'] } else { Seq::empty() })
            + seq!['['] + crate::text::dec_nat(i as nat) + "]: "@ + pool[i] + dump_lines(pool, i + 1),
{
}

} // verus!
