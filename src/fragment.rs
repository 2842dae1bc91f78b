//! Zero-copy, position-aware views into a source buffer.

use vstd::prelude::*;
use vstd::string::*;

verus! {

/// 1-based line and column of the character at position `i` of `s`,
/// found by counting the newlines before it.
pub open spec fn line_col(s: Seq<char>, i: nat) -> (nat, nat)
    decreases i,
{
    if i == 0 {
        (1, 1)
    } else {
        let p = line_col(s, (i - 1) as nat);
        if s[i - 1] == '\n' {
            (p.0 + 1, 1)
        } else {
            (p.0, p.1 + 1)
        }
    }
}

/// Neither the line nor the column of position `i` exceeds `i + 1`.
proof fn lemma_line_col_bound(s: Seq<char>, i: nat)
    ensures
        line_col(s, i).0 <= i + 1,
        line_col(s, i).1 <= i + 1,
    decreases i,
{
    if i > 0 {
        lemma_line_col_bound(s, (i - 1) as nat);
    }
}

/// A view of the characters `start..end` of a source buffer, which it borrows.
/// Offsets count characters. The line and column of `start` are kept with it.
#[derive(Clone, Copy, Debug)]
pub struct Fragment<'s> {
    source: &'s str,
    start: usize,
    end: usize,
    line: usize,
    column: usize,
}

impl<'s> View for Fragment<'s> {
    type V = Seq<char>;

    /// The characters the fragment covers.
    open spec fn view(&self) -> Seq<char> {
        self.buffer().subrange(self.lo() as int, self.hi() as int)
    }
}

impl<'s> Fragment<'s> {
    #[verifier::type_invariant]
    spec fn inv(self) -> bool {
        &&& self.start <= self.end
        &&& self.end <= self.source@.len()
        &&& self.source@.len() < usize::MAX
        &&& self.line as nat == line_col(self.source@, self.start as nat).0
        &&& self.column as nat == line_col(self.source@, self.start as nat).1
    }

    /// The whole buffer this fragment is a view into.
    pub closed spec fn buffer(self) -> Seq<char> {
        self.source@
    }

    /// Offset of the first character covered.
    pub closed spec fn lo(self) -> nat {
        self.start as nat
    }

    /// Offset just past the last character covered.
    pub closed spec fn hi(self) -> nat {
        self.end as nat
    }

    /// `a` and `b` are the two halves of `f` split after `n` characters.
    pub open spec fn is_split_of(a: Self, b: Self, f: Self, n: nat) -> bool {
        &&& n <= f@.len()
        &&& f.lo() <= f.hi() <= f.buffer().len()
        &&& a.buffer() == f.buffer()
        &&& b.buffer() == f.buffer()
        &&& a.lo() == f.lo()
        &&& a.hi() == f.lo() + n
        &&& b.lo() == f.lo() + n
        &&& b.hi() == f.hi()
        &&& a@ == f@.take(n as int)
        &&& b@ == f@.skip(n as int)
    }

    /// `rest` is what is left of `f` after its first `n` characters.
    pub open spec fn is_rest_of(rest: Self, f: Self, n: nat) -> bool {
        &&& n <= f@.len()
        &&& f.lo() <= f.hi() <= f.buffer().len()
        &&& rest.buffer() == f.buffer()
        &&& rest.lo() == f.lo() + n
        &&& rest.hi() == f.hi()
        &&& rest@ == f@.skip(n as int)
    }

    /// Wraps an entire source buffer.
    pub fn whole(source: &'s str) -> (f: Self)
        requires
            source@.len() < usize::MAX,
        ensures
            f.buffer() == source@,
            f.lo() == 0,
            f.hi() == source@.len(),
            f@ == source@,
    {
        let n = source.unicode_len();
        let f = Fragment { source, start: 0, end: n, line: 1, column: 1 };
        assert(f@ =~= source@);
        f
    }

    /// The exact text covered, borrowed from the buffer.
    pub fn text(&self) -> (r: &'s str)
        ensures
            r@ == self@,
    {
        proof { use_type_invariant(self); }
        self.source.substring_char(self.start, self.end)
    }

    /// Number of characters covered.
    pub fn len(&self) -> (r: usize)
        ensures
            r == self@.len(),
    {
        proof { use_type_invariant(self); }
        self.end - self.start
    }

    /// Whether no character is covered.
    pub fn is_empty(&self) -> (r: bool)
        ensures
            r == (self@.len() == 0),
    {
        proof { use_type_invariant(self); }
        self.end == self.start
    }

    /// Offset of the first character within the buffer.
    pub fn offset(&self) -> (r: usize)
        ensures
            r == self.lo(),
    {
        self.start
    }

    /// 1-based line of the first character.
    pub fn line(&self) -> (r: usize)
        ensures
            r == line_col(self.buffer(), self.lo()).0,
    {
        proof { use_type_invariant(self); }
        self.line
    }

    /// 1-based column of the first character, counted in characters.
    pub fn column(&self) -> (r: usize)
        ensures
            r == line_col(self.buffer(), self.lo()).1,
    {
        proof { use_type_invariant(self); }
        self.column
    }

    /// The `i`-th character covered.
    pub fn char_at(&self, i: usize) -> (c: char)
        requires
            i < self@.len(),
        ensures
            c == self@[i as int],
    {
        proof { use_type_invariant(self); }
        self.source.get_char(self.start + i)
    }

    /// Splits into the first `n` characters and the rest; the line and column
    /// of the second half are found by scanning the first.
    pub fn split_at(&self, n: usize) -> (r: (Self, Self))
        requires
            n <= self@.len(),
        ensures
            Self::is_split_of(r.0, r.1, *self, n as nat),
    {
        proof {
            use_type_invariant(self);
            lemma_line_col_bound(self.source@, self.start as nat);
        }
        let mid = self.start + n;
        let mut k: usize = self.start;
        let mut line: usize = self.line;
        let mut column: usize = self.column;
        while k < mid
            invariant
                self.inv(),
                self.start <= k <= mid <= self.end,
                line as nat == line_col(self.source@, k as nat).0,
                column as nat == line_col(self.source@, k as nat).1,
                line <= k + 1,
                column <= k + 1,
            decreases mid - k,
        {
            let c = self.source.get_char(k);
            if c == '\n' {
                line = line + 1;
                column = 1;
            } else {
                column = column + 1;
            }
            k = k + 1;
        }
        let a = Fragment {
            source: self.source,
            start: self.start,
            end: mid,
            line: self.line,
            column: self.column,
        };
        let b = Fragment { source: self.source, start: mid, end: self.end, line, column };
        assert(a@ =~= self@.take(n as int));
        assert(b@ =~= self@.skip(n as int));
        (a, b)
    }
}

} // verus!
