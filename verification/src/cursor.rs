//! The scanning cursor: the minimal stepping primitive over a text buffer,
//! keeping the current character index and the current source location in
//! lock-step as characters are consumed.

use vstd::prelude::*;
use vstd::string::StrSliceExecFns;
use crate::loc::SourceLoc;
use crate::loc::LocView;
use crate::loc::origin_view;
use crate::loc::loc_at;
use crate::loc::pos_at;
use crate::loc::lemma_pos_at_bounds;

verus! {

/// The mutable scanning position over a text buffer: the buffer itself, the
/// current character index, the source location of that index, and an
/// optional hard bound past which the cursor will not read.
pub struct Cursor {
    /// textual content being scanned
    pub data: String,
    /// current character offset into the buffer
    pub index: usize,
    /// current source location, consistent with `index`
    pub loc: SourceLoc,
    /// an optional length; the cursor won't read at or past it
    pub len: Option<usize>,
}

impl Cursor {
    /// The first character offset the cursor will not read: the hard bound
    /// where one is set and lies within the buffer, else the buffer's length.
    pub open spec fn limit(&self) -> int {
        let l = self.data@.len() as int;
        match self.len {
            Some(b) => if b as int <= l {
                b as int
            } else {
                l
            },
            None => l,
        }
    }

    /// The cursor's invariant: the index never passes the limit, the buffer
    /// leaves room for one-past-the-end positions, and the location is
    /// exactly the (line, column) of the index under the advancement rule.
    pub open spec fn wf(&self) -> bool {
        &&& self.index as int <= self.limit()
        &&& self.data@.len() < usize::MAX as nat
        &&& self.loc.line == Some(pos_at(self.data@, self.index as int).0 as usize)
        &&& self.loc.col == Some(pos_at(self.data@, self.index as int).1 as usize)
    }

    /// The abstract location of the cursor's current position.
    pub open spec fn loc_spec(&self) -> LocView {
        loc_at(origin_view(self.loc.path), self.data@, self.index as int)
    }

    /// A cursor at the start of the given buffer, at line 1, column 1 of the
    /// given origin, with an optional hard length bound.
    pub fn new(data: String, origin: Option<String>, len: Option<usize>) -> (r: Cursor)
        requires
            data@.len() < usize::MAX as nat,
        ensures
            r.wf(),
            r.data@ == data@,
            r.index == 0,
            r.len == len,
            origin_view(r.loc.path) == origin_view(origin),
            r.loc@ == loc_at(origin_view(origin), data@, 0),
    {
        Cursor {
            data,
            index: 0,
            loc: SourceLoc { path: origin, line: Some(1), col: Some(1) },
            len,
        }
    }

    /// Whether every readable character has been consumed.
    pub fn at_end(&self) -> (r: bool)
        requires
            self.wf(),
        ensures
            r == (self.index as int >= self.limit()),
    {
        self.index >= self.bound()
    }

    /// The first offset not to be read, as an executable value.
    fn bound(&self) -> (r: usize)
        requires
            self.data@.len() < usize::MAX as nat,
        ensures
            r as int == self.limit(),
    {
        let n: usize = self.data.as_str().unicode_len();
        match self.len {
            Some(b) => if b <= n {
                b
            } else {
                n
            },
            None => n,
        }
    }

    /// The character at the cursor, without consuming it: none at end of
    /// input or at the bound.
    pub fn peek(&self) -> (r: Option<char>)
        requires
            self.wf(),
        ensures
            r == (if (self.index as int) < self.limit() {
                Some(self.data@[self.index as int])
            } else {
                None::<char>
            }),
    {
        if self.index < self.bound() {
            Some(self.data.as_str().get_char(self.index))
        } else {
            None
        }
    }

    /// The character `offset` places past the cursor, without consuming
    /// anything: none where that position is at or past the bound.
    pub fn peek_at(&self, offset: usize) -> (r: Option<char>)
        requires
            self.wf(),
        ensures
            r == (if (self.index as int + offset as int) < self.limit() {
                Some(self.data@[self.index as int + offset as int])
            } else {
                None::<char>
            }),
    {
        let b: usize = self.bound();
        if self.index < b && offset < b - self.index {
            Some(self.data.as_str().get_char(self.index + offset))
        } else {
            None
        }
    }

    /// A snapshot of the current location, for region-start bookkeeping.
    pub fn mark(&self) -> (r: SourceLoc)
        ensures
            r@ == self.loc@,
            r.line == self.loc.line,
            r.col == self.loc.col,
    {
        self.loc.duplicate()
    }

    /// Consumes one character: returns it and moves the index and the
    /// location forward under the advancement rule, or returns none and
    /// changes nothing at end of input or at the bound.
    pub fn advance(&mut self) -> (r: Option<char>)
        requires
            old(self).wf(),
        ensures
            final(self).wf(),
            final(self).data@ == old(self).data@,
            final(self).len == old(self).len,
            origin_view(final(self).loc.path) == origin_view(old(self).loc.path),
            (old(self).index as int) < old(self).limit() ==> {
                &&& r == Some(old(self).data@[old(self).index as int])
                &&& final(self).index == old(self).index + 1
            },
            (old(self).index as int) >= old(self).limit() ==> {
                &&& r is None
                &&& final(self).index == old(self).index
                &&& final(self).loc == old(self).loc
            },
    {
        if self.index < self.bound() {
            let c = self.data.as_str().get_char(self.index);
            proof {
                lemma_pos_at_bounds(self.data@, self.index as int);
            }
            let next = self.loc.advance(c);
            self.loc = next;
            self.index = self.index + 1;
            Some(c)
        } else {
            None
        }
    }
}

} // verus!
