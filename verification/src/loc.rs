//! Source locations and regions: the coordinate algebra that stamps every
//! token and every error with its origin, line and column.

use vstd::prelude::*;

verus! {

/// A character that ends a line: advancing over it starts a new line.
pub open spec fn is_line_term(c: char) -> bool {
    c == '\n'
}

/// The abstract value of an optional origin label.
pub open spec fn origin_view(o: Option<String>) -> Option<Seq<char>> {
    match o {
        Some(p) => Some(p@),
        None => None,
    }
}

/// The mathematical value of a `SourceLoc`: origin label, 1-based line and
/// 1-based column, each optional.
pub ghost struct LocView {
    pub path: Option<Seq<char>>,
    pub line: Option<nat>,
    pub col: Option<nat>,
}

/// The completely empty location: no origin, no line, no column.
pub open spec fn empty_loc() -> LocView {
    LocView { path: None, line: None, col: None }
}

/// An immutable coordinate in some source: an optional origin identifier
/// (for example a file path or stream name), and an optional 1-based line
/// and column. A location either carries both line and column or neither.
#[derive(Clone, Debug, PartialEq, Eq, PartialOrd, Ord, Hash)]
pub struct SourceLoc {
    pub path: Option<String>,
    pub line: Option<usize>,
    pub col: Option<usize>,
}

impl View for SourceLoc {
    type V = LocView;

    open spec fn view(&self) -> LocView {
        LocView {
            path: origin_view(self.path),
            line: match self.line {
                Some(l) => Some(l as nat),
                None => None,
            },
            col: match self.col {
                Some(c) => Some(c as nat),
                None => None,
            },
        }
    }
}

impl SourceLoc {
    /// A present location carries both line and column or neither.
    pub open spec fn wf(&self) -> bool {
        self.line is Some <==> self.col is Some
    }

    /// A location inside a named origin, at the given 1-based line and column.
    pub fn new(path: &str, line: usize, column: usize) -> (r: SourceLoc)
        ensures
            r@ == (LocView {
                path: Some(path@),
                line: Some(line as nat),
                col: Some(column as nat),
            }),
            r.wf(),
    {
        SourceLoc { path: Some(path.to_owned()), line: Some(line), col: Some(column) }
    }

    /// The empty location: used when no byte of source was ever read.
    pub fn empty() -> (r: SourceLoc)
        ensures
            r@ == empty_loc(),
            r.wf(),
    {
        SourceLoc { path: None, line: None, col: None }
    }

    /// The origin identifier, if one is known.
    pub fn path(&self) -> (r: &Option<String>)
        ensures
            r == &self.path,
    {
        &self.path
    }

    /// Replaces the origin identifier.
    pub fn path_mut(&mut self, value: Option<String>)
        ensures
            final(self).path == value,
            final(self).line == old(self).line,
            final(self).col == old(self).col,
    {
        self.path = value;
    }

    /// The 1-based line, if the location is present.
    pub fn line(&self) -> (r: Option<usize>)
        ensures
            r == self.line,
    {
        self.line
    }

    /// Replaces the line.
    pub fn line_mut(&mut self, value: Option<usize>)
        ensures
            final(self).line == value,
            final(self).path == old(self).path,
            final(self).col == old(self).col,
    {
        self.line = value;
    }

    /// The 1-based column, if the location is present.
    pub fn column(&self) -> (r: Option<usize>)
        ensures
            r == self.col,
    {
        self.col
    }

    /// Replaces the column.
    pub fn column_mut(&mut self, value: Option<usize>)
        ensures
            final(self).col == value,
            final(self).path == old(self).path,
            final(self).line == old(self).line,
    {
        self.col = value;
    }

    /// A copy of this location with the same abstract value.
    pub fn duplicate(&self) -> (r: SourceLoc)
        ensures
            r@ == self@,
            r.path is Some <==> self.path is Some,
            r.line == self.line,
            r.col == self.col,
    {
        SourceLoc { path: clone_origin(&self.path), line: self.line, col: self.col }
    }

    /// The location after consuming one character at this location: a line
    /// terminator starts the next line at column 1, any other character
    /// advances the column by one.
    pub fn advance(&self, c: char) -> (r: SourceLoc)
        requires
            self.line is Some,
            self.col is Some,
            self.line->0 < usize::MAX,
            self.col->0 < usize::MAX,
        ensures
            r@ == loc_advance(self@, c),
            r.line is Some,
            r.col is Some,
    {
        let line: usize = match self.line {
            Some(l) => l,
            None => 1,
        };
        let col: usize = match self.col {
            Some(c2) => c2,
            None => 1,
        };
        if c == '\n' {
            SourceLoc { path: clone_origin(&self.path), line: Some(line + 1), col: Some(1) }
        } else {
            SourceLoc { path: clone_origin(&self.path), line: Some(line), col: Some(col + 1) }
        }
    }
}

impl Default for SourceLoc {
    /// The default location is the empty location.
    fn default() -> (r: Self)
        ensures
            r@ == empty_loc(),
            r.wf(),
    {
        SourceLoc { path: None, line: None, col: None }
    }
}

/// A copy of an optional origin label with the same abstract value.
pub fn clone_origin(o: &Option<String>) -> (r: Option<String>)
    ensures
        origin_view(r) == origin_view(*o),
        r is Some <==> o is Some,
{
    match o {
        Some(p) => Some(p.clone()),
        None => None,
    }
}

/// The advancement rule on abstract locations: a line terminator moves to the
/// start of the next line, any other character moves one column to the right.
/// A location without line and column is left unchanged.
pub open spec fn loc_advance(l: LocView, c: char) -> LocView {
    match (l.line, l.col) {
        (Some(line), Some(col)) => if is_line_term(c) {
            LocView { path: l.path, line: Some((line + 1) as nat), col: Some(1nat) }
        } else {
            LocView { path: l.path, line: l.line, col: Some((col + 1) as nat) }
        },
        _ => l,
    }
}

/// The 1-based (line, column) position of the character at index `i` of
/// `text`: the very first character is at line 1, column 1, and each
/// character advances the position by the rule of `loc_advance`.
pub open spec fn pos_at(text: Seq<char>, i: int) -> (nat, nat)
    decreases i,
{
    if i <= 0 {
        (1nat, 1nat)
    } else {
        let p = pos_at(text, i - 1);
        if is_line_term(text[i - 1]) {
            ((p.0 + 1) as nat, 1nat)
        } else {
            (p.0, (p.1 + 1) as nat)
        }
    }
}

/// The full location of the character at index `i` of a buffer with the
/// given origin.
pub open spec fn loc_at(origin: Option<Seq<char>>, text: Seq<char>, i: int) -> LocView {
    LocView { path: origin, line: Some(pos_at(text, i).0), col: Some(pos_at(text, i).1) }
}

/// Line and column are always at least 1 and never exceed the index plus one.
pub proof fn lemma_pos_at_bounds(text: Seq<char>, i: int)
    requires
        0 <= i,
    ensures
        1 <= pos_at(text, i).0 <= i + 1,
        1 <= pos_at(text, i).1 <= i + 1,
    decreases i,
{
    if i > 0 {
        lemma_pos_at_bounds(text, i - 1);
    }
}

/// The number of line terminators among the first `i` characters of `text`.
pub open spec fn line_terms_before(text: Seq<char>, i: int) -> nat
    decreases i,
{
    if i <= 0 {
        0nat
    } else {
        line_terms_before(text, i - 1) + (if is_line_term(text[i - 1]) {
            1nat
        } else {
            0nat
        })
    }
}

/// The line of any character equals one more than the number of line
/// terminators before it: the character after the k-th terminator lies on
/// line k + 1.
pub proof fn lemma_line_counts_terminators(text: Seq<char>, i: int)
    requires
        0 <= i,
    ensures
        pos_at(text, i).0 == 1 + line_terms_before(text, i),
    decreases i,
{
    if i > 0 {
        lemma_line_counts_terminators(text, i - 1);
    }
}

/// In text without line terminators every position lies on line 1 and the
/// column is exactly the index plus one, so columns grow strictly with the
/// index.
pub proof fn lemma_no_terminators_single_line(text: Seq<char>, i: int)
    requires
        0 <= i <= text.len(),
        forall|j: int| 0 <= j < text.len() ==> !is_line_term(#[trigger] text[j]),
    ensures
        pos_at(text, i).0 == 1,
        pos_at(text, i).1 == i + 1,
    decreases i,
{
    if i > 0 {
        lemma_no_terminators_single_line(text, i - 1);
    }
}

/// Positions only grow: a later index is never at an earlier (line, column).
pub proof fn lemma_pos_at_monotone(text: Seq<char>, i: int, j: int)
    requires
        0 <= i <= j,
    ensures
        pos_at(text, i).0 <= pos_at(text, j).0,
        pos_at(text, i).0 == pos_at(text, j).0 ==> pos_at(text, i).1 <= pos_at(text, j).1,
    decreases j - i,
{
    if i < j {
        lemma_pos_at_monotone(text, i, j - 1);
        lemma_pos_at_bounds(text, j - 1);
    }
}

/// A position within a prefix is unchanged by whatever follows the prefix.
pub proof fn lemma_pos_at_prefix(a: Seq<char>, b: Seq<char>, i: int)
    requires
        0 <= i <= a.len(),
    ensures
        pos_at(a + b, i) == pos_at(a, i),
    decreases i,
{
    if i > 0 {
        lemma_pos_at_prefix(a, b, i - 1);
        assert((a + b)[i - 1] == a[i - 1]);
    }
}

/// Shifts a position measured from the start of a second buffer so that it
/// is measured from the start of a first buffer that ends at `base`: a
/// position still on the second buffer's first line continues `base`'s line,
/// any later line counts on from `base`'s line.
pub open spec fn pos_shift(base: (nat, nat), p: (nat, nat)) -> (nat, nat) {
    if p.0 == 1 {
        (base.0, (base.1 + p.1 - 1) as nat)
    } else {
        ((base.0 + p.0 - 1) as nat, p.1)
    }
}

/// Concatenation law for location stamps: splitting a buffer at any
/// character boundary and locating each half independently, then shifting
/// the second half's positions by the first half's ending position, gives
/// exactly the positions of locating the whole buffer in one pass.
pub proof fn lemma_split_locations(a: Seq<char>, b: Seq<char>, i: int)
    requires
        0 <= i <= b.len(),
    ensures
        pos_at(a + b, a.len() + i) == pos_shift(pos_at(a, a.len() as int), pos_at(b, i)),
    decreases i,
{
    lemma_pos_at_bounds(b, i);
    if i == 0 {
        lemma_pos_at_prefix(a, b, a.len() as int);
        lemma_pos_at_bounds(a, a.len() as int);
    } else {
        lemma_split_locations(a, b, i - 1);
        lemma_pos_at_bounds(b, i - 1);
        lemma_pos_at_bounds(a, a.len() as int);
        assert((a + b)[a.len() + i - 1] == b[i - 1]);
    }
}

/// The character standing at the digit value `d`, for `d` under ten.
pub open spec fn digit_char(d: nat) -> char {
    if d == 0 {
        '0'
    } else if d == 1 {
        '1'
    } else if d == 2 {
        '2'
    } else if d == 3 {
        '3'
    } else if d == 4 {
        '4'
    } else if d == 5 {
        '5'
    } else if d == 6 {
        '6'
    } else if d == 7 {
        '7'
    } else if d == 8 {
        '8'
    } else {
        '9'
    }
}

/// The decimal digits of `n`, most significant first.
pub open spec fn dec_digits(n: nat) -> Seq<char>
    decreases n,
{
    if n < 10 {
        seq![digit_char(n)]
    } else {
        dec_digits(n / 10) + seq![digit_char(n % 10)]
    }
}

/// Appends the decimal digits of `n` to `s`.
pub fn push_dec(s: &mut String, n: usize)
    ensures
        final(s)@ == old(s)@ + dec_digits(n as nat),
    decreases n,
{
    proof {
        reveal_strlit("0");
        reveal_strlit("1");
        reveal_strlit("2");
        reveal_strlit("3");
        reveal_strlit("4");
        reveal_strlit("5");
        reveal_strlit("6");
        reveal_strlit("7");
        reveal_strlit("8");
        reveal_strlit("9");
    }
    let ghost prefix: Seq<char> = s@;
    if n >= 10 {
        push_dec(s, n / 10);
    }
    let ghost mid: Seq<char> = s@;
    let d: usize = n % 10;
    if d == 0 {
        s.append("0");
    } else if d == 1 {
        s.append("1");
    } else if d == 2 {
        s.append("2");
    } else if d == 3 {
        s.append("3");
    } else if d == 4 {
        s.append("4");
    } else if d == 5 {
        s.append("5");
    } else if d == 6 {
        s.append("6");
    } else if d == 7 {
        s.append("7");
    } else if d == 8 {
        s.append("8");
    } else {
        s.append("9");
    }
    proof {
        if n >= 10 {
            assert(s@ =~= prefix + dec_digits(n as nat));
        } else {
            assert(s@ =~= prefix + dec_digits(n as nat));
        }
    }
}

/// The display form of a location: `origin:line:column`, with trailing empty
/// components left off; a wholly empty location renders as the empty string.
/// A column without a line is shown on line 1, as a line without a column is
/// shown without one.
pub open spec fn render_loc(l: LocView) -> Seq<char> {
    let p = match l.path {
        Some(p) => p,
        None => Seq::<char>::empty(),
    };
    match (l.line, l.col) {
        (None, None) => p,
        (Some(line), None) => p + seq![':'] + dec_digits(line),
        (None, Some(col)) => p + seq![':'] + dec_digits(1nat) + seq![':'] + dec_digits(col),
        (Some(line), Some(col)) => p + seq![':'] + dec_digits(line) + seq![':'] + dec_digits(col),
    }
}

impl SourceLoc {
    /// The display form of this location, per `render_loc`.
    pub fn render(&self) -> (r: String)
        ensures
            r@ == render_loc(self@),
    {
        proof {
            reveal_strlit(":");
            reveal_strlit(":1:");
        }
        let mut s = String::new();
        match &self.path {
            Some(p) => s.append(p.as_str()),
            None => (),
        }
        let ghost with_path: Seq<char> = s@;
        match (self.line, self.col) {
            (None, None) => (),
            (Some(line), None) => {
                s.append(":");
                push_dec(&mut s, line);
            },
            (None, Some(col)) => {
                s.append(":1:");
                push_dec(&mut s, col);
                proof {
                    assert(dec_digits(1nat) =~= seq!['1']);
                    assert(s@ =~= render_loc(self@));
                }
            },
            (Some(line), Some(col)) => {
                s.append(":");
                push_dec(&mut s, line);
                s.append(":");
                push_dec(&mut s, col);
            },
        }
        proof {
            assert(s@ =~= render_loc(self@));
        }
        s
    }
}

/// An ordered pair of locations delimiting a span of text: `end` is not
/// before `start`. A region may be zero-width, marking an insertion point or
/// the end of input.
#[derive(Clone, Debug, Default, PartialEq, Eq, PartialOrd, Ord, Hash)]
pub struct Region {
    pub start: SourceLoc,
    pub end: SourceLoc,
}

impl Region {
    /// The span from `start` to `end`.
    pub fn new(start: SourceLoc, end: SourceLoc) -> (r: Region)
        ensures
            r.start == start,
            r.end == end,
    {
        Region { start, end }
    }

    /// The location where the span begins.
    pub fn start(&self) -> (r: &SourceLoc)
        ensures
            r == &self.start,
    {
        &self.start
    }

    /// The location just past the last character of the span.
    pub fn end(&self) -> (r: &SourceLoc)
        ensures
            r == &self.end,
    {
        &self.end
    }
}

} // verus!
