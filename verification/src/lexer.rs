//! The lexer: block-buffered ingestion of raw bytes into validated text,
//! and the scanning state machine that drives a cursor over the text and
//! commits located tokens.

use vstd::prelude::*;
use vstd::string::StrSliceExecFns;
use vstd::utf8::valid_utf8;
use vstd::utf8::decode_utf8;
use vstd::utf8::length_of_first_scalar;
use vstd::utf8::pop_first_scalar;
use crate::loc::SourceLoc;
use crate::loc::origin_view;
use crate::loc::clone_origin;
use crate::loc::loc_at;
use crate::loc::lemma_pos_at_bounds;
use crate::loc::lemma_no_terminators_single_line;
use crate::loc::lemma_pos_at_monotone;
use crate::loc::is_line_term;
use crate::loc::empty_loc;
use crate::loc::Region;
use crate::err::Error;
use crate::err::ErrorKind;
use crate::token::MappedRegion;
use crate::token::Token;
use crate::token::Tokens;
use crate::cursor::Cursor;

verus! {

/// How many bytes one ingestion read asks for at most: bounds memory per
/// read call, not total input size.
pub const LEXER_BLOCK_SIZE: usize = 255;

/// A character the scanner skips without emitting a token.
pub open spec fn is_space(c: char) -> bool {
    c == ' ' || c == '\t' || c == '\r' || c == '\n'
}

/// Whether the scanner skips this character, as an executable test.
pub fn is_space_char(c: char) -> (r: bool)
    ensures
        r == is_space(c),
{
    c == ' ' || c == '\t' || c == '\r' || c == '\n'
}

/// The index just past the token that starts at `i`: the first index at or
/// after `i` holding a skipped character, or the end of the text.
pub open spec fn token_end(text: Seq<char>, i: int) -> int
    decreases text.len() - i,
{
    if i < 0 || i >= text.len() {
        text.len() as int
    } else if is_space(text[i]) {
        i
    } else {
        token_end(text, i + 1)
    }
}

/// The index just past a token never lies before the token's start, never
/// past the text, and moves at least one place when the start is scannable.
pub proof fn lemma_token_end_bounds(text: Seq<char>, i: int)
    requires
        0 <= i <= text.len(),
    ensures
        i <= token_end(text, i) <= text.len(),
        i < text.len() && !is_space(text[i]) ==> i + 1 <= token_end(text, i),
    decreases text.len() - i,
{
    if i < text.len() && !is_space(text[i]) {
        lemma_token_end_bounds(text, i + 1);
    }
}

/// The spans of the tokens found from index `i` on: maximal runs of
/// non-skipped characters, each given as (start, one past the end).
pub open spec fn scan_from(text: Seq<char>, i: int) -> Seq<(int, int)>
    decreases text.len() - i,
    when i >= 0
    via scan_from_dec
{
    if i < 0 || i >= text.len() {
        Seq::empty()
    } else if is_space(text[i]) {
        scan_from(text, i + 1)
    } else {
        seq![(i, token_end(text, i))] + scan_from(text, token_end(text, i))
    }
}

#[via_fn]
proof fn scan_from_dec(text: Seq<char>, i: int) {
    if 0 <= i < text.len() && !is_space(text[i]) {
        lemma_token_end_bounds(text, i);
    }
}

/// Token spans lie in order inside the text: each is non-empty, each ends
/// where `token_end` says, and no span starts before the one before it ends.
pub proof fn lemma_scan_from_spans(text: Seq<char>, i: int)
    requires
        0 <= i <= text.len(),
    ensures
        forall|k: int| 0 <= k < scan_from(text, i).len() ==> {
            let sp = #[trigger] scan_from(text, i)[k];
            &&& i <= sp.0
            &&& sp.0 < sp.1 <= text.len()
            &&& sp.1 == token_end(text, sp.0)
        },
        forall|k1: int, k2: int|
            0 <= k1 < k2 < scan_from(text, i).len() ==> (#[trigger] scan_from(text, i)[k1]).1
                <= (#[trigger] scan_from(text, i)[k2]).0,
    decreases text.len() - i,
{
    if i >= text.len() {
    } else if is_space(text[i]) {
        lemma_scan_from_spans(text, i + 1);
        assert(scan_from(text, i) == scan_from(text, i + 1));
        assert forall|k: int| 0 <= k < scan_from(text, i).len() implies {
            let sp = #[trigger] scan_from(text, i)[k];
            &&& i <= sp.0
            &&& sp.0 < sp.1 <= text.len()
            &&& sp.1 == token_end(text, sp.0)
        } by {
            assert(scan_from(text, i)[k] == scan_from(text, i + 1)[k]);
        }
        assert forall|k1: int, k2: int|
            0 <= k1 < k2 < scan_from(text, i).len() implies (#[trigger] scan_from(text, i)[k1]).1
            <= (#[trigger] scan_from(text, i)[k2]).0 by {
            assert(scan_from(text, i)[k1] == scan_from(text, i + 1)[k1]);
            assert(scan_from(text, i)[k2] == scan_from(text, i + 1)[k2]);
        }
    } else {
        let e = token_end(text, i);
        lemma_token_end_bounds(text, i);
        lemma_scan_from_spans(text, e);
        assert forall|k: int| 0 <= k < scan_from(text, i).len() implies {
            let sp = #[trigger] scan_from(text, i)[k];
            &&& i <= sp.0
            &&& sp.0 < sp.1 <= text.len()
            &&& sp.1 == token_end(text, sp.0)
        } by {
            if k > 0 {
                assert(scan_from(text, i)[k] == scan_from(text, e)[k - 1]);
            }
        }
        assert forall|k1: int, k2: int|
            0 <= k1 < k2 < scan_from(text, i).len() implies (#[trigger] scan_from(text, i)[k1]).1
            <= (#[trigger] scan_from(text, i)[k2]).0 by {
            if k1 > 0 {
                assert(scan_from(text, i)[k1] == scan_from(text, e)[k1 - 1]);
            }
            assert(scan_from(text, i)[k2] == scan_from(text, e)[k2 - 1]);
        }
    }
}

/// Whether `t` is exactly the token for the span `span` of `text` under the
/// given origin: its region starts and ends at the span's locations and its
/// content is the literal text of the span.
pub open spec fn token_matches(t: Token, origin: Option<Seq<char>>, text: Seq<char>, span: (int, int)) -> bool {
    &&& t.region.region.start@ == loc_at(origin, text, span.0)
    &&& t.region.region.end@ == loc_at(origin, text, span.1)
    &&& t.region.content@ == text.subrange(span.0, span.1)
}

/// Whether `ts` is exactly the token sequence that scanning `text` under
/// the given origin produces.
pub open spec fn tokens_match(ts: Seq<Token>, origin: Option<Seq<char>>, text: Seq<char>) -> bool {
    &&& ts.len() == scan_from(text, 0).len()
    &&& forall|k: int| 0 <= k < ts.len() ==> #[trigger] token_matches(
        ts[k],
        origin,
        text,
        scan_from(text, 0)[k],
    )
}

/// Decoding can only shorten: a text never has more characters than its
/// UTF-8 encoding has bytes.
pub proof fn lemma_decode_len(bytes: Seq<u8>)
    requires
        valid_utf8(bytes),
    ensures
        decode_utf8(bytes).len() <= bytes.len(),
    decreases bytes.len(),
{
    if bytes.len() != 0 {
        let n = length_of_first_scalar(bytes);
        assert(1 <= n <= bytes.len());
        lemma_decode_len(pop_first_scalar(bytes));
    }
}

/// In input free of line terminators, every token lies on line 1 and the
/// start columns of successive tokens strictly increase.
pub proof fn lemma_tokens_single_line(ts: Seq<Token>, origin: Option<Seq<char>>, text: Seq<char>)
    requires
        tokens_match(ts, origin, text),
        forall|j: int| 0 <= j < text.len() ==> !is_line_term(#[trigger] text[j]),
    ensures
        forall|k: int| 0 <= k < ts.len() ==> (#[trigger] ts[k]).region.region.start@.line == Some(
            1nat,
        ),
        forall|k1: int, k2: int|
            0 <= k1 < k2 < ts.len() ==> (#[trigger] ts[k1]).region.region.start@.col->0 < (
            #[trigger] ts[k2]).region.region.start@.col->0,
{
    lemma_scan_from_spans(text, 0);
    let spans = scan_from(text, 0);
    assert forall|k: int| 0 <= k < ts.len() implies (#[trigger] ts[k]).region.region.start@.line
        == Some(1nat) by {
        assert(token_matches(ts[k], origin, text, spans[k]));
        lemma_no_terminators_single_line(text, spans[k].0);
    }
    assert forall|k1: int, k2: int|
        0 <= k1 < k2 < ts.len() implies (#[trigger] ts[k1]).region.region.start@.col->0 < (
    #[trigger] ts[k2]).region.region.start@.col->0 by {
        assert(token_matches(ts[k1], origin, text, spans[k1]));
        assert(token_matches(ts[k2], origin, text, spans[k2]));
        lemma_no_terminators_single_line(text, spans[k1].0);
        lemma_no_terminators_single_line(text, spans[k2].0);
        assert(spans[k1].1 <= spans[k2].0);
    }
}

/// Every committed token's region is ordered: under the (line, column)
/// order of its origin, a token's end never lies before its start.
pub proof fn lemma_token_regions_ordered(
    ts: Seq<Token>,
    origin: Option<Seq<char>>,
    text: Seq<char>,
)
    requires
        tokens_match(ts, origin, text),
    ensures
        forall|k: int| 0 <= k < ts.len() ==> {
            let sl = (#[trigger] ts[k]).region.region.start@;
            let el = ts[k].region.region.end@;
            sl.line->0 < el.line->0 || (sl.line == el.line && sl.col->0 <= el.col->0)
        },
{
    lemma_scan_from_spans(text, 0);
    let spans = scan_from(text, 0);
    assert forall|k: int| 0 <= k < ts.len() implies {
        let sl = (#[trigger] ts[k]).region.region.start@;
        let el = ts[k].region.region.end@;
        sl.line->0 < el.line->0 || (sl.line == el.line && sl.col->0 <= el.col->0)
    } by {
        assert(token_matches(ts[k], origin, text, spans[k]));
        lemma_pos_at_monotone(text, spans[k].0, spans[k].1);
    }
}

/// Shifts a span by `n` places: how the second half of a split buffer's
/// spans read when measured from the whole buffer's start.
pub open spec fn span_shift(sp: (int, int), n: int) -> (int, int) {
    (sp.0 + n, sp.1 + n)
}

proof fn lemma_token_end_concat_right(a: Seq<char>, b: Seq<char>, j: int)
    requires
        0 <= j,
    ensures
        token_end(a + b, a.len() + j) == a.len() + token_end(b, j),
    decreases b.len() - j,
{
    if j >= b.len() {
    } else {
        assert((a + b)[a.len() + j] == b[j]);
        if !is_space(b[j]) {
            lemma_token_end_concat_right(a, b, j + 1);
        }
    }
}

proof fn lemma_scan_concat_right(a: Seq<char>, b: Seq<char>, j: int)
    requires
        0 <= j,
    ensures
        scan_from(a + b, a.len() + j) == scan_from(b, j).map_values(
            |sp: (int, int)| span_shift(sp, a.len() as int),
        ),
    decreases b.len() - j,
{
    let f = |sp: (int, int)| span_shift(sp, a.len() as int);
    if j >= b.len() {
        assert(scan_from(b, j).map_values(f) =~= Seq::<(int, int)>::empty());
        assert(scan_from(a + b, a.len() + j) =~= Seq::<(int, int)>::empty());
    } else if is_space(b[j]) {
        assert((a + b)[a.len() + j] == b[j]);
        lemma_scan_concat_right(a, b, j + 1);
    } else {
        assert((a + b)[a.len() + j] == b[j]);
        lemma_token_end_concat_right(a, b, j);
        let e = token_end(b, j);
        lemma_token_end_bounds(b, j);
        lemma_scan_concat_right(a, b, e);
        assert(scan_from(a + b, a.len() + j) == seq![(a.len() + j, a.len() + e)] + scan_from(
            a + b,
            a.len() + e,
        ));
        assert(scan_from(b, j) == seq![(j, e)] + scan_from(b, e));
        assert(scan_from(b, j).map_values(f) =~= seq![(a.len() + j, a.len() + e)] + scan_from(
            b,
            e,
        ).map_values(f)) by {
            assert forall|k: int| 0 <= k < scan_from(b, j).len() implies scan_from(
                b,
                j,
            ).map_values(f)[k] == (seq![(a.len() + j, a.len() + e)] + scan_from(b, e).map_values(
                f,
            ))[k] by {
                if k > 0 {
                    assert(scan_from(b, j)[k] == scan_from(b, e)[k - 1]);
                }
            }
        }
    }
}

proof fn lemma_token_end_concat(a: Seq<char>, b: Seq<char>, i: int)
    requires
        0 <= i <= a.len(),
        b.len() == 0 || is_space(b[0]) || is_space(a[a.len() - 1]),
    ensures
        i < a.len() || b.len() == 0 || is_space(b[0]) ==> token_end(a + b, i) == token_end(a, i),
    decreases a.len() - i,
{
    if i == a.len() {
        if b.len() > 0 && is_space(b[0]) {
            assert((a + b)[i] == b[0]);
        }
    } else {
        assert((a + b)[i] == a[i]);
        if !is_space(a[i]) {
            lemma_token_end_concat(a, b, i + 1);
        }
    }
}

proof fn lemma_split_tokens_from(a: Seq<char>, b: Seq<char>, i: int)
    requires
        0 <= i <= a.len(),
        b.len() == 0 || is_space(b[0]) || a.len() == 0 || is_space(a[a.len() - 1]),
    ensures
        scan_from(a + b, i) == scan_from(a, i) + scan_from(b, 0).map_values(
            |sp: (int, int)| span_shift(sp, a.len() as int),
        ),
    decreases a.len() - i,
{
    let f = |sp: (int, int)| span_shift(sp, a.len() as int);
    if i == a.len() {
        lemma_scan_concat_right(a, b, 0);
        assert(scan_from(a, i) =~= Seq::<(int, int)>::empty());
        assert(scan_from(a, i) + scan_from(b, 0).map_values(f) =~= scan_from(b, 0).map_values(f));
    } else {
        assert((a + b)[i] == a[i]);
        if is_space(a[i]) {
            lemma_split_tokens_from(a, b, i + 1);
        } else {
            lemma_token_end_concat(a, b, i);
            assert(token_end(a + b, i) == token_end(a, i));
            let e = token_end(a, i);
            lemma_token_end_bounds(a, i);
            lemma_split_tokens_from(a, b, e);
            assert(scan_from(a + b, i) == seq![(i, e)] + scan_from(a + b, e));
            assert(scan_from(a, i) == seq![(i, e)] + scan_from(a, e));
            assert(scan_from(a + b, i) =~= scan_from(a, i) + scan_from(b, 0).map_values(f));
        }
    }
}

/// Concatenation law for the scan itself: splitting a buffer at a character
/// boundary that no token spans (an edge, or next to a skipped character)
/// and scanning each half independently gives back the whole buffer's scan:
/// the whole's spans are the first half's spans followed by the second
/// half's spans moved over by the first half's length. Together with
/// `lemma_split_locations`, the second half's location stamps shifted by
/// the first half's ending location are exactly the whole buffer's.
pub proof fn lemma_split_tokens(a: Seq<char>, b: Seq<char>)
    requires
        b.len() == 0 || is_space(b[0]) || a.len() == 0 || is_space(a[a.len() - 1]),
    ensures
        scan_from(a + b, 0) == scan_from(a, 0) + scan_from(b, 0).map_values(
            |sp: (int, int)| span_shift(sp, a.len() as int),
        ),
{
    lemma_split_tokens_from(a, b, 0);
}

/// Relies on String::from_utf8: returns the text decoded from the bytes
/// exactly when they are a valid UTF-8 encoding, in the sense of vstd's
/// UTF-8 model; on failure the platform's description of the decode error
/// is handed back.
#[verifier::external_body]
fn utf8_string(bytes: Vec<u8>) -> (r: Result<String, String>)
    ensures
        r is Ok <==> valid_utf8(bytes@),
        r matches Ok(s) ==> s@ == decode_utf8(bytes@),
{
    match String::from_utf8(bytes) {
        Ok(s) => Ok(s),
        Err(e) => Err(e.to_string()),
    }
}

/// Relies on std::io::Read::read: reads at most `LEXER_BLOCK_SIZE` bytes,
/// appends exactly the bytes read to `acc` and returns how many; on failure
/// no bytes are appended and the platform's description is handed back.
#[verifier::external_body]
fn read_block<R: std::io::Read>(r: &mut R, acc: &mut Vec<u8>) -> (res: Result<usize, String>)
    ensures
        res matches Ok(n) ==> n <= LEXER_BLOCK_SIZE && final(acc)@.len() == old(acc)@.len() + n
            && final(acc)@.len() <= usize::MAX,
        res matches Err(m) ==> final(acc)@ == old(acc)@,
{
    let mut block = [0u8; LEXER_BLOCK_SIZE];
    match r.read(&mut block) {
        Ok(n) => {
            acc.extend_from_slice(&block[0..n]);
            Ok(n)
        },
        Err(e) => Err(e.to_string()),
    }
}

/// The text a lexer scans: the empty sequence until one was ingested.
pub open spec fn text_view(l: Lexer) -> Seq<char> {
    match l.text {
        Some(t) => t@,
        None => Seq::<char>::empty(),
    }
}

/// The origin label a lexer stamps its locations with.
pub open spec fn lexer_origin(l: Lexer) -> Option<Seq<char>> {
    origin_view(l.origin)
}

/// Orchestrates ingestion and scanning: owns the text buffer, drives a
/// cursor over it once, and keeps the tokens it committed.
pub struct Lexer {
    /// the ingested text, if any was
    pub text: Option<String>,
    /// the origin label locations are stamped with
    pub origin: Option<String>,
    /// the tokens committed so far
    pub tokens: Tokens,
    /// whether the one scan has already run: a finished lexer never rescans
    pub scanned: bool,
}

/// A copy of a token with the same locations and the same content.
fn clone_token(t: &Token) -> (r: Token)
    ensures
        r.region.region.start@ == t.region.region.start@,
        r.region.region.end@ == t.region.region.end@,
        r.region.content@ == t.region.content@,
{
    Token::new(
        MappedRegion::new(
            Region::new(t.region.region.start.duplicate(), t.region.region.end.duplicate()),
            t.region.content.clone(),
        ),
    )
}

impl Lexer {
    /// The buffer must leave room for one-past-the-end positions.
    pub open spec fn wf(&self) -> bool {
        match self.text {
            Some(t) => t@.len() < usize::MAX as nat,
            None => true,
        }
    }

    /// An empty lexer: no text, no origin, no tokens, not yet scanned.
    pub fn new() -> (r: Self)
        ensures
            r.wf(),
            r.text is None,
            r.origin is None,
            r.tokens@ == Seq::<Token>::empty(),
            !r.scanned,
    {
        Lexer { text: None, origin: None, tokens: Tokens::new(), scanned: false }
    }

    /// The tokens committed so far, in order of appearance.
    pub fn tokens(&self) -> (r: &Tokens)
        ensures
            r == &self.tokens,
    {
        &self.tokens
    }

    /// A lexer over the text decoded from the given bytes, already scanned:
    /// succeeds exactly when the bytes are valid UTF-8, and otherwise
    /// reports an `Encoding` error with the empty location and no tokens.
    pub fn from_bytes(bytes: Vec<u8>, path: Option<String>) -> (r: Result<Lexer, Error>)
        requires
            bytes@.len() < usize::MAX as nat,
        ensures
            r is Ok <==> valid_utf8(bytes@),
            r matches Ok(lex) ==> {
                &&& lex.wf()
                &&& lex.scanned
                &&& lex.text matches Some(t) && t@ == decode_utf8(bytes@)
                &&& lexer_origin(lex) == origin_view(path)
                &&& tokens_match(lex.tokens@, origin_view(path), decode_utf8(bytes@))
            },
            r matches Err(e) ==> {
                &&& !valid_utf8(bytes@)
                &&& e.kind == ErrorKind::Encoding
                &&& e.location@ == empty_loc()
            },
    {
        let ghost gbytes: Seq<u8> = bytes@;
        match utf8_string(bytes) {
            Ok(s) => {
                proof {
                    lemma_decode_len(gbytes);
                }
                let mut lex = Lexer {
                    text: Some(s),
                    origin: path,
                    tokens: Tokens::new(),
                    scanned: false,
                };
                let scan = lex.analyse();
                proof {
                    assert(lex.tokens@.skip(0) =~= lex.tokens@);
                }
                match scan {
                    Ok(_) => Ok(lex),
                    Err(e) => Err(e),
                }
            },
            Err(msg) => Err(
                Error::default().with_kind(ErrorKind::Encoding).with_message(
                    msg.as_str(),
                ).with_location(SourceLoc::empty()),
            ),
        }
    }

    /// A lexer over text already in memory, under the given origin label,
    /// already scanned.
    pub fn from_text(text: &str, path: Option<String>) -> (r: Lexer)
        requires
            text@.len() < usize::MAX as nat,
        ensures
            r.wf(),
            r.scanned,
            text_view(r) == text@,
            lexer_origin(r) == origin_view(path),
            tokens_match(r.tokens@, origin_view(path), text@),
    {
        let mut lex = Lexer {
            text: Some(text.to_owned()),
            origin: path,
            tokens: Tokens::new(),
            scanned: false,
        };
        let scan = lex.analyse();
        proof {
            assert(lex.tokens@.skip(0) =~= lex.tokens@);
        }
        match scan {
            Ok(_) => (),
            Err(_) => (),
        }
        lex
    }

    /// Reads the whole source in bounded blocks until a short read signals
    /// end of input, validates the bytes as text and scans them. Whatever
    /// the source hands over: on success the lexer's tokens are exactly the
    /// scan of the ingested text; a read failure is an `IO` error and
    /// invalid text an `Encoding` error, each with the empty location, and
    /// no partially constructed lexer escapes.
    pub fn from_reader<R: std::io::Read>(mut r: R, path: Option<String>) -> (res: Result<
        Lexer,
        Error,
    >)
        ensures
            res matches Ok(lex) ==> {
                &&& lex.wf()
                &&& lex.scanned
                &&& lex.text is Some
                &&& lexer_origin(lex) == origin_view(path)
                &&& tokens_match(lex.tokens@, origin_view(path), text_view(lex))
            },
            res matches Err(e) ==> {
                &&& (e.kind == ErrorKind::IO || e.kind == ErrorKind::Encoding)
                &&& e.location@ == empty_loc()
            },
    {
        let mut blocks: Vec<u8> = Vec::new();
        loop
            invariant
                blocks@.len() <= usize::MAX,
            decreases usize::MAX as int - blocks@.len() as int,
        {
            match read_block(&mut r, &mut blocks) {
                Ok(n) => {
                    if n != LEXER_BLOCK_SIZE {
                        break ;
                    }
                },
                Err(m) => {
                    return Err(
                        Error::default().with_kind(ErrorKind::IO).with_message(
                            m.as_str(),
                        ).with_location(SourceLoc::empty()),
                    );
                },
            }
        }
        if blocks.len() == usize::MAX {
            return Err(
                Error::default().with_kind(ErrorKind::IO).with_message(
                    "input too large to index",
                ).with_location(SourceLoc::empty()),
            );
        }
        Lexer::from_bytes(blocks, path)
    }

    /// The one scan: drives a cursor from the start of the buffer to its
    /// end, skipping whitespace and committing a token for every maximal
    /// run of other characters, each region marked before its first and
    /// after its last character. A second call on a finished lexer returns
    /// an empty additional sequence, never a re-scan.
    pub fn analyse(&mut self) -> (r: Result<Tokens, Error>)
        requires
            old(self).wf(),
        ensures
            final(self).wf(),
            final(self).scanned,
            final(self).text == old(self).text,
            final(self).origin == old(self).origin,
            old(self).scanned ==> *final(self) == *old(self),
            r matches Ok(toks) && {
                &&& (old(self).scanned ==> toks@ == Seq::<Token>::empty() && final(self).tokens@
                    == old(self).tokens@)
                &&& (!old(self).scanned ==> {
                    &&& tokens_match(
                        toks@,
                        origin_view(old(self).origin),
                        text_view(*old(self)),
                    )
                    &&& final(self).tokens@.len() == old(self).tokens@.len() + toks@.len()
                    &&& (forall|k: int|
                        0 <= k < old(self).tokens@.len() ==> final(self).tokens@[k] == old(
                            self,
                        ).tokens@[k])
                    &&& tokens_match(
                        final(self).tokens@.skip(old(self).tokens@.len() as int),
                        origin_view(old(self).origin),
                        text_view(*old(self)),
                    )
                })
            },
    {
        if self.scanned {
            return Ok(Tokens::new());
        }
        self.scanned = true;
        let text: String = match &self.text {
            Some(t) => t.clone(),
            None => String::new(),
        };
        let ghost gtext: Seq<char> = text@;
        let ghost gorigin: Option<Seq<char>> = origin_view(self.origin);
        let origin_copy = clone_origin(&self.origin);
        let mut cursor = Cursor::new(text, origin_copy, None);
        let ghost spans: Seq<(int, int)> = scan_from(gtext, 0);
        let mut out = Tokens::new();
        proof {
            assert(gtext == text_view(*old(self)));
            assert(spans.skip(0) =~= spans);
        }
        loop
            invariant
                cursor.wf(),
                cursor.data@ == gtext,
                cursor.len is None,
                origin_view(cursor.loc.path) == gorigin,
                out@.len() <= spans.len(),
                scan_from(gtext, cursor.index as int) == spans.skip(out@.len() as int),
                forall|k: int|
                    0 <= k < out@.len() ==> #[trigger] token_matches(
                        out@[k],
                        gorigin,
                        gtext,
                        spans[k],
                    ),
                spans == scan_from(gtext, 0),
            ensures
                cursor.wf(),
                cursor.data@ == gtext,
                cursor.len is None,
                origin_view(cursor.loc.path) == gorigin,
                out@.len() <= spans.len(),
                scan_from(gtext, cursor.index as int) == spans.skip(out@.len() as int),
                forall|k: int|
                    0 <= k < out@.len() ==> #[trigger] token_matches(
                        out@[k],
                        gorigin,
                        gtext,
                        spans[k],
                    ),
                spans == scan_from(gtext, 0),
                cursor.index as int >= cursor.limit(),
            decreases gtext.len() - cursor.index as int,
        {
            let ghost outer_i: int = cursor.index as int;
            loop
                invariant
                    cursor.wf(),
                    cursor.data@ == gtext,
                    cursor.len is None,
                    origin_view(cursor.loc.path) == gorigin,
                    outer_i <= cursor.index as int,
                    scan_from(gtext, cursor.index as int) == spans.skip(out@.len() as int),
                ensures
                    cursor.wf(),
                    cursor.data@ == gtext,
                    cursor.len is None,
                    origin_view(cursor.loc.path) == gorigin,
                    outer_i <= cursor.index as int,
                    scan_from(gtext, cursor.index as int) == spans.skip(out@.len() as int),
                    cursor.index as int >= cursor.limit() || !is_space(
                        gtext[cursor.index as int],
                    ),
                decreases gtext.len() - cursor.index as int,
            {
                let p = cursor.peek();
                match p {
                    Some(c) => {
                        if is_space_char(c) {
                            let ghost i0: int = cursor.index as int;
                            cursor.advance();
                            proof {
                                assert(scan_from(gtext, i0) == scan_from(gtext, i0 + 1));
                            }
                        } else {
                            break ;
                        }
                    },
                    None => {
                        break ;
                    },
                }
            }
            if cursor.at_end() {
                break ;
            }
            let ghost s: int = cursor.index as int;
            proof {
                lemma_token_end_bounds(gtext, s);
                lemma_pos_at_bounds(gtext, s);
                assert(0 <= s < gtext.len());
                assert(!is_space(gtext[s]));
                assert(scan_from(gtext, s) == spans.skip(out@.len() as int));
                assert(scan_from(gtext, s) == seq![(s, token_end(gtext, s))] + scan_from(
                    gtext,
                    token_end(gtext, s),
                ));
            }
            let start_idx: usize = cursor.index;
            let start_loc = cursor.mark();
            proof {
                assert(start_loc@ == loc_at(gorigin, gtext, s));
            }
            loop
                invariant
                    cursor.wf(),
                    cursor.data@ == gtext,
                    cursor.len is None,
                    origin_view(cursor.loc.path) == gorigin,
                    s <= cursor.index as int <= token_end(gtext, s),
                    token_end(gtext, cursor.index as int) == token_end(gtext, s),
                ensures
                    cursor.wf(),
                    cursor.data@ == gtext,
                    cursor.len is None,
                    origin_view(cursor.loc.path) == gorigin,
                    s <= cursor.index as int,
                    cursor.index as int == token_end(gtext, s),
                decreases gtext.len() - cursor.index as int,
            {
                let p = cursor.peek();
                match p {
                    Some(c) => {
                        if !is_space_char(c) {
                            let ghost i0: int = cursor.index as int;
                            proof {
                                lemma_token_end_bounds(gtext, i0 + 1);
                            }
                            cursor.advance();
                            proof {
                                assert(token_end(gtext, i0) == token_end(gtext, i0 + 1));
                            }
                        } else {
                            break ;
                        }
                    },
                    None => {
                        break ;
                    },
                }
            }
            let ghost e: int = token_end(gtext, s);
            let end_idx: usize = cursor.index;
            let end_loc = cursor.mark();
            proof {
                lemma_pos_at_bounds(gtext, e);
                assert(end_loc@ == loc_at(gorigin, gtext, e));
            }
            let piece: &str = cursor.data.as_str().substring_char(start_idx, end_idx);
            let content: String = piece.to_owned();
            let tok = Token::new(MappedRegion::new(Region::new(start_loc, end_loc), content));
            proof {
                let n = out@.len() as int;
                let tail = scan_from(gtext, e);
                assert(token_matches(tok, gorigin, gtext, (s, e)));
                assert(spans.skip(n) == seq![(s, e)] + tail);
                assert(spans.len() - n == 1 + tail.len());
                assert(spans[n] == (s, e)) by {
                    assert(spans.skip(n)[0] == spans[n]);
                    assert((seq![(s, e)] + tail)[0] == (s, e));
                }
                assert forall|j: int| 0 <= j < tail.len() implies spans[n + 1 + j] == tail[j] by {
                    assert(spans.skip(n)[j + 1] == spans[n + 1 + j]);
                    assert((seq![(s, e)] + tail)[j + 1] == tail[j]);
                }
                assert(spans.skip(n + 1) =~= tail) by {
                    assert forall|j: int| 0 <= j < spans.len() - (n + 1) implies spans.skip(
                        n + 1,
                    )[j] == tail[j] by {
                        assert(spans.skip(n + 1)[j] == spans[n + 1 + j]);
                    }
                }
            }
            out.push_back(tok);
        }
        proof {
            assert(cursor.index as int >= cursor.limit());
            assert(scan_from(gtext, cursor.index as int) =~= Seq::<(int, int)>::empty());
            assert(spans.skip(out@.len() as int).len() == 0);
            assert(out@.len() == spans.len());
            assert(tokens_match(out@, gorigin, gtext));
        }
        let ghost base: int = self.tokens@.len() as int;
        let n_out: usize = out.len();
        let mut i: usize = 0;
        while i < n_out
            invariant
                i <= n_out,
                n_out == out@.len(),
                tokens_match(out@, gorigin, gtext),
                spans == scan_from(gtext, 0),
                forall|k: int|
                    0 <= k < out@.len() ==> #[trigger] token_matches(
                        out@[k],
                        gorigin,
                        gtext,
                        spans[k],
                    ),
                base == old(self).tokens@.len(),
                self.tokens@.len() == base + i,
                forall|k: int| 0 <= k < base ==> self.tokens@[k] == old(self).tokens@[k],
                forall|k: int|
                    0 <= k < i ==> #[trigger] token_matches(
                        self.tokens@[base + k],
                        gorigin,
                        gtext,
                        spans[k],
                    ),
                self.text == old(self).text,
                self.origin == old(self).origin,
                self.scanned,
            decreases n_out - i,
        {
            let t = clone_token(out.get(i));
            proof {
                assert(token_matches(t, gorigin, gtext, spans[i as int]) == token_matches(
                    out@[i as int],
                    gorigin,
                    gtext,
                    spans[i as int],
                ));
            }
            self.tokens.push_back(t);
            i = i + 1;
        }
        proof {
            let after = self.tokens@.skip(base);
            assert(after.len() == out@.len());
            assert forall|k: int| 0 <= k < after.len() implies #[trigger] token_matches(
                after[k],
                gorigin,
                gtext,
                scan_from(gtext, 0)[k],
            ) by {
                assert(after[k] == self.tokens@[base + k]);
            }
            assert(tokens_match(after, gorigin, gtext));
        }
        Ok(out)
    }
}

} // verus!
