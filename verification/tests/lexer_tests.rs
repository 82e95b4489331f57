use lexloc::Cursor;
use lexloc::Error;
use lexloc::ErrorKind;
use lexloc::Lexer;
use lexloc::MappedRegion;
use lexloc::Region;
use lexloc::SourceLoc;
use lexloc::Token;
use lexloc::Tokens;

#[test]
fn test() {
    let lex = Lexer::new();
    let _ = lex;
}

#[test]
fn empty_input_yields_no_tokens() {
    let lex = match Lexer::from_bytes(Vec::new(), None) {
        Ok(l) => l,
        Err(_) => panic!("empty input must not fail"),
    };
    assert_eq!(lex.tokens().len(), 0);
}

#[test]
fn scan_anchors_lines() {
    let lex = Lexer::from_text("ab\ncd", None);
    let toks = lex.tokens();
    assert_eq!(toks.len(), 2);
    let t0 = toks.get(0);
    assert_eq!(t0.region.content.as_str(), "ab");
    assert_eq!(t0.region.region.start.line(), Some(1));
    assert_eq!(t0.region.region.start.column(), Some(1));
    let t1 = toks.get(1);
    assert_eq!(t1.region.content.as_str(), "cd");
    assert_eq!(t1.region.region.start.line(), Some(2));
    assert_eq!(t1.region.region.start.column(), Some(1));
}

#[test]
fn token_content_matches_buffer() {
    let lex = Lexer::from_text("alpha  beta\n gamma", Some("mem".to_string()));
    let toks = lex.tokens();
    assert_eq!(toks.len(), 3);
    assert_eq!(toks.get(0).region.content.as_str(), "alpha");
    assert_eq!(toks.get(1).region.content.as_str(), "beta");
    assert_eq!(toks.get(2).region.content.as_str(), "gamma");
    assert_eq!(toks.get(1).region.region.start.column(), Some(8));
    assert_eq!(toks.get(1).region.region.end.column(), Some(12));
    assert_eq!(toks.get(2).region.region.start.line(), Some(2));
    assert_eq!(toks.get(2).region.region.start.column(), Some(2));
    assert_eq!(toks.get(0).region.region.start.path().clone(), Some("mem".to_string()));
}

#[test]
fn columns_increase_on_single_line() {
    let lex = Lexer::from_text("a bb ccc", None);
    let toks = lex.tokens();
    assert_eq!(toks.len(), 3);
    let mut last = 0usize;
    for i in 0..toks.len() {
        let t = toks.get(i);
        assert_eq!(t.region.region.start.line(), Some(1));
        let col = match t.region.region.start.column() {
            Some(c) => c,
            None => panic!("token start must carry a column"),
        };
        assert!(col > last);
        last = col;
    }
}

#[test]
fn line_is_terminator_count_plus_one() {
    let lex = Lexer::from_text("a\nb\nc\nd", None);
    let toks = lex.tokens();
    assert_eq!(toks.len(), 4);
    for i in 0..4 {
        assert_eq!(toks.get(i).region.region.start.line(), Some(i + 1));
        assert_eq!(toks.get(i).region.region.start.column(), Some(1));
    }
}

#[test]
fn split_scan_locations_shift() {
    // lexing the halves of "ab\ncd ef" split after the newline and shifting
    // the second half's stamps by the first half's ending location (line 2,
    // column 1) reproduces the stamps of lexing the whole buffer
    let whole = Lexer::from_text("ab\ncd ef", None);
    let second = Lexer::from_text("cd ef", None);
    let wt = whole.tokens();
    let st = second.tokens();
    assert_eq!(wt.len(), 3);
    assert_eq!(st.len(), 2);
    let base_line = 2usize;
    let base_col = 1usize;
    for i in 0..2 {
        let half = st.get(i).region.region.start();
        let whole_loc = wt.get(i + 1).region.region.start();
        let (hl, hc) = match (half.line(), half.column()) {
            (Some(l), Some(c)) => (l, c),
            _ => panic!("token start must carry line and column"),
        };
        let sh = if hl == 1 {
            (base_line, base_col + hc - 1)
        } else {
            (base_line + hl - 1, hc)
        };
        assert_eq!(Some(sh.0), whole_loc.line());
        assert_eq!(Some(sh.1), whole_loc.column());
    }
}

#[test]
fn analyse_is_not_reentrant() {
    let mut lex = Lexer::from_text("one two", None);
    assert_eq!(lex.tokens().len(), 2);
    let again = match lex.analyse() {
        Ok(t) => t,
        Err(_) => panic!("analyse must not fail"),
    };
    assert_eq!(again.len(), 0);
    assert_eq!(lex.tokens().len(), 2);
}

struct FailingReader;

impl std::io::Read for FailingReader {
    fn read(&mut self, _buf: &mut [u8]) -> std::io::Result<usize> {
        Err(std::io::Error::other("synthetic failure"))
    }
}

#[test]
fn read_failure_is_io_error() {
    let err = match Lexer::from_reader(FailingReader, None) {
        Ok(_) => panic!("a failing source must not yield a lexer"),
        Err(e) => e,
    };
    assert_eq!(err.kind(), ErrorKind::IO);
    assert!(err.location().path().is_none());
    assert!(err.location().line().is_none());
    assert!(err.location().column().is_none());
}

#[test]
fn invalid_bytes_are_encoding_error() {
    let err = match Lexer::from_bytes(vec![0x61, 0xff, 0x62], None) {
        Ok(_) => panic!("invalid text must not yield a lexer"),
        Err(e) => e,
    };
    assert_eq!(err.kind(), ErrorKind::Encoding);
    assert!(err.location().line().is_none());
}

#[test]
fn invalid_bytes_from_reader() {
    let bytes: Vec<u8> = vec![0xc3];
    let err = match Lexer::from_reader(&bytes[..], None) {
        Ok(_) => panic!("a truncated sequence must not yield a lexer"),
        Err(e) => e,
    };
    assert_eq!(err.kind(), ErrorKind::Encoding);
}

#[test]
fn reader_ingests_blocks() {
    let mut data = String::new();
    for _ in 0..300 {
        data.push_str("word ");
    }
    let lex = match Lexer::from_reader(data.as_bytes(), Some("stream".to_string())) {
        Ok(l) => l,
        Err(_) => panic!("a well-formed source must not fail"),
    };
    assert_eq!(lex.tokens().len(), 300);
    assert_eq!(
        lex.tokens().get(0).region.region.start.path().clone(),
        Some("stream".to_string())
    );
}

#[test]
fn block_boundary_input() {
    let data = vec![b'a'; 255];
    let lex = match Lexer::from_reader(&data[..], None) {
        Ok(l) => l,
        Err(_) => panic!("a well-formed source must not fail"),
    };
    assert_eq!(lex.tokens().len(), 1);
    assert_eq!(lex.tokens().get(0).region.content.len(), 255);
}

#[test]
fn multibyte_chars_advance_one_column() {
    let lex = match Lexer::from_bytes("héllo wörld".as_bytes().to_vec(), None) {
        Ok(l) => l,
        Err(_) => panic!("valid text must not fail"),
    };
    let toks = lex.tokens();
    assert_eq!(toks.len(), 2);
    assert_eq!(toks.get(0).region.content.as_str(), "héllo");
    assert_eq!(toks.get(1).region.content.as_str(), "wörld");
    assert_eq!(toks.get(1).region.region.start.column(), Some(7));
}

#[test]
fn cursor_steps_and_marks() {
    let mut c = Cursor::new("hé\nz".to_string(), Some("f".to_string()), None);
    assert_eq!(c.peek(), Some('h'));
    assert_eq!(c.peek_at(1), Some('é'));
    assert_eq!(c.advance(), Some('h'));
    assert_eq!(c.advance(), Some('é'));
    let m = c.mark();
    assert_eq!(m.line(), Some(1));
    assert_eq!(m.column(), Some(3));
    assert_eq!(c.advance(), Some('\n'));
    assert_eq!(c.mark().line(), Some(2));
    assert_eq!(c.mark().column(), Some(1));
    assert_eq!(c.advance(), Some('z'));
    assert_eq!(c.advance(), None);
    assert_eq!(c.peek(), None);
}

#[test]
fn cursor_respects_bound() {
    let mut c = Cursor::new("abcdef".to_string(), None, Some(3));
    assert_eq!(c.peek_at(2), Some('c'));
    assert_eq!(c.peek_at(3), None);
    assert_eq!(c.advance(), Some('a'));
    assert_eq!(c.advance(), Some('b'));
    assert_eq!(c.advance(), Some('c'));
    assert_eq!(c.advance(), None);
    assert_eq!(c.peek(), None);
}

fn word_token(s: &str) -> Token {
    Token::new(MappedRegion::new(
        Region::new(SourceLoc::empty(), SourceLoc::empty()),
        s.to_string(),
    ))
}

#[test]
fn tokens_double_ended() {
    let mut q = Tokens::new();
    assert!(q.is_empty());
    q.push_back(word_token("a"));
    q.push_back(word_token("b"));
    q.push_front(word_token("c"));
    assert_eq!(q.len(), 3);
    assert_eq!(q.get(0).region.content.as_str(), "c");
    let front = q.pop_front();
    assert_eq!(front.map(|t| t.region.content), Some("c".to_string()));
    let back = q.pop_back();
    assert_eq!(back.map(|t| t.region.content), Some("b".to_string()));
    assert_eq!(q.len(), 1);
    assert_eq!(q.pop_front().map(|t| t.region.content), Some("a".to_string()));
    assert_eq!(q.pop_front().map(|t| t.region.content), None);
    assert_eq!(q.pop_back().map(|t| t.region.content), None);
}

#[test]
fn location_renders() {
    assert_eq!(SourceLoc::new("file.txt", 3, 14).render().as_str(), "file.txt:3:14");
    assert_eq!(SourceLoc::new("n", 10, 205).render().as_str(), "n:10:205");
    assert_eq!(SourceLoc::empty().render().as_str(), "");
    let mut l = SourceLoc::new("f", 2, 5);
    l.column_mut(None);
    assert_eq!(l.render().as_str(), "f:2");
    let mut m = SourceLoc::new("f", 2, 5);
    m.line_mut(None);
    assert_eq!(m.render().as_str(), "f:1:5");
    let mut q = SourceLoc::new("x", 7, 9);
    q.path_mut(None);
    assert_eq!(q.render().as_str(), ":7:9");
}

#[test]
fn error_builder_and_render() {
    let base = Error::default();
    assert_eq!(base.kind(), ErrorKind::Unknown);
    assert!(base.message().is_none());
    assert!(base.cause().is_none());
    assert!(base.location().line().is_none());
    let e = base
        .with_kind(ErrorKind::IO)
        .with_message("went wrong")
        .with_location(SourceLoc::new("f", 1, 2));
    assert_eq!(e.kind(), ErrorKind::IO);
    assert_eq!(e.kind_str(), "I/O");
    assert_eq!(e.message().clone(), Some("went wrong".to_string()));
    assert_eq!(e.location().line(), Some(1));
    assert_eq!(e.render().as_str(), "I/O: went wrong");
    assert_eq!(e.location_str().as_str(), "f:1:2");
    let chained = Error::default().with_kind(ErrorKind::Encoding).with_cause(e);
    assert_eq!(chained.render().as_str(), "Encoding\nCaused By: I/O: went wrong");
    let plain = Error::new(ErrorKind::Unknown, None, None, SourceLoc::empty());
    assert_eq!(plain.render().as_str(), "Unknown");
    assert_eq!(plain.kind_str(), "Unknown");
    assert_eq!(Error::default().with_kind(ErrorKind::Encoding).kind_str(), "Encoding");
}

#[test]
fn mapped_region_accessors() {
    let mut mr = MappedRegion::new(
        Region::new(SourceLoc::new("f", 1, 1), SourceLoc::new("f", 1, 3)),
        "ab".to_string(),
    );
    assert_eq!(mr.content().as_str(), "ab");
    assert_eq!(mr.region().start().column(), Some(1));
    assert_eq!(mr.region().end().column(), Some(3));
    mr.content_mut("xy".to_string());
    assert_eq!(mr.content().as_str(), "xy");
    mr.region_mut(Region::new(SourceLoc::empty(), SourceLoc::empty()));
    assert!(mr.region().start().line().is_none());
}
