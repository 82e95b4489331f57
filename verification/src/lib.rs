//! Lexical front-end: converts raw source text into a stream of located
//! tokens, preserving exact line/column provenance for every span so that
//! downstream consumers can report precise diagnostics.

pub mod cursor;
pub mod lexer;
pub mod err;
pub mod loc;
pub mod token;

pub use cursor::Cursor;
pub use lexer::Lexer;
pub use lexer::LEXER_BLOCK_SIZE;
pub use err::Error;
pub use err::ErrorKind;
pub use loc::SourceLoc;
pub use loc::LocView;
pub use loc::Region;
pub use token::MappedRegion;
pub use token::Token;
pub use token::Tokens;
