//! Turns inventory text pasted from a game client into items: a name and
//! a quantity for each line, whatever the notation the line came in.

pub mod batch;
pub mod chars;
pub mod error;
pub mod grammar;
pub mod ids;
pub mod item;
pub mod laws;
pub mod lexer;
pub mod number;
pub mod parser;
pub mod table;
pub mod token;

pub use batch::{parse, parse_line, parse_lines, report, LineError, LineFault};
pub use error::{Fault, LexError, ParseError};
pub use ids::{attach_ids, parse_with_id};
pub use item::{format_x, Item, ItemWithId};
pub use lexer::{lex, Scanner};
pub use parser::Parser;
pub use table::{lookup_id, lookup_type_name, TypeRow, TypeTable};
pub use token::{
    comma, eof, number, space, squarebracketleft, squarebracketright, string, tab, x, Token,
    TokenKind,
};
