//! Parsing of Clausewitz-engine script files: text into a value tree, the value tree
//! into typed game records, and whole sets of files into catalogs of both.
use vstd::prelude::*;

pub mod aggregate;
pub mod coerce;
pub mod country;
pub mod decimal;
pub mod event;
pub mod focustree;
pub mod lexer;
pub mod parser;
pub mod projection;
pub mod table;
pub mod text;
pub mod value;
pub mod words;

pub use aggregate::{
    parse_countries, parse_events, parse_focustrees, parse_game, parse_hoi4, parse_stellaris,
    parse_variables, Catalog, Failure, Hoi4, SourceFile, Stellaris,
};
pub use country::{Country, CountryLeader, Equipment, Politics, Popularities};
pub use decimal::Decimal;
pub use event::{Event, NewsEvent, NewsEventOption};
pub use focustree::{Focus, FocusTree, FocusTreeBase};
pub use lexer::Expected;
pub use parser::{parse_config_file, ParseError};
pub use table::Table;
pub use value::{ConfigPair, ConfigValue};

verus! {

} // verus!
