//! Decoder for the CashTokens token-metadata prefix carried in transaction
//! output scripts, and the coloring engine that groups a transaction's
//! outputs by token category.
//!
//! The codec ([`parse::parse_script`]) turns the leading bytes of a locking
//! script into a typed token descriptor or a typed parse error.  The coloring
//! engine ([`color::color`]) folds the per-output descriptors of one
//! transaction into per-category sections, records one assignment per output,
//! and keeps a log of outputs that failed to parse.

pub mod color;
pub mod compact_size;
pub mod parse;
pub mod tx;

pub use crate::color::color;
pub use crate::color::ColoredTx;
pub use crate::color::ColoredTxSection;
pub use crate::color::FailedParsing;
pub use crate::color::GenesisInfo;
pub use crate::color::TokenMeta;
pub use crate::color::TokenOutput;
pub use crate::color::TokenType;
pub use crate::color::TokenVariant;
pub use crate::color::TxType;
pub use crate::parse::has_any_prefix_token;
pub use crate::parse::parse_script;
pub use crate::parse::CapabilityFlags;
pub use crate::parse::ParseError;
pub use crate::parse::ParsedData;
