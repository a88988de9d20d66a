//! Small text utilities: splitting text into lines or characters, substring
//! replacement, a duplicate-detecting set and a multi-value accumulator map,
//! together with the error type used by callers that do file I/O.

pub mod dup;
pub mod errors;
pub mod replace;
pub mod split;
mod strcmp;
pub mod store;

pub use dup::DupMap;
pub use dup::create_duplicate_map;
pub use dup::is_dup;
pub use errors::FileError;
pub use replace::sub;
pub use split::read_file_into_char_vec;
pub use split::read_file_into_line_vec;
pub use store::StoreMap;
pub use store::create_store_map;
pub use store::store_into_map;
