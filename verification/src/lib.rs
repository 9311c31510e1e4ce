//! Reading and writing of the field values of dBase (`.dbf`) records,
//! together with the memo (`.dbt` / `.fpt`) blocks that memo fields point to.
//!
//! Every function here works on bytes held in memory: the bytes of a record
//! are read from a [`reader::ByteReader`], and written values are appended to a
//! `Vec<u8>`.

pub mod endian;
pub mod error;
pub mod reader;
pub mod record;
pub mod text;
pub mod writing;

pub use error::{Error, IntErrorKind, IoErrorKind, ParseIntError};
pub use reader::ByteReader;
pub use record::datetime::{Date, DateTime, Time};
pub use record::field::{FieldType, FieldValue};
pub use record::memo::{MemoFileType, MemoHeader, MemoReader};
pub use record::FieldInfo;
pub use writing::{WritableAsDbaseField, WritableDbaseField};
