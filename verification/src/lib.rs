//! A positional binary format: what each value writes, what each reader makes
//! of the bytes, and the proof that the two agree.
//!
//! Values are laid out in declaration order without tags or framing; integers
//! are big-endian; sequences carry a 16-bit length; sums carry a discriminant.
//! Writers implement [`Encode`], readers implement [`Decode`], and types whose
//! reader undoes their writer implement [`Codec`].
//!
//! # The layout
//!
//! | Value | Bytes |
//! |---|---|
//! | integer of fixed width | the number, most significant byte first |
//! | `usize`, `isize` | as `u16`, `i16`; a failure where that loses something |
//! | `bool` | one byte, zero or one |
//! | `char` | the scalar value, as `u32` |
//! | text | the count of its UTF-8 bytes as a size, then the bytes |
//! | array | the items in order |
//! | slice, vector, deque, hash map, hash set | the count as a size, then the items in order |
//! | `Option` | a `bool`, then the value if there is one |
//! | `Result` | a `bool`, false for `Ok`, then the value held |
//! | tuple, structure | the fields in order |
//! | enumeration | the discriminant of the variant, then its fields in order |
//! | address | the version, four or six, as `u8`, then the bits |
//! | span of time | the seconds as `u64`, then the nanoseconds as `u32` |
//! | point in time | the whole seconds from the epoch, as `i64` |
//!
//! # The modules
//!
//! The cursors are in [`o_stream`] and [`d_stream`], the two traits in
//! [`encode`] and [`decode`], the law that joins them in [`codec`], with more
//! of what holds in [`laws`]. [`bytes`] has the numbers as bytes, [`tuple`]
//! the tuples and [`hash`] the hash tables. [`error`] has the failures and
//! [`describe`] their wording, with numbers in words from [`text`].
//! [`enumeration`] and [`field`] are what derived implementations run on,
//! [`derive`] writes those implementations out, and [`repr`] and
//! [`discriminant`] settle the integer kind and the values of the variants.
//! [`bound`], [`net`] and [`time`] model types whose contents the standard
//! library keeps to itself.

pub mod bound;
pub mod bytes;
pub mod codec;
pub mod d_stream;
pub mod decode;
pub mod derive;
pub mod describe;
pub mod discriminant;
pub mod encode;
pub mod enumeration;
pub mod error;
pub mod field;
pub mod hash;
pub mod laws;
pub mod net;
pub mod o_stream;
pub mod repr;
pub mod text;
pub mod time;
pub mod tuple;

pub use crate::codec::Codec;
pub use crate::d_stream::DStream;
pub use crate::decode::Decode;
pub use crate::derive::{decode_enum, decode_struct, encode_enum, encode_struct};
pub use crate::encode::Encode;
pub use crate::error::Error;
pub use crate::o_stream::OStream;
pub use crate::repr::Repr;
