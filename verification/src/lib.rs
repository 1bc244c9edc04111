//! Reading and writing of Mach-O headers and load commands.
//!
//! A file starts with a [`header::Header`]: that of one architecture, or the
//! table of a fat file. After the header of one architecture come its
//! [`load_command::LoadCommand`]s, each of them a record that starts with its
//! kind and its size.
//!
//! # Reading and writing
//!
//! Every reader takes the unread input as `&mut &[u8]`. It takes exactly the
//! bytes of what it returns off the front of the input, and leaves the input
//! as it was when it fails. Every writer appends to a `Vec<u8>`.
//!
//! # Byte order
//!
//! The byte order is always a value, an [`io::Endian`]. A magic number is
//! read in the byte order of the host and tells the order of what follows.
//! What depends on the host comes twice: once with the order of the host as
//! an argument, with a contract that holds on either host, and once for the
//! machine at hand, which asks [`io::Endian::native`] and says no more than
//! that it did what one of the two hosts would have done.
//!
//! # Contracts
//!
//! For a kind of record `T`, three functions of the bytes say what reading
//! and writing come to:
//!
//! - `T::parse_error(b, e)`: why `b` does not start with a `T`, or `None`;
//! - `t.parsed_from(b, e)`: whether `t` is the `T` that `b` starts with;
//! - `t.spec_bytes(e)`: the bytes that `t` is written as.
//!
//! The laws that relate them, that what is read is written back as it stood
//! and that what is written is read back as it was, are the proof functions
//! named `lemma_.._decode_then_encode` and `lemma_.._encode_then_decode`.

pub mod bits;
pub mod error;
pub mod header;
pub mod io;
pub mod load_command;
