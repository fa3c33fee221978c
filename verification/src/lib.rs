//! Exhaustive key search for filesystem images hidden behind a reversible
//! byte transform.
//!
//! A buffer is transformed under every key of a bounded keyspace (a repeating
//! four-byte XOR pad, or RC4 with a key of one to four bytes) and each result
//! is scanned for the magic bytes of Squashfs, CramFS and JFFS2.

pub mod scanner;
pub mod transform;
pub mod rc4;
pub mod partition;
pub mod search;
pub mod workers;
