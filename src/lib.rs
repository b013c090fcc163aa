//! Composite binary keys for key-value stores.
//!
//! A key is built from a fixed, named schema of byte parts, an optional
//! suffix, any number of named extensions added at run time, and a terminal
//! key supplied by the caller. Keys and sequences can describe themselves as
//! a flat arrow chain or as an indented tree.
use vstd::prelude::*;

pub mod formatting;
pub mod key;
pub mod laws;
pub mod sequence;

pub use formatting::format_struct;
pub use key::{Key, KeyView};
pub use sequence::{KeyPartsSequence, KeySeq, KeySeqView};

verus! {

/// A named, static byte segment of a schema: `(name, bytes)`.
pub type KeyPartItem = (&'static str, &'static [u8]);

/// A named byte segment appended to a sequence at run time: `(name, bytes)`.
pub type KeyExtensionsItem = (&'static str, Vec<u8>);

/// A named segment as a mathematical value: its name and its bytes.
pub type Segment = (Seq<char>, Seq<u8>);

/// A named, immutable byte segment known at construction time.
pub trait KeyPart: Sized {
    fn new() -> Self;

    /// Returns the key part's name.
    fn get_name(&self) -> &'static str;

    /// Returns the key part's bytes.
    fn get_bytes(&self) -> &'static [u8];
}

/// Concatenation of the bytes of `segs`, in order.
pub open spec fn concat_bytes(segs: Seq<Segment>) -> Seq<u8>
    decreases segs.len(),
{
    if segs.len() == 0 {
        seq![]
    } else {
        concat_bytes(segs.drop_last()) + segs.last().1
    }
}

/// Appending a segment appends its bytes.
pub proof fn lemma_concat_push(segs: Seq<Segment>, s: Segment)
    ensures
        concat_bytes(segs.push(s)) == concat_bytes(segs) + s.1,
{
    assert(segs.push(s).drop_last() =~= segs);
}

/// The segments of a schema, as names and bytes.
pub open spec fn part_segments(parts: Seq<KeyPartItem>) -> Seq<Segment> {
    parts.map_values(|p: KeyPartItem| (p.0@, p.1@))
}

/// The segments of a list of extensions, as names and bytes.
pub open spec fn extension_segments(extensions: Seq<KeyExtensionsItem>) -> Seq<Segment> {
    extensions.map_values(|e: KeyExtensionsItem| (e.0@, e.1@))
}

} // verus!
