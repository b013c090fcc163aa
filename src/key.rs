//! Keys: the finished byte buffer, split into prefix, suffix and terminal
//! key.
use vstd::prelude::*;
use vstd::slice::slice_subrange;

use core::cmp::Ordering;

use crate::formatting::{chain_text, struct_items};
use crate::sequence::{KeySeq, KeySeqView};
use crate::concat_bytes;

verus! {

/// Lexicographic order of two byte sequences: the first differing byte
/// decides, and a proper prefix comes first.
pub open spec fn lex_cmp(a: Seq<u8>, b: Seq<u8>) -> Ordering
    decreases a.len(),
{
    if a.len() == 0 {
        if b.len() == 0 {
            Ordering::Equal
        } else {
            Ordering::Less
        }
    } else if b.len() == 0 {
        Ordering::Greater
    } else if a[0] < b[0] {
        Ordering::Less
    } else if a[0] > b[0] {
        Ordering::Greater
    } else {
        lex_cmp(a.skip(1), b.skip(1))
    }
}

/// Compares `a` and `b` byte by byte.
fn compare_bytes(a: &[u8], b: &[u8]) -> (r: Ordering)
    ensures
        r == lex_cmp(a@, b@),
{
    let mut i: usize = 0;
    proof {
        assert(a@.skip(0) =~= a@);
        assert(b@.skip(0) =~= b@);
    }
    while i < a.len() && i < b.len()
        invariant
            i <= a@.len(),
            i <= b@.len(),
            lex_cmp(a@, b@) == lex_cmp(a@.skip(i as int), b@.skip(i as int)),
        decreases a@.len() - i,
    {
        if a[i] < b[i] {
            return Ordering::Less;
        } else if a[i] > b[i] {
            return Ordering::Greater;
        }
        proof {
            assert(a@.skip(i as int).skip(1) =~= a@.skip(i + 1));
            assert(b@.skip(i as int).skip(1) =~= b@.skip(i + 1));
        }
        i = i + 1;
    }
    if i < b.len() {
        Ordering::Less
    } else if i < a.len() {
        Ordering::Greater
    } else {
        Ordering::Equal
    }
}

/// A key as a mathematical value: the sequence that made it, its bytes and
/// the length of its terminal key.
pub struct KeyView {
    pub origin: KeySeqView,
    pub bytes: Seq<u8>,
    pub key_len: nat,
}

impl KeyView {
    /// The bytes are those of the sequence followed by a terminal key of
    /// `key_len` bytes.
    pub open spec fn wf(self) -> bool {
        &&& self.bytes.len() == self.origin.bytes().len() + self.key_len
        &&& self.bytes.take(self.origin.bytes().len() as int) == self.origin.bytes()
    }

    /// The length of the schema's bytes.
    pub open spec fn prefix_len(self) -> int {
        concat_bytes(self.origin.schema).len() as int
    }

    /// The bytes before the suffix and the terminal key. Without a suffix
    /// that is everything before the terminal key: the schema's parts and the
    /// extensions. With one, it is the schema's parts.
    pub open spec fn prefix(self) -> Seq<u8> {
        if self.origin.suffix.len() == 0 {
            self.bytes.take(self.bytes.len() - self.key_len)
        } else {
            self.bytes.take(self.prefix_len())
        }
    }

    /// The suffix, absent where the sequence has none.
    pub open spec fn suffix(self) -> Option<Seq<u8>> {
        if self.origin.suffix.len() == 0 {
            None
        } else {
            Some(self.bytes.subrange(self.prefix_len(), self.prefix_len() + self.origin.suffix.len()))
        }
    }

    /// The terminal key, absent where it is empty.
    pub open spec fn key(self) -> Option<Seq<u8>> {
        if self.key_len == 0 {
            None
        } else {
            Some(self.bytes.skip(self.bytes.len() - self.key_len))
        }
    }

    /// The items that describe the key: those of its sequence, then the
    /// bytes after the sequence's as `Key=`.
    pub open spec fn items(self) -> Seq<Seq<char>> {
        struct_items(
            self.origin.schema,
            self.origin.suffix_item(),
            self.origin.extensions,
            Some(self.bytes.skip(self.origin.bytes().len() as int)),
        )
    }
}

/// A finished key: one byte buffer, and the sequence it was made from.
#[derive(Clone)]
pub struct Key<'a, T> {
    bytes: Vec<u8>,
    key_len: usize,
    seq: &'a KeySeq<T>,
}

impl<'a, T> View for Key<'a, T> {
    type V = KeyView;

    closed spec fn view(&self) -> KeyView {
        KeyView { origin: self.seq@, bytes: self.bytes@, key_len: self.key_len as nat }
    }
}

impl<'a, T> Key<'a, T> {
    /// The key's bytes are those of its sequence followed by its terminal key.
    pub closed spec fn wf(&self) -> bool {
        self.seq.wf() && self@.wf()
    }

    /// A well-formed key's buffer is its sequence's bytes followed by its
    /// terminal key.
    pub proof fn lemma_view_wf(&self)
        requires
            self.wf(),
        ensures
            self@.wf(),
    {
    }

    /// The lengths cached by the sequence are exact: its bytes fit in the
    /// key's buffer.
    proof fn lemma_fits(&self)
        requires
            self.wf(),
        ensures
            self.seq.prefix_len_spec() == concat_bytes(self@.origin.schema).len(),
            self.seq.bytes_len_spec() == self@.origin.bytes().len(),
            concat_bytes(self@.origin.schema).len() + self@.origin.suffix.len()
                <= self@.origin.bytes().len() <= self.bytes@.len() <= usize::MAX,
    {
        assert(self.bytes.len() == self.bytes@.len());
        assert(self@.origin.bytes() =~= concat_bytes(self@.origin.schema) + self@.origin.suffix
            + concat_bytes(self@.origin.extensions));
        self.seq.lemma_capped();
    }

    /// Makes a key from the buffer `bytes`, whose last `key_len` bytes are
    /// the terminal key and which starts with the bytes of `seq`.
    pub fn new(bytes: Vec<u8>, key_len: usize, seq: &'a KeySeq<T>) -> (r: Self)
        requires
            seq.wf(),
            (KeyView { origin: seq@, bytes: bytes@, key_len: key_len as nat }).wf(),
        ensures
            r.wf(),
            r@ == (KeyView { origin: seq@, bytes: bytes@, key_len: key_len as nat }),
    {
        Key { bytes, key_len, seq }
    }

    /// Returns the terminal key, or `None` where it is empty.
    pub fn get_key(&self) -> (r: Option<&[u8]>)
        requires
            self.wf(),
        ensures
            r == None::<&[u8]> <==> self@.key() == None::<Seq<u8>>,
            r matches Some(k) ==> self@.key() == Some(k@),
    {
        if self.key_len == 0 {
            None
        } else {
            let n = self.bytes.len();
            Some(slice_subrange(self.bytes.as_slice(), n - self.key_len, n))
        }
    }

    /// Returns the bytes before the suffix and the terminal key: without a
    /// suffix, the schema's parts and the extensions; with one, the schema's
    /// parts, since the extensions follow the suffix in the buffer.
    pub fn get_prefix(&self) -> (r: &[u8])
        requires
            self.wf(),
        ensures
            r@ == self@.prefix(),
    {
        proof {
            self.lemma_fits();
        }
        let end = if self.seq.suffix_len() == 0 {
            self.bytes.len() - self.key_len
        } else {
            self.seq.prefix_len()
        };
        slice_subrange(self.bytes.as_slice(), 0, end)
    }

    /// Returns the suffix, or `None` where the sequence has none.
    pub fn get_suffix(&self) -> (r: Option<&[u8]>)
        requires
            self.wf(),
        ensures
            r == None::<&[u8]> <==> self@.suffix() == None::<Seq<u8>>,
            r matches Some(s) ==> self@.suffix() == Some(s@),
    {
        proof {
            self.lemma_fits();
        }
        let s = self.seq.suffix_len();
        if s == 0 {
            None
        } else {
            let p = self.seq.prefix_len();
            Some(slice_subrange(self.bytes.as_slice(), p, p + s))
        }
    }

    /// The key's buffer.
    pub closed spec fn bytes_spec(&self) -> Vec<u8> {
        self.bytes
    }

    /// Returns all the key's bytes.
    pub fn as_slice(&self) -> (r: &[u8])
        ensures
            r@ == self@.bytes,
    {
        self.bytes.as_slice()
    }

    /// Moves the key's bytes out.
    pub fn to_vec(self) -> (r: Vec<u8>)
        ensures
            r@ == self@.bytes,
            r == self.bytes_spec(),
    {
        self.bytes
    }

    /// Renders the key: the items of its sequence, then its terminal key as
    /// `Key=`, flat or (`alternate`) as a tree.
    pub fn fmt_debug(&self, alternate: bool) -> (r: String)
        requires
            self.wf(),
        ensures
            r@ == chain_text(self@.items(), alternate),
    {
        proof {
            self.lemma_fits();
        }
        let tail = slice_subrange(self.bytes.as_slice(), self.seq.bytes_len(), self.bytes.len());
        self.seq.render(Some(tail), alternate)
    }
}

/// Keys compare by their bytes alone.
impl<'a, T> PartialEq for Key<'a, T> {
    fn eq(&self, other: &Self) -> (r: bool) {
        let r = self.bytes == other.bytes;
        proof {
            if r {
                assert(self.bytes@ =~= other.bytes@);
            }
        }
        r
    }
}

impl<'a, T> vstd::std_specs::cmp::PartialEqSpecImpl for Key<'a, T> {
    open spec fn obeys_eq_spec() -> bool {
        true
    }

    open spec fn eq_spec(&self, other: &Self) -> bool {
        self@.bytes == other@.bytes
    }
}

/// Keys are ordered by their bytes alone, lexicographically.
impl<'a, T> PartialOrd for Key<'a, T> {
    fn partial_cmp(&self, other: &Self) -> (r: Option<Ordering>) {
        Some(compare_bytes(self.bytes.as_slice(), other.bytes.as_slice()))
    }
}

impl<'a, T> vstd::std_specs::cmp::PartialOrdSpecImpl for Key<'a, T> {
    open spec fn obeys_partial_cmp_spec() -> bool {
        true
    }

    open spec fn partial_cmp_spec(&self, other: &Self) -> Option<Ordering> {
        Some(lex_cmp(self@.bytes, other@.bytes))
    }
}

impl<'a, T> AsRef<[u8]> for Key<'a, T> {
    fn as_ref(&self) -> (r: &[u8])
        ensures
            r@ == self@.bytes,
    {
        self.bytes.as_slice()
    }
}

impl<'a, T> From<Key<'a, T>> for Vec<u8> {
    fn from(k: Key<'a, T>) -> (r: Vec<u8>) {
        k.to_vec()
    }
}

impl<'a, T> vstd::std_specs::convert::FromSpecImpl<Key<'a, T>> for Vec<u8> {
    open spec fn obeys_from_spec() -> bool {
        true
    }

    open spec fn from_spec(k: Key<'a, T>) -> Vec<u8> {
        k.bytes_spec()
    }
}

} // verus!
