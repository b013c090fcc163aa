//! Key sequences: a fixed schema of parts, an optional suffix and the
//! extensions appended at run time.
use vstd::prelude::*;
use vstd::slice::slice_to_vec;

use core::marker::PhantomData;

use crate::formatting::{chain_text, format_struct, optional_bytes, struct_items};
use crate::key::{Key, KeyView};
use crate::{concat_bytes, lemma_concat_push, extension_segments, part_segments, KeyExtensionsItem, KeyPartItem, Segment};

verus! {

/// Declares a schema: the ordered parts that every sequence of this type
/// starts with.
pub trait KeyPartsSequence: Sized {
    /// The parts of the schema, in order.
    const PARTS: &'static [KeyPartItem];

    /// Returns the parts of the schema, in order, as an owned list. It is
    /// provided from `PARTS`; an impl has no need to write it.
    fn get_struct() -> (r: Vec<KeyPartItem>)
        ensures
            r@ == Self::PARTS@,
    {
        slice_to_vec(Self::PARTS)
    }
}

/// `n`, or `usize::MAX` where `n` does not fit in a `usize`.
pub open spec fn capped(n: int) -> int {
    if n <= usize::MAX { n } else { usize::MAX as int }
}

/// A key sequence as a mathematical value.
#[verifier::ext_equal]
pub struct KeySeqView {
    /// The parts of the schema, in declared order.
    pub schema: Seq<Segment>,
    /// The suffix; empty where the sequence has none.
    pub suffix: Seq<u8>,
    /// The extensions, in the order they were appended.
    pub extensions: Seq<Segment>,
}

impl KeySeqView {
    /// A sequence with the given schema and suffix and no extensions.
    pub open spec fn fresh(schema: Seq<Segment>, suffix: Seq<u8>) -> KeySeqView {
        KeySeqView { schema, suffix, extensions: seq![] }
    }

    /// The bytes that precede the terminal key in every key of the sequence:
    /// the schema's parts, the suffix, the extensions.
    pub open spec fn bytes(self) -> Seq<u8> {
        concat_bytes(self.schema) + self.suffix + concat_bytes(self.extensions)
    }

    /// The sequence with one more extension at its end.
    pub open spec fn extend(self, name: Seq<char>, b: Seq<u8>) -> KeySeqView {
        KeySeqView { extensions: self.extensions.push((name, b)), ..self }
    }

    /// The suffix, absent where it is empty.
    pub open spec fn suffix_item(self) -> Option<Seq<u8>> {
        if self.suffix.len() == 0 {
            None
        } else {
            Some(self.suffix)
        }
    }

    /// The items that describe the sequence itself.
    pub open spec fn items(self) -> Seq<Seq<char>> {
        struct_items(self.schema, self.suffix_item(), self.extensions, None)
    }

    /// The key that the sequence makes from the terminal key `key`.
    pub open spec fn make_key(self, key: Seq<u8>) -> KeyView {
        KeyView { origin: self, bytes: self.bytes() + key, key_len: key.len() }
    }
}

/// An ordered composition of named byte segments that mints keys. `T`
/// declares the schema.
#[derive(Clone)]
pub struct KeySeq<T> {
    parts: Vec<KeyPartItem>,
    suffix: Vec<u8>,
    extensions: Vec<KeyExtensionsItem>,
    parts_len: usize,
    len: usize,
    schema: PhantomData<T>,
}

/// Relies on `PhantomData::clone`, which the derived `Clone` of `KeySeq`
/// calls; nothing is claimed of its result, which holds no data.
pub assume_specification<T: core::marker::PointeeSized>[ <PhantomData<T> as Clone>::clone ](
    _0: &PhantomData<T>,
) -> PhantomData<T>;

impl<T> View for KeySeq<T> {
    type V = KeySeqView;

    closed spec fn view(&self) -> KeySeqView {
        KeySeqView {
            schema: part_segments(self.parts@),
            suffix: self.suffix@,
            extensions: extension_segments(self.extensions@),
        }
    }
}

proof fn lemma_concat_parts_step(parts: Seq<KeyPartItem>, i: int)
    requires
        0 <= i < parts.len(),
    ensures
        concat_bytes(part_segments(parts.take(i + 1))) == concat_bytes(part_segments(parts.take(i)))
            + parts[i].1@,
{
    assert(part_segments(parts.take(i + 1)).drop_last() =~= part_segments(parts.take(i)));
}

proof fn lemma_concat_extensions_step(extensions: Seq<KeyExtensionsItem>, i: int)
    requires
        0 <= i < extensions.len(),
    ensures
        concat_bytes(extension_segments(extensions.take(i + 1))) == concat_bytes(
            extension_segments(extensions.take(i)),
        ) + extensions[i].1@,
{
    assert(extension_segments(extensions.take(i + 1)).drop_last() =~= extension_segments(
        extensions.take(i),
    ));
}

/// Appends the bytes of `b` to `out`.
fn append_bytes(out: &mut Vec<u8>, b: &[u8])
    ensures
        final(out)@ == old(out)@ + b@,
{
    let ghost start = out@;
    let mut i: usize = 0;
    while i < b.len()
        invariant
            i <= b@.len(),
            out@ == start + b@.take(i as int),
        decreases b@.len() - i,
    {
        out.push(b[i]);
        proof {
            assert(b@.take(i + 1) =~= b@.take(i as int).push(b@[i as int]));
        }
        i = i + 1;
    }
    proof {
        assert(b@.take(i as int) =~= b@);
    }
}

impl<T> KeySeq<T> {
    /// The cached lengths agree with the segments.
    pub closed spec fn wf(&self) -> bool {
        &&& self.parts_len == capped(concat_bytes(self@.schema).len() as int)
        &&& self.len == capped(self@.bytes().len() as int)
    }

    /// Builds a sequence over the schema `parts` with the suffix `suffix` and
    /// no extensions.
    pub fn from_parts(parts: Vec<KeyPartItem>, suffix: &[u8]) -> (r: Self)
        ensures
            r.wf(),
            r@ == KeySeqView::fresh(part_segments(parts@), suffix@),
    {
        let mut parts_len: usize = 0;
        let mut i: usize = 0;
        while i < parts.len()
            invariant
                i <= parts@.len(),
                parts_len == capped(concat_bytes(part_segments(parts@.take(i as int))).len() as int),
            decreases parts@.len() - i,
        {
            parts_len = parts_len.saturating_add(parts[i].1.len());
            proof {
                lemma_concat_parts_step(parts@, i as int);
            }
            i = i + 1;
        }
        proof {
            assert(parts@.take(i as int) =~= parts@);
        }
        let r = KeySeq {
            parts,
            suffix: slice_to_vec(suffix),
            extensions: Vec::new(),
            parts_len,
            len: parts_len.saturating_add(suffix.len()),
            schema: PhantomData,
        };
        proof {
            assert(r@ =~= KeySeqView::fresh(part_segments(r.parts@), suffix@));
            assert(r@.bytes() =~= concat_bytes(r@.schema) + suffix@);
        }
        r
    }

    /// Appends the extension `name` with the bytes `bytes` after the schema,
    /// the suffix and the earlier extensions.
    pub fn extend(self, name: &'static str, bytes: &[u8]) -> (r: Self)
        requires
            self.wf(),
        ensures
            r.wf(),
            r@ == self@.extend(name@, bytes@),
    {
        let mut s = self;
        let ghost old_view = s@;
        s.extensions.push((name, slice_to_vec(bytes)));
        s.len = s.len.saturating_add(bytes.len());
        proof {
            assert(s@ =~= old_view.extend(name@, bytes@));
            lemma_concat_push(old_view.extensions, (name@, bytes@));
            assert(s@.bytes() =~= old_view.bytes() + bytes@);
        }
        s
    }

    /// Concatenates the schema's parts, the suffix, the extensions and the
    /// terminal key `key` into a new key.
    pub fn create_key(&self, key: &[u8]) -> (r: Key<'_, T>)
        requires
            self.wf(),
        ensures
            r.wf(),
            r@ == self@.make_key(key@),
    {
        let mut out: Vec<u8> = Vec::with_capacity(self.len.saturating_add(key.len()));
        let mut i: usize = 0;
        while i < self.parts.len()
            invariant
                i <= self.parts@.len(),
                out@ == concat_bytes(part_segments(self.parts@.take(i as int))),
            decreases self.parts@.len() - i,
        {
            append_bytes(&mut out, self.parts[i].1);
            proof {
                lemma_concat_parts_step(self.parts@, i as int);
            }
            i = i + 1;
        }
        proof {
            assert(self.parts@.take(i as int) =~= self.parts@);
        }
        append_bytes(&mut out, self.suffix.as_slice());
        let ghost head = out@;
        let mut j: usize = 0;
        while j < self.extensions.len()
            invariant
                j <= self.extensions@.len(),
                out@ == head + concat_bytes(extension_segments(self.extensions@.take(j as int))),
            decreases self.extensions@.len() - j,
        {
            append_bytes(&mut out, self.extensions[j].1.as_slice());
            proof {
                lemma_concat_extensions_step(self.extensions@, j as int);
            }
            j = j + 1;
        }
        proof {
            assert(self.extensions@.take(j as int) =~= self.extensions@);
            assert(out@ =~= self@.bytes());
        }
        append_bytes(&mut out, key);
        proof {
            assert(out@.take(self@.bytes().len() as int) =~= self@.bytes());
        }
        Key::new(out, key.len(), self)
    }

    /// Returns a copy of the sequence, which can be extended on its own.
    pub fn duplicate(&self) -> (r: Self)
        requires
            self.wf(),
        ensures
            r.wf(),
            r@ == self@,
    {
        let mut extensions: Vec<KeyExtensionsItem> = Vec::new();
        let mut j: usize = 0;
        while j < self.extensions.len()
            invariant
                j <= self.extensions@.len(),
                extensions@.len() == j,
                forall|k: int|
                    0 <= k < j ==> #[trigger] extensions@[k].0 == self.extensions@[k].0
                        && extensions@[k].1@ == self.extensions@[k].1@,
            decreases self.extensions@.len() - j,
        {
            let name = self.extensions[j].0;
            extensions.push((name, slice_to_vec(self.extensions[j].1.as_slice())));
            j = j + 1;
        }
        proof {
            assert(extension_segments(extensions@) =~= extension_segments(self.extensions@));
        }
        let r = KeySeq {
            parts: slice_to_vec(self.parts.as_slice()),
            suffix: slice_to_vec(self.suffix.as_slice()),
            extensions,
            parts_len: self.parts_len,
            len: self.len,
            schema: PhantomData,
        };
        proof {
            assert(r@ =~= self@);
        }
        r
    }

    /// The key with an empty terminal key: the sequence's own bytes.
    pub fn create_prefix(&self) -> (r: Key<'_, T>)
        requires
            self.wf(),
        ensures
            r.wf(),
            r@ == self@.make_key(seq![]),
    {
        let empty: [u8; 0] = [];
        self.create_key(&empty)
    }

    /// Returns the sequence's bytes: the parts, the suffix, the extensions.
    pub fn to_vec(&self) -> (r: Vec<u8>)
        requires
            self.wf(),
        ensures
            r@ == self@.bytes(),
    {
        let r = self.create_prefix().to_vec();
        proof {
            assert(self@.bytes() + seq![] =~= self@.bytes());
        }
        r
    }

    /// Returns the parts of the schema.
    pub fn get_parts(&self) -> (r: &[KeyPartItem])
        ensures
            part_segments(r@) == self@.schema,
    {
        self.parts.as_slice()
    }

    /// Returns the suffix, or `None` where the sequence has none.
    pub fn get_suffix(&self) -> (r: Option<&[u8]>)
        ensures
            r == None::<&[u8]> <==> self@.suffix_item() == None::<Seq<u8>>,
            r matches Some(b) ==> self@.suffix_item() == Some(b@),
    {
        if self.suffix.len() == 0 {
            None
        } else {
            Some(self.suffix.as_slice())
        }
    }

    /// Returns the extensions, in the order they were appended.
    pub fn get_extensions(&self) -> (r: &[KeyExtensionsItem])
        ensures
            extension_segments(r@) == self@.extensions,
    {
        self.extensions.as_slice()
    }

    /// The cached length of the schema's bytes.
    pub(crate) closed spec fn prefix_len_spec(&self) -> int {
        self.parts_len as int
    }

    /// The cached length of the sequence's bytes.
    pub(crate) closed spec fn bytes_len_spec(&self) -> int {
        self.len as int
    }

    /// Where the sequence's bytes fit in a `usize`, the cached lengths are
    /// exact.
    pub(crate) proof fn lemma_capped(&self)
        requires
            self.wf(),
            self@.bytes().len() <= usize::MAX,
        ensures
            self.prefix_len_spec() == concat_bytes(self@.schema).len(),
            self.bytes_len_spec() == self@.bytes().len(),
    {
    }

    pub(crate) fn prefix_len(&self) -> (r: usize)
        ensures
            r == self.prefix_len_spec(),
    {
        self.parts_len
    }

    pub(crate) fn bytes_len(&self) -> (r: usize)
        ensures
            r == self.bytes_len_spec(),
    {
        self.len
    }

    pub(crate) fn suffix_len(&self) -> (r: usize)
        ensures
            r == self@.suffix.len(),
    {
        self.suffix.len()
    }

    /// Renders the items of the sequence, followed by `key` as `Key=` where
    /// it is present.
    pub(crate) fn render(&self, key: Option<&[u8]>, alternate: bool) -> (r: String)
        ensures
            r@ == chain_text(
                struct_items(self@.schema, self@.suffix_item(), self@.extensions, optional_bytes(key)),
                alternate,
            ),
    {
        format_struct(self.parts.as_slice(), self.get_suffix(), self.extensions.as_slice(), key, alternate)
    }

    /// Renders the sequence: its parts, suffix and extensions as one chain,
    /// flat or (`alternate`) as a tree.
    pub fn fmt_debug(&self, alternate: bool) -> (r: String)
        ensures
            r@ == chain_text(self@.items(), alternate),
    {
        self.render(None, alternate)
    }
}

impl<T: KeyPartsSequence> KeySeq<T> {
    /// Builds a sequence over the parts that `T` declares, with no suffix
    /// and no extensions.
    pub fn new() -> (r: Self)
        ensures
            r.wf(),
            r@ == KeySeqView::fresh(part_segments(T::PARTS@), seq![]),
    {
        Self::from_parts(slice_to_vec(T::PARTS), &[])
    }

    /// Builds a sequence over the parts that `T` declares, with the suffix
    /// `suffix` and no extensions.
    pub fn with_suffix(suffix: &[u8]) -> (r: Self)
        ensures
            r.wf(),
            r@ == KeySeqView::fresh(part_segments(T::PARTS@), suffix@),
    {
        Self::from_parts(slice_to_vec(T::PARTS), suffix)
    }
}

} // verus!
