//! Laws that relate the operations of sequences and keys.
use vstd::prelude::*;

use crate::{concat_bytes, lemma_concat_push};
use crate::formatting::{chain_text, item_text, lemma_chain_step, separator_text};
use crate::sequence::KeySeqView;

verus! {

/// A key's buffer holds the schema's parts in order, the suffix, the
/// extensions in order and the terminal key; so without a suffix it is the
/// parts, the extensions and the terminal key.
pub proof fn law_key_bytes(s: KeySeqView, key: Seq<u8>)
    ensures
        s.make_key(key).bytes == concat_bytes(s.schema) + s.suffix + concat_bytes(s.extensions) + key,
        s.suffix.len() == 0 ==> s.make_key(key).bytes == concat_bytes(s.schema) + concat_bytes(
            s.extensions,
        ) + key,
{
    if s.suffix.len() == 0 {
        assert(concat_bytes(s.schema) + s.suffix =~= concat_bytes(s.schema));
    }
}

/// A key splits back into what made it: its prefix is the schema's bytes,
/// followed by the extensions' where there is no suffix; its suffix is the sequence's suffix (absent exactly when that is empty),
/// its terminal key is the caller's key (absent exactly when that is empty).
/// Without extensions its buffer is the parts, the suffix and the key.
pub proof fn law_key_slices(s: KeySeqView, key: Seq<u8>)
    ensures
        s.make_key(key).wf(),
        s.make_key(key).prefix() == concat_bytes(s.schema) + (if s.suffix.len() == 0 {
            concat_bytes(s.extensions)
        } else {
            Seq::<u8>::empty()
        }),
        s.make_key(key).suffix() == s.suffix_item(),
        s.make_key(key).key() == (if key.len() == 0 { None::<Seq<u8>> } else { Some(key) }),
        s.extensions.len() == 0 ==> s.make_key(key).bytes == concat_bytes(s.schema) + s.suffix + key,
{
    let k = s.make_key(key);
    let p = concat_bytes(s.schema);
    assert(k.bytes =~= p + s.suffix + concat_bytes(s.extensions) + key);
    assert(k.bytes.take(s.bytes().len() as int) =~= s.bytes());
    if s.suffix.len() == 0 {
        assert(k.bytes.take(k.bytes.len() - key.len()) =~= p + concat_bytes(s.extensions));
        assert(k.prefix() =~= p + concat_bytes(s.extensions));
    } else {
        assert(k.prefix() =~= p + Seq::<u8>::empty());
    }
    if s.suffix.len() > 0 {
        assert(k.bytes.subrange(p.len() as int, p.len() + s.suffix.len() as int) =~= s.suffix);
    }
    if key.len() > 0 {
        assert(k.bytes.skip(k.bytes.len() - key.len()) =~= key);
    }
    if s.extensions.len() == 0 {
        assert(concat_bytes(s.extensions) =~= seq![]);
        assert(k.bytes =~= p + s.suffix + key);
    }
}

/// Without a suffix, extending a sequence grows its keys' prefix by the
/// extension's bytes and leaves their terminal key as it was.
pub proof fn law_extend_grows_prefix(s: KeySeqView, name: Seq<char>, b: Seq<u8>, key: Seq<u8>)
    requires
        s.suffix.len() == 0,
    ensures
        s.extend(name, b).make_key(key).prefix() == s.make_key(key).prefix() + b,
        s.extend(name, b).make_key(key).key() == s.make_key(key).key(),
{
    law_key_slices(s, key);
    law_key_slices(s.extend(name, b), key);
    lemma_concat_push(s.extensions, (name, b));
    assert(concat_bytes(s.schema) + concat_bytes(s.extensions.push((name, b))) =~= concat_bytes(
        s.schema,
    ) + concat_bytes(s.extensions) + b);
}

/// Two extensions in a row: the key's buffer is the sequence's bytes, the
/// first extension's, the second's and the terminal key; the sequence's
/// items gain the two extensions in order, and the tree form shows them on
/// two new lines, each indented one step further.
pub proof fn law_extend_twice(
    s: KeySeqView,
    n1: Seq<char>,
    b1: Seq<u8>,
    n2: Seq<char>,
    b2: Seq<u8>,
    key: Seq<u8>,
)
    ensures
        s.extend(n1, b1).extend(n2, b2).make_key(key).bytes == s.bytes() + b1 + b2 + key,
        s.extend(n1, b1).extend(n2, b2).items() == s.items().push(item_text(n1, b1)).push(
            item_text(n2, b2),
        ),
        chain_text(s.extend(n1, b1).extend(n2, b2).items(), true) == chain_text(s.items(), true)
            + separator_text(s.items().len(), true) + item_text(n1, b1) + separator_text(
            s.items().len() + 1,
            true,
        ) + item_text(n2, b2),
{
    let e = s.extend(n1, b1).extend(n2, b2);
    lemma_concat_push(s.extensions, (n1, b1));
    lemma_concat_push(s.extensions.push((n1, b1)), (n2, b2));
    assert(e.bytes() =~= s.bytes() + b1 + b2);
    let items = s.items().push(item_text(n1, b1)).push(item_text(n2, b2));
    assert(e.items() =~= items);
    let m = s.items().len() as int;
    lemma_chain_step(items, m, true);
    lemma_chain_step(items, m + 1, true);
    assert(items.take(m) =~= s.items());
    assert(items.take(m + 2) =~= items);
}

} // verus!
