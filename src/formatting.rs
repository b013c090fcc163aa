//! Rendering of a chain of named byte segments, flat or as a tree.
use vstd::prelude::*;
use vstd::string::StringExecFns;

use crate::{extension_segments, part_segments, KeyExtensionsItem, KeyPartItem, Segment};

verus! {

/// The text of one decimal digit.
pub open spec fn digit_text(d: nat) -> Seq<char> {
    if d == 0 { "0"@ } else if d == 1 { "1"@ } else if d == 2 { "2"@ } else if d == 3 { "3"@ }
    else if d == 4 { "4"@ } else if d == 5 { "5"@ } else if d == 6 { "6"@ } else if d == 7 { "7"@ }
    else if d == 8 { "8"@ } else { "9"@ }
}

/// A natural number in decimal, without leading zeros.
pub open spec fn decimal_text(n: nat) -> Seq<char>
    decreases n,
{
    if n < 10 {
        digit_text(n)
    } else {
        decimal_text(n / 10) + digit_text(n % 10)
    }
}

/// The values of `b` in decimal, separated by `", "`.
pub open spec fn byte_values_text(b: Seq<u8>) -> Seq<char>
    decreases b.len(),
{
    if b.len() == 0 {
        seq![]
    } else if b.len() == 1 {
        decimal_text(b[0] as nat)
    } else {
        byte_values_text(b.drop_last()) + ", "@ + decimal_text(b.last() as nat)
    }
}

/// `b` as a bracketed list, the way `{:?}` renders a byte slice: `[10, 20]`.
pub open spec fn byte_list_text(b: Seq<u8>) -> Seq<char> {
    "["@ + byte_values_text(b) + "]"@
}

/// One item of a chain: its name followed by its bytes, `Name[10, 20]`.
pub open spec fn item_text(name: Seq<char>, b: Seq<u8>) -> Seq<char> {
    name + byte_list_text(b)
}

/// `2 * n` spaces.
pub open spec fn indent_text(n: nat) -> Seq<char>
    decreases n,
{
    if n == 0 {
        seq![]
    } else {
        indent_text((n - 1) as nat) + "  "@
    }
}

/// What precedes the item at position `i` of a chain: nothing before the
/// first item; `" -> "` in the flat form; in the tree form a new line, `2 * i`
/// spaces and a corner marker.
pub open spec fn separator_text(i: nat, alternate: bool) -> Seq<char> {
    if i == 0 {
        seq![]
    } else if alternate {
        "\n"@ + indent_text(i) + "└ "@
    } else {
        " -> "@
    }
}

/// The rendered chain of `items`: each item preceded by its separator.
pub open spec fn chain_text(items: Seq<Seq<char>>, alternate: bool) -> Seq<char>
    decreases items.len(),
{
    if items.len() == 0 {
        seq![]
    } else {
        chain_text(items.drop_last(), alternate) + separator_text((items.len() - 1) as nat, alternate)
            + items.last()
    }
}

/// The items that render a list of segments, one per segment.
pub open spec fn segment_items(segs: Seq<Segment>) -> Seq<Seq<char>> {
    segs.map_values(|s: Segment| item_text(s.0, s.1))
}

/// One item labelled `name` when `b` is present, none otherwise.
pub open spec fn optional_item(name: Seq<char>, b: Option<Seq<u8>>) -> Seq<Seq<char>> {
    match b {
        Some(b) => seq![item_text(name, b)],
        None => seq![],
    }
}

/// The items of a chain, in order: the parts, the suffix, the extensions,
/// the terminal key.
pub open spec fn struct_items(
    parts: Seq<Segment>,
    suffix: Option<Seq<u8>>,
    extensions: Seq<Segment>,
    key: Option<Seq<u8>>,
) -> Seq<Seq<char>> {
    segment_items(parts) + optional_item("Suffix="@, suffix) + segment_items(extensions)
        + optional_item("Key="@, key)
}

/// The bytes held by an optional slice.
pub open spec fn optional_bytes(b: Option<&[u8]>) -> Option<Seq<u8>> {
    match b {
        Some(s) => Some(s@),
        None => None,
    }
}

pub(crate) proof fn lemma_chain_step(items: Seq<Seq<char>>, n: int, alternate: bool)
    requires
        0 <= n < items.len(),
    ensures
        chain_text(items.take(n + 1), alternate) == chain_text(items.take(n), alternate)
            + separator_text(n as nat, alternate) + items[n],
{
    assert(items.take(n + 1).drop_last() =~= items.take(n));
}

fn digit_str(d: u8) -> (r: &'static str)
    requires
        d < 10,
    ensures
        r@ == digit_text(d as nat),
{
    if d == 0 { "0" } else if d == 1 { "1" } else if d == 2 { "2" } else if d == 3 { "3" }
    else if d == 4 { "4" } else if d == 5 { "5" } else if d == 6 { "6" } else if d == 7 { "7" }
    else if d == 8 { "8" } else { "9" }
}

fn write_decimal(out: &mut String, n: u8)
    ensures
        final(out)@ == old(out)@ + decimal_text(n as nat),
{
    let ghost start = out@;
    if n >= 100 {
        out.append(digit_str(n / 100));
    }
    if n >= 10 {
        out.append(digit_str((n / 10) % 10));
    }
    out.append(digit_str(n % 10));
    proof {
        let m = n as nat;
        if m >= 100 {
            assert(m / 10 / 10 == m / 100);
            assert(decimal_text(m / 10) == decimal_text(m / 100) + digit_text((m / 10) % 10));
        }
        if m >= 10 {
            assert(decimal_text(m) == decimal_text(m / 10) + digit_text(m % 10));
        }
        assert(out@ =~= start + decimal_text(m));
    }
}

fn write_byte_list(out: &mut String, b: &[u8])
    ensures
        final(out)@ == old(out)@ + byte_list_text(b@),
{
    let ghost start = out@;
    out.append("[");
    let mut i: usize = 0;
    while i < b.len()
        invariant
            i <= b@.len(),
            out@ == start + "["@ + byte_values_text(b@.take(i as int)),
        decreases b@.len() - i,
    {
        let ghost before = out@;
        if i > 0 {
            out.append(", ");
        }
        write_decimal(out, b[i]);
        proof {
            assert(b@.take(i + 1).drop_last() =~= b@.take(i as int));
            assert(out@ =~= start + "["@ + byte_values_text(b@.take(i + 1)));
        }
        i = i + 1;
    }
    out.append("]");
    proof {
        assert(b@.take(i as int) =~= b@);
        assert(out@ =~= start + byte_list_text(b@));
    }
}

/// Appends the item at position `i` of a chain, with its separator, and
/// widens the indentation for the next one.
fn write_item(
    out: &mut String,
    pad: &mut String,
    first: bool,
    alternate: bool,
    name: &str,
    b: &[u8],
    Ghost(i): Ghost<nat>,
)
    requires
        old(pad)@ == indent_text(i),
        first <==> i == 0,
    ensures
        final(out)@ == old(out)@ + separator_text(i, alternate) + item_text(name@, b@),
        final(pad)@ == indent_text(i + 1),
{
    let ghost start = out@;
    if !first {
        if alternate {
            out.append("\n");
            out.append(pad.as_str());
            out.append("└ ");
        } else {
            out.append(" -> ");
        }
    }
    out.append(name);
    write_byte_list(out, b);
    pad.append("  ");
    proof {
        assert(out@ =~= start + separator_text(i, alternate) + item_text(name@, b@));
    }
}

/// Renders the schema `parts`, the optional `suffix`, the `extensions` and
/// the optional terminal `key` as one chain: each item `Name[bytes]`, the
/// suffix as `Suffix=[bytes]` and the key as `Key=[bytes]`. The flat form
/// joins the items with `" -> "`; the tree form (`alternate`) puts each item
/// after the first on a line of its own, indented by two spaces per position
/// and marked with a corner.
pub fn format_struct(
    parts: &[KeyPartItem],
    suffix: Option<&[u8]>,
    extensions: &[KeyExtensionsItem],
    key: Option<&[u8]>,
    alternate: bool,
) -> (r: String)
    ensures
        r@ == chain_text(
            struct_items(
                part_segments(parts@),
                optional_bytes(suffix),
                extension_segments(extensions@),
                optional_bytes(key),
            ),
            alternate,
        ),
{
    let ghost items = struct_items(
        part_segments(parts@),
        optional_bytes(suffix),
        extension_segments(extensions@),
        optional_bytes(key),
    );
    let ghost n_suffix: int = if suffix.is_some() { 1 } else { 0 };
    let mut out = String::new();
    let mut pad = String::new();
    let mut first = true;
    let mut i: usize = 0;
    while i < parts.len()
        invariant
            i <= parts@.len(),
            items == struct_items(
                part_segments(parts@),
                optional_bytes(suffix),
                extension_segments(extensions@),
                optional_bytes(key),
            ),
            out@ == chain_text(items.take(i as int), alternate),
            pad@ == indent_text(i as nat),
            first <==> i == 0,
        decreases parts@.len() - i,
    {
        let (name, bytes) = parts[i];
        write_item(&mut out, &mut pad, first, alternate, name, bytes, Ghost(i as nat));
        proof {
            lemma_chain_step(items, i as int, alternate);
        }
        first = false;
        i = i + 1;
    }
    let ghost n: int = parts@.len() as int;
    if let Some(s) = suffix {
        write_item(&mut out, &mut pad, first, alternate, "Suffix=", s, Ghost(n as nat));
        proof {
            lemma_chain_step(items, n, alternate);
        }
        first = false;
    }
    let ghost n: int = parts@.len() + n_suffix;
    let mut j: usize = 0;
    while j < extensions.len()
        invariant
            j <= extensions@.len(),
            n == parts@.len() + n_suffix,
            n_suffix == (if suffix.is_some() { 1int } else { 0int }),
            items == struct_items(
                part_segments(parts@),
                optional_bytes(suffix),
                extension_segments(extensions@),
                optional_bytes(key),
            ),
            out@ == chain_text(items.take(n + j), alternate),
            pad@ == indent_text((n + j) as nat),
            first <==> n + j == 0,
        decreases extensions@.len() - j,
    {
        let name = extensions[j].0;
        let bytes = extensions[j].1.as_slice();
        write_item(&mut out, &mut pad, first, alternate, name, bytes, Ghost((n + j) as nat));
        proof {
            lemma_chain_step(items, n + j, alternate);
        }
        first = false;
        j = j + 1;
    }
    let ghost n: int = n + extensions@.len();
    if let Some(k) = key {
        write_item(&mut out, &mut pad, first, alternate, "Key=", k, Ghost(n as nat));
        proof {
            lemma_chain_step(items, n, alternate);
        }
    }
    proof {
        assert(items.take(items.len() as int) =~= items);
    }
    out
}

} // verus!
