use the_key::{format_struct, Key, KeyPart, KeyPartItem, KeyPartsSequence, KeySeq};

struct StaticPart {
    key_part_name: &'static str,
    bytes: &'static [u8],
}

struct KeyPart1(StaticPart);
struct KeyPart2(StaticPart);
struct KeyPart3(StaticPart);

impl KeyPart1 {
    const ITEM: KeyPartItem = ("KeyPart1", &[10, 20]);
}

impl KeyPart for KeyPart1 {
    fn new() -> Self {
        KeyPart1(StaticPart { key_part_name: Self::ITEM.0, bytes: Self::ITEM.1 })
    }

    fn get_name(&self) -> &'static str {
        self.0.key_part_name
    }

    fn get_bytes(&self) -> &'static [u8] {
        self.0.bytes
    }
}

impl KeyPart2 {
    const ITEM: KeyPartItem = ("KeyPart2", &[30, 40]);
}

impl KeyPart for KeyPart2 {
    fn new() -> Self {
        KeyPart2(StaticPart { key_part_name: Self::ITEM.0, bytes: Self::ITEM.1 })
    }

    fn get_name(&self) -> &'static str {
        self.0.key_part_name
    }

    fn get_bytes(&self) -> &'static [u8] {
        self.0.bytes
    }
}

impl KeyPart3 {
    const ITEM: KeyPartItem = ("KeyPart3", &[50, 60]);
}

impl KeyPart for KeyPart3 {
    fn new() -> Self {
        KeyPart3(StaticPart { key_part_name: Self::ITEM.0, bytes: Self::ITEM.1 })
    }

    fn get_name(&self) -> &'static str {
        self.0.key_part_name
    }

    fn get_bytes(&self) -> &'static [u8] {
        self.0.bytes
    }
}

/// `KeyPart1`, then `KeyPart2`.
#[derive(Clone)]
struct MyPrefixSeq;

impl KeyPartsSequence for MyPrefixSeq {
    const PARTS: &'static [KeyPartItem] = &[KeyPart1::ITEM, KeyPart2::ITEM];
}

/// `KeyPart1`, `KeyPart2`, then `KeyPart3`.
struct MyTripleSeq;

impl KeyPartsSequence for MyTripleSeq {
    const PARTS: &'static [KeyPartItem] = &[KeyPart1::ITEM, KeyPart2::ITEM, KeyPart3::ITEM];
}

/// No parts at all.
struct EmptySeq;

impl KeyPartsSequence for EmptySeq {
    const PARTS: &'static [KeyPartItem] = &[];
}

#[test]
fn key_from_seq_test() {
    assert_eq!(
        KeySeq::<MyPrefixSeq>::new().create_key(&[50, 60]).to_vec(),
        vec![10, 20, 30, 40, 50, 60],
    )
}

#[test]
fn key_get_key_test() {
    let key_seq = KeySeq::<MyPrefixSeq>::new();
    let key = key_seq.create_key(&[70, 80]);

    let expected: &[u8] = &[70, 80];
    assert_eq!(key.get_key(), Some(expected));
}

#[test]
fn key_get_prefix_test() {
    let key_seq = KeySeq::<MyPrefixSeq>::new();
    let key = key_seq.create_key(&[70, 80]);

    assert_eq!(key.get_prefix(), &[10, 20, 30, 40])
}

#[test]
fn key_seq_debug() {
    assert_eq!(
        KeySeq::<MyPrefixSeq>::new().fmt_debug(false),
        "KeyPart1[10, 20] -> KeyPart2[30, 40]".to_string(),
    );
}

#[test]
fn key_seq_pretty_debug() {
    assert_eq!(
        KeySeq::<MyTripleSeq>::new().fmt_debug(true),
        "KeyPart1[10, 20]\n  └ KeyPart2[30, 40]\n    └ KeyPart3[50, 60]",
    );
}

#[test]
fn key_seq_extend() {
    let key_seq = KeySeq::<MyPrefixSeq>::new()
        .extend("ExtensionPart1", &[50, 60])
        .extend("ExtensionPart2", &[70, 80]);

    assert_eq!(
        key_seq.fmt_debug(true),
        "KeyPart1[10, 20]\n  └ KeyPart2[30, 40]\n    └ ExtensionPart1[50, 60]\n      └ ExtensionPart2[70, 80]",
    );

    let key = key_seq.create_key(&[90, 100]);

    assert_eq!(key.as_ref(), &[10, 20, 30, 40, 50, 60, 70, 80, 90, 100],);

    assert_eq!(
        key.fmt_debug(false),
        "KeyPart1[10, 20] -> KeyPart2[30, 40] -> ExtensionPart1[50, 60] -> ExtensionPart2[70, 80] -> Key=[90, 100]",
    );
}

#[test]
fn suffix_key_splits_into_parts() {
    let key_seq = KeySeq::<MyPrefixSeq>::with_suffix(&[50, 60]);
    let key = key_seq.create_key(&[70, 80]);

    let suffix: &[u8] = &[50, 60];
    let terminal: &[u8] = &[70, 80];
    assert_eq!(key.get_prefix(), &[10, 20, 30, 40]);
    assert_eq!(key.get_suffix(), Some(suffix));
    assert_eq!(key.get_key(), Some(terminal));
    assert_eq!(key.to_vec(), vec![10, 20, 30, 40, 50, 60, 70, 80]);
}

#[test]
fn absent_suffix_and_empty_key_are_none() {
    let key_seq = KeySeq::<MyPrefixSeq>::new();
    let key = key_seq.create_key(&[]);

    assert_eq!(key.get_suffix(), None);
    assert_eq!(key.get_key(), None);
    assert_eq!(key.get_prefix(), &[10, 20, 30, 40]);

    let empty_suffix = KeySeq::<MyPrefixSeq>::with_suffix(&[]);
    assert_eq!(empty_suffix.get_suffix(), None);
    assert_eq!(empty_suffix.create_key(&[1]).get_suffix(), None);
}

#[test]
fn inspection_gives_the_same_result_twice() {
    let key_seq = KeySeq::<MyPrefixSeq>::with_suffix(&[5]);
    let key = key_seq.create_key(&[7, 8]);

    assert_eq!(key.get_prefix(), key.get_prefix());
    assert_eq!(key.get_suffix(), key.get_suffix());
    assert_eq!(key.get_key(), key.get_key());
    let terminal: &[u8] = &[7, 8];
    assert_eq!(key.get_key(), Some(terminal));
}

#[test]
fn extensions_follow_the_schema_in_order() {
    let key_seq = KeySeq::<MyPrefixSeq>::new().extend("Ext1", &[1, 2]).extend("Ext2", &[3]);

    assert_eq!(key_seq.create_key(&[9]).to_vec(), vec![10, 20, 30, 40, 1, 2, 3, 9]);
    assert_eq!(key_seq.to_vec(), vec![10, 20, 30, 40, 1, 2, 3]);
    assert_eq!(
        key_seq.fmt_debug(true),
        "KeyPart1[10, 20]\n  └ KeyPart2[30, 40]\n    └ Ext1[1, 2]\n      └ Ext2[3]",
    );
    let names: Vec<&str> = key_seq.get_extensions().iter().map(|e| e.0).collect();
    assert_eq!(names, vec!["Ext1", "Ext2"]);
}

#[test]
fn two_extensions_render_with_the_key() {
    let key_seq = KeySeq::<MyPrefixSeq>::new().extend("Ext1", &[50, 60]).extend("Ext2", &[70, 80]);
    let key = key_seq.create_key(&[90, 100]);

    assert_eq!(
        key.fmt_debug(false),
        "KeyPart1[10, 20] -> KeyPart2[30, 40] -> Ext1[50, 60] -> Ext2[70, 80] -> Key=[90, 100]",
    );
    assert_eq!(
        key.fmt_debug(true),
        "KeyPart1[10, 20]\n  └ KeyPart2[30, 40]\n    └ Ext1[50, 60]\n      └ Ext2[70, 80]\n        └ Key=[90, 100]",
    );
}

#[test]
fn suffix_comes_before_extensions() {
    let key_seq = KeySeq::<MyPrefixSeq>::with_suffix(&[50, 60]).extend("Ext", &[1]);
    let key = key_seq.create_key(&[70, 80]);

    let suffix: &[u8] = &[50, 60];
    assert_eq!(key.get_suffix(), Some(suffix));
    assert_eq!(key.get_prefix(), &[10, 20, 30, 40]);
    assert_eq!(key.as_slice(), &[10, 20, 30, 40, 50, 60, 1, 70, 80]);
    assert_eq!(
        key.fmt_debug(false),
        "KeyPart1[10, 20] -> KeyPart2[30, 40] -> Suffix=[50, 60] -> Ext[1] -> Key=[70, 80]",
    );
    assert_eq!(
        key_seq.fmt_debug(false),
        "KeyPart1[10, 20] -> KeyPart2[30, 40] -> Suffix=[50, 60] -> Ext[1]",
    );
}

#[test]
fn empty_schema_renders_nothing() {
    let key_seq = KeySeq::<EmptySeq>::new();

    assert_eq!(key_seq.fmt_debug(false), "");
    assert_eq!(key_seq.fmt_debug(true), "");
    assert_eq!(key_seq.create_key(&[3, 4]).to_vec(), vec![3, 4]);
    assert_eq!(key_seq.create_key(&[3, 4]).get_prefix(), &[] as &[u8]);
    assert_eq!(key_seq.create_key(&[3, 4]).fmt_debug(true), "Key=[3, 4]");
}

#[test]
fn prefix_key_has_no_terminal_key() {
    let key_seq = KeySeq::<MyPrefixSeq>::new();
    let key = key_seq.create_prefix();

    assert_eq!(key.get_key(), None);
    assert_eq!(key.fmt_debug(false), "KeyPart1[10, 20] -> KeyPart2[30, 40] -> Key=[]");
    assert_eq!(key.to_vec(), vec![10, 20, 30, 40]);
}

#[test]
fn from_parts_keeps_the_given_schema() {
    let parts: Vec<KeyPartItem> = vec![("A", &[1]), ("B", &[2, 3])];
    let key_seq: KeySeq<EmptySeq> = KeySeq::from_parts(parts, &[4]);

    assert_eq!(key_seq.get_parts().len(), 2);
    assert_eq!(key_seq.get_parts()[1].0, "B");
    assert_eq!(key_seq.to_vec(), vec![1, 2, 3, 4]);
    assert_eq!(key_seq.fmt_debug(false), "A[1] -> B[2, 3] -> Suffix=[4]");
}

#[test]
fn keys_compare_by_bytes() {
    let seq_a = KeySeq::<MyPrefixSeq>::new();
    let seq_b = KeySeq::<MyPrefixSeq>::with_suffix(&[50]);
    let a = seq_a.create_key(&[50, 60]);
    let b = seq_b.create_key(&[60]);
    let c = seq_a.create_key(&[50, 61]);

    assert!(a == b);
    assert!(a != c);
}

#[test]
fn key_converts_into_its_bytes() {
    let key_seq = KeySeq::<MyPrefixSeq>::new();
    let bytes: Vec<u8> = key_seq.create_key(&[1]).into();

    assert_eq!(bytes, vec![10, 20, 30, 40, 1]);
}

#[test]
fn key_new_takes_a_buffer_that_starts_with_the_sequence() {
    let key_seq = KeySeq::<MyPrefixSeq>::new();
    let key = Key::new(vec![10, 20, 30, 40, 7], 1, &key_seq);

    let terminal: &[u8] = &[7];
    assert_eq!(key.get_key(), Some(terminal));
    assert_eq!(key.get_prefix(), &[10, 20, 30, 40]);
}

#[test]
fn format_struct_renders_decimal_bytes() {
    let parts: Vec<KeyPartItem> = vec![("P", &[0, 9, 10, 99, 100, 255])];
    let suffix: &[u8] = &[7];
    let key: &[u8] = &[];

    assert_eq!(
        format_struct(&parts, None, &[], None, false),
        "P[0, 9, 10, 99, 100, 255]",
    );
    assert_eq!(
        format_struct(&parts, Some(suffix), &[("E", vec![1])], Some(key), true),
        "P[0, 9, 10, 99, 100, 255]\n  └ Suffix=[7]\n    └ E[1]\n      └ Key=[]",
    );
    assert_eq!(format_struct(&[], None, &[], None, true), "");
    assert_eq!(format_struct(&[], None, &[], Some(suffix), false), "Key=[7]");
}

#[test]
fn cloned_sequence_extends_independently() {
    let base = KeySeq::<MyPrefixSeq>::new();
    let extended = base.clone().extend("Ext", &[1]);

    assert_eq!(base.to_vec(), vec![10, 20, 30, 40]);
    assert_eq!(extended.to_vec(), vec![10, 20, 30, 40, 1]);

    let key = base.create_key(&[2]);
    let copy = key.clone();
    assert!(key == copy);
    assert_eq!(copy.to_vec(), vec![10, 20, 30, 40, 2]);
}

#[test]
fn as_ref_gives_the_whole_buffer() {
    let key_seq = KeySeq::<MyPrefixSeq>::with_suffix(&[50, 60]);
    let key = key_seq.create_key(&[70, 80]);

    assert_eq!(key.as_ref(), &[10, 20, 30, 40, 50, 60, 70, 80]);
    assert_eq!(&key.as_ref()[4..6], &[50, 60]);
}

#[test]
fn get_struct_lists_the_declared_parts() {
    let parts = MyPrefixSeq::get_struct();
    let p1 = KeyPart1::new();
    let p2 = KeyPart2::new();

    assert_eq!(parts, vec![(p1.get_name(), p1.get_bytes()), (p2.get_name(), p2.get_bytes())]);
}

#[test]
fn prefix_without_suffix_holds_the_extensions() {
    let base = KeySeq::<MyPrefixSeq>::new();
    let extended = base.duplicate().extend("Ext", &[1]);
    let key = extended.create_key(&[2]);

    assert_eq!(key.get_prefix(), &[10, 20, 30, 40, 1]);
    let terminal: &[u8] = &[2];
    assert_eq!(key.get_key(), Some(terminal));
    assert_eq!(extended.create_prefix().get_prefix(), &[10, 20, 30, 40, 1]);
    assert_eq!(base.create_key(&[2]).get_prefix(), &[10, 20, 30, 40]);
}

#[test]
fn duplicate_extends_independently() {
    let base = KeySeq::<MyPrefixSeq>::with_suffix(&[5]).extend("Ext", &[6]);
    let copy = base.duplicate().extend("More", &[7]);

    assert_eq!(base.to_vec(), vec![10, 20, 30, 40, 5, 6]);
    assert_eq!(copy.to_vec(), vec![10, 20, 30, 40, 5, 6, 7]);
    assert_eq!(
        copy.fmt_debug(false),
        "KeyPart1[10, 20] -> KeyPart2[30, 40] -> Suffix=[5] -> Ext[6] -> More[7]",
    );
}

#[test]
fn keys_are_ordered_by_bytes() {
    let parts: Vec<KeyPartItem> = vec![("A", &[1])];
    let key_seq: KeySeq<EmptySeq> = KeySeq::from_parts(parts, &[]);
    let a = key_seq.create_key(&[2]);
    let b = key_seq.create_key(&[3]);
    let shorter = key_seq.create_key(&[]);
    let longer = key_seq.create_key(&[2, 0]);

    assert!(a < b);
    assert!(b > a);
    assert!(shorter < a);
    assert!(a < longer);
    assert_eq!(a.partial_cmp(&key_seq.create_key(&[2])), Some(std::cmp::Ordering::Equal));
}
