use the_key::KeyPart;

struct KeyPart1 {
    key_part_name: &'static str,
    bytes: &'static [u8],
}

impl KeyPart for KeyPart1 {
    fn new() -> Self {
        KeyPart1 { key_part_name: "KeyPart1", bytes: "my_key_part_1".as_bytes() }
    }

    fn get_name(&self) -> &'static str {
        self.key_part_name
    }

    fn get_bytes(&self) -> &'static [u8] {
        self.bytes
    }
}

#[test]
fn key_part_test() {
    let kp = KeyPart1::new();

    assert_eq!(kp.get_name(), "KeyPart1");

    assert_eq!(kp.get_bytes(), b"my_key_part_1");
}
