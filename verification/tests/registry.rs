use dds_registry::hex::encode_hex;
use dds_registry::registry::is_declared_dds_address;
use dds_registry::registry::Registry;
use dds_registry::registry::Write;
use dds_registry::registry::REGISTERED_MARKER;

fn address(byte: u8) -> Vec<u8> {
    vec![byte; 20]
}

#[test]
fn hex_text_is_lowercase_two_digits_per_byte() {
    assert_eq!(encode_hex(&vec![0xab, 0xcd, 0x01, 0xf0]), "abcd01f0");
    assert_eq!(encode_hex(&vec![]), "");
    assert_eq!(encode_hex(&vec![0x00, 0xff]), "00ff");
    assert_eq!(
        encode_hex(&address(0xaa)),
        "aaaaaaaaaaaaaaaaaaaaaaaaaaaaaaaaaaaaaaaa"
    );
}

#[test]
fn nothing_is_registered_in_a_new_registry() {
    let registry = Registry::new();
    assert_eq!(registry.get_at(0, "aa"), None);
    assert_eq!(registry.get_at(u64::MAX, "aa"), None);
    assert!(!is_declared_dds_address(&address(1), u64::MAX, &registry));
}

#[test]
fn address_is_visible_from_its_ordinal_on() {
    let mut registry = Registry::new();
    registry.register(&address(0xaa), 5);
    assert!(!is_declared_dds_address(&address(0xaa), 0, &registry));
    assert!(!is_declared_dds_address(&address(0xaa), 3, &registry));
    assert!(!is_declared_dds_address(&address(0xaa), 4, &registry));
    assert!(is_declared_dds_address(&address(0xaa), 5, &registry));
    assert!(is_declared_dds_address(&address(0xaa), 7, &registry));
    assert!(is_declared_dds_address(&address(0xaa), u64::MAX, &registry));
}

#[test]
fn register_writes_the_marker_under_the_hexadecimal_key() {
    let mut registry = Registry::new();
    registry.register(&vec![0x1f, 0x98], 12);
    assert_eq!(REGISTERED_MARKER, 1);
    assert_eq!(registry.get_at(12, "1f98"), Some(1));
    assert_eq!(registry.get_at(11, "1f98"), None);
    assert_eq!(registry.get_at(12, "1F98"), None);
    assert_eq!(registry.get_at(12, "0x1f98"), None);
}

#[test]
fn a_write_at_ordinal_zero_is_visible_everywhere() {
    let mut registry = Registry::new();
    registry.set(0, "k", 9);
    assert_eq!(registry.get_at(0, "k"), Some(9));
    assert_eq!(registry.get_at(u64::MAX, "k"), Some(9));
}

#[test]
fn a_read_returns_the_latest_write_at_or_before_its_ordinal() {
    let mut registry = Registry::new();
    registry.set(5, "k", 1);
    registry.set(9, "k", 2);
    registry.set(7, "other", 3);
    assert_eq!(registry.get_at(4, "k"), None);
    assert_eq!(registry.get_at(5, "k"), Some(1));
    assert_eq!(registry.get_at(8, "k"), Some(1));
    assert_eq!(registry.get_at(9, "k"), Some(2));
    assert_eq!(registry.get_at(100, "k"), Some(2));
    assert_eq!(registry.get_at(6, "other"), None);
    assert_eq!(registry.get_at(7, "other"), Some(3));
}

#[test]
fn writes_may_come_in_any_order_of_ordinals() {
    let mut registry = Registry::new();
    registry.set(9, "k", 2);
    registry.set(5, "k", 1);
    assert_eq!(registry.get_at(4, "k"), None);
    assert_eq!(registry.get_at(6, "k"), Some(1));
    assert_eq!(registry.get_at(9, "k"), Some(2));
}

#[test]
fn a_second_write_at_the_same_ordinal_replaces_the_first() {
    let mut registry = Registry::new();
    registry.set(5, "k", 1);
    registry.set(5, "k", 4);
    assert_eq!(registry.get_at(5, "k"), Some(4));
    assert_eq!(registry.get_at(4, "k"), None);
}

#[test]
fn registering_twice_is_registering_once() {
    let mut once = Registry::new();
    once.register(&address(0xaa), 5);
    let mut twice = Registry::new();
    twice.register(&address(0xaa), 5);
    twice.register(&address(0xaa), 8);
    for ordinal in 0..12u64 {
        assert_eq!(
            is_declared_dds_address(&address(0xaa), ordinal, &once),
            is_declared_dds_address(&address(0xaa), ordinal, &twice)
        );
        assert_eq!(
            is_declared_dds_address(&address(0xbb), ordinal, &once),
            is_declared_dds_address(&address(0xbb), ordinal, &twice)
        );
    }
}

#[test]
fn an_address_that_was_never_written_is_never_visible() {
    let mut registry = Registry::new();
    registry.register(&address(0xaa), 0);
    registry.register(&address(0xab), 3);
    for ordinal in [0u64, 1, 3, 1000, u64::MAX] {
        assert!(!is_declared_dds_address(&address(0xac), ordinal, &registry));
        assert!(!is_declared_dds_address(&vec![0xaa; 19], ordinal, &registry));
        assert!(!is_declared_dds_address(&vec![], ordinal, &registry));
    }
}

#[test]
fn applying_writes_is_making_each_of_them_in_order() {
    let writes = vec![
        Write { ordinal: 5, key: "a".to_string(), value: 1 },
        Write { ordinal: 5, key: "a".to_string(), value: 2 },
        Write { ordinal: 2, key: "b".to_string(), value: 3 },
    ];
    let mut registry = Registry::new();
    registry.apply(&writes);
    assert_eq!(registry.get_at(5, "a"), Some(2));
    assert_eq!(registry.get_at(4, "a"), None);
    assert_eq!(registry.get_at(2, "b"), Some(3));
    assert_eq!(registry.get_at(1, "b"), None);
}

#[test]
fn applying_the_same_writes_again_changes_no_read() {
    let writes = vec![
        Write { ordinal: 5, key: "a".to_string(), value: 1 },
        Write { ordinal: 9, key: "a".to_string(), value: 2 },
        Write { ordinal: 5, key: "a".to_string(), value: 7 },
        Write { ordinal: 2, key: "b".to_string(), value: 3 },
    ];
    let mut once = Registry::new();
    once.apply(&writes);
    let mut twice = Registry::new();
    twice.apply(&writes);
    twice.apply(&writes);
    for ordinal in 0..12u64 {
        for key in ["a", "b", "c"] {
            assert_eq!(once.get_at(ordinal, key), twice.get_at(ordinal, key));
        }
    }
    assert_eq!(twice.get_at(5, "a"), Some(7));
}
