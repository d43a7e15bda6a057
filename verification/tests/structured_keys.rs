use agentmem_core::ns_hash;
use agentmem_core::structured::full_key;

#[test]
fn full_key_is_hash_then_key_bytes() {
    let key = full_key("a", "k");
    let mut expected = ns_hash("a").to_vec();
    expected.push(b'k');
    assert_eq!(key, expected);
    let unicode = full_key("a", "é");
    assert_eq!(&unicode[16..], "é".as_bytes());
}

#[test]
fn namespaces_do_not_share_keys() {
    assert_ne!(full_key("a", "k"), full_key("b", "k"));
    assert_ne!(full_key("a", "k"), full_key("a", "kk"));
    assert_eq!(full_key("a", "k"), full_key("a", "k"));
}
