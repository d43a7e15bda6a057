use agentmem_core::ns_hash;

#[test]
fn hash_is_deterministic() {
    assert_eq!(ns_hash("a"), ns_hash("a"));
}

#[test]
fn different_namespaces_differ() {
    assert_ne!(ns_hash("a"), ns_hash("b"));
}

#[test]
fn hash_is_truncated_sha256() {
    // SHA-256("a") = ca978112 ca1bbdca fac231b3 9a23dc4d a786eff8 ...
    assert_eq!(
        ns_hash("a"),
        [
            0xca, 0x97, 0x81, 0x12, 0xca, 0x1b, 0xbd, 0xca, 0xfa, 0xc2, 0x31, 0xb3, 0x9a, 0x23,
            0xdc, 0x4d
        ]
    );
    // SHA-256("") = e3b0c442 98fc1c14 9afbf4c8 996fb924 ...
    assert_eq!(
        ns_hash(""),
        [
            0xe3, 0xb0, 0xc4, 0x42, 0x98, 0xfc, 0x1c, 0x14, 0x9a, 0xfb, 0xf4, 0xc8, 0x99, 0x6f,
            0xb9, 0x24
        ]
    );
}
