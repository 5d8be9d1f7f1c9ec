use myllm_connect::encoding::decimal_string;

#[test]
fn decimal_matches_to_string() {
    for n in [0u16, 7, 10, 99, 100, 11435, 65535] {
        assert_eq!(decimal_string(n), n.to_string());
    }
}
