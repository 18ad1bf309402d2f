use nbam::pointer::escape_json_pointer;

#[test]
fn test_json_pointer_escaping_slash() {
    let value = "networking.k8s.io/egress-bandwidth";

    assert_eq!(
        escape_json_pointer(value),
        "networking.k8s.io~1egress-bandwidth".to_owned()
    );
}

#[test]
fn test_json_pointer_escaping_tilde() {
    let value = "networking.k8s.io/egress~bandwidth";

    assert_eq!(
        escape_json_pointer(value),
        "networking.k8s.io~1egress~0bandwidth".to_owned()
    );
}

#[test]
fn test_escaping_plain_key_is_identity() {
    assert_eq!(escape_json_pointer("memory"), "memory".to_owned());
}

#[test]
fn test_escaping_does_not_reescape_its_own_output() {
    // The tilde produced by escaping a slash must not be escaped again.
    assert_eq!(escape_json_pointer("a~1b"), "a~01b".to_owned());
    assert_eq!(escape_json_pointer("~/"), "~0~1".to_owned());
}

#[test]
fn test_escaping_empty_key() {
    assert_eq!(escape_json_pointer(""), "".to_owned());
}
