use gl_renderer::text::{numbered, to_decimal};

#[test]
fn numbers_in_decimal() {
    for n in [0, 7, 10, 99, 100, 1_234_567_890, u64::MAX] {
        assert_eq!(to_decimal(n), n.to_string());
    }
}

#[test]
fn numbered_names() {
    assert_eq!(numbered("bulk_", 42), "bulk_42");
    assert_eq!(numbered("", 0), "0");
}
