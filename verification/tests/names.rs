use fishhook::macho::equal_str;

#[test]
fn equal_str_compares_up_to_the_reference() {
    let mut field = [0u8; 16];
    field[..6].copy_from_slice(b"__DATA");
    assert!(equal_str(&field, "__DATA"));
    assert!(!equal_str(&field, "__TEXT"));
    assert!(!equal_str(&field, "__DATA_CONST"));
}

#[test]
fn equal_str_accepts_a_longer_field() {
    let mut field = [0u8; 16];
    field[..12].copy_from_slice(b"__DATA_CONST");
    assert!(equal_str(&field, "__DATA"));
    assert!(equal_str(&field, "__DATA_CONST"));
}
