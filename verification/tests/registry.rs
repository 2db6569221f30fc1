use fishhook::registry::{bytes_equal, find_binding, register, Rebinding, Registry};

fn binding(name: &str, replacement: u64) -> Rebinding {
    Rebinding { name: name.to_string(), replacement, original: None }
}

#[test]
fn the_callback_is_installed_once() {
    let mut registry = Registry::new();
    assert!(!registry.installed);
    assert!(registry.bindings.is_empty());
    assert!(register(&mut registry, vec![binding("puts", 1)]));
    assert!(registry.installed);
    assert!(!register(&mut registry, vec![binding("free", 2), binding("malloc", 3)]));
    assert!(registry.installed);
    assert!(!register(&mut registry, Vec::new()));
}

#[test]
fn registering_replaces_the_rebindings() {
    let mut registry = Registry::new();
    register(&mut registry, vec![binding("puts", 1)]);
    register(&mut registry, vec![binding("free", 2), binding("malloc", 3)]);
    let names: Vec<&str> = registry.bindings.iter().map(|b| b.name.as_str()).collect();
    assert_eq!(names, vec!["free", "malloc"]);
    assert_eq!(registry.bindings[1].replacement, 3);
    register(&mut registry, Vec::new());
    assert!(registry.bindings.is_empty());
}

#[test]
fn the_first_rebinding_of_a_name_is_found() {
    let bindings = vec![binding("free", 1), binding("puts", 2), binding("puts", 3), binding("", 4)];
    assert_eq!(find_binding(&bindings, b"puts"), Some(1));
    assert_eq!(find_binding(&bindings, b"free"), Some(0));
    assert_eq!(find_binding(&bindings, b""), Some(3));
    assert_eq!(find_binding(&bindings, b"put"), None);
    assert_eq!(find_binding(&bindings, b"putsx"), None);
    assert_eq!(find_binding(&bindings, b"_puts"), None);
    assert_eq!(find_binding(&Vec::new(), b"puts"), None);
}

#[test]
fn names_are_compared_as_bytes() {
    let bindings = vec![binding("gr\u{fc}\u{df}e", 1)];
    assert_eq!(find_binding(&bindings, "gr\u{fc}\u{df}e".as_bytes()), Some(0));
    assert_eq!(find_binding(&bindings, b"gr\xfc\xdfe"), None);
}

#[test]
fn byte_strings_are_equal_when_all_bytes_are() {
    assert!(bytes_equal(b"", b""));
    assert!(bytes_equal(b"abc", b"abc"));
    assert!(!bytes_equal(b"abc", b"abd"));
    assert!(!bytes_equal(b"abc", b"ab"));
    assert!(!bytes_equal(b"ab", b"abc"));
}
