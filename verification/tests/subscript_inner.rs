use cubek_einsum::notation::{Subscript};

#[test]
fn test_subscript_from_chars() {
    let sub = Subscript::from_chars(&['i', 'j', 'k']);
    assert_eq!(sub.len(), 3);
    assert_eq!(sub.explicit_count(), 3);
    assert!(!sub.has_ellipsis());
    assert!(sub.contains('i'));
    assert!(sub.contains('j'));
    assert!(sub.contains('k'));
    assert!(!sub.contains('x'));
}

#[test]
fn test_subscript_with_ellipsis() {
    let mut sub = Subscript::new();
    sub.push_ellipsis();
    sub.push_named('i');
    sub.push_named('j');

    assert_eq!(sub.len(), 3);
    assert_eq!(sub.explicit_count(), 2);
    assert!(sub.has_ellipsis());
    assert_eq!(sub.ellipsis_position(), Some(0));
}

#[test]
fn test_expand_ellipsis() {
    let mut sub = Subscript::new();
    sub.push_ellipsis();
    sub.push_named('i');
    sub.push_named('j');

    let expanded = sub.expand_ellipsis(&['a', 'b']);
    assert_eq!(expanded.len(), 4);
    assert!(!expanded.has_ellipsis());
    assert!(expanded.contains('a'));
    assert!(expanded.contains('b'));
    assert!(expanded.contains('i'));
    assert!(expanded.contains('j'));
}

#[test]
fn test_subscript_count() {
    let sub = Subscript::from_chars(&['i', 'i', 'j']);
    assert_eq!(sub.count('i'), 2);
    assert_eq!(sub.count('j'), 1);
    assert_eq!(sub.count('k'), 0);
}
