use verishare::pending::{
    cancel_transfer_by_id, register_cancel_token, remove_cancel_token, respond_to_transfer,
};
use verishare::registry::Registry;

fn id(s: &str) -> String {
    s.to_string()
}

#[test]
fn a_registry_holds_each_identifier_once() {
    let mut r: Registry<u32> = Registry::new();
    assert_eq!(r.len(), 0);
    assert_eq!(r.insert(id("a"), 1), None);
    assert_eq!(r.insert(id("b"), 2), None);
    assert_eq!(r.insert(id("a"), 3), Some(1));
    assert_eq!(r.len(), 2);
    assert!(r.contains(&id("a")) && r.contains(&id("b")) && !r.contains(&id("c")));
    let mut values: Vec<u32> = (0..r.len()).map(|i| *r.value_at(i)).collect();
    values.sort();
    assert_eq!(values, vec![2, 3]);
    assert_eq!(r.remove(&id("a")), Some(3));
    assert_eq!(r.remove(&id("a")), None);
    assert_eq!(r.len(), 1);
}

#[test]
fn a_registry_keeps_what_it_is_told_to() {
    let mut r: Registry<u32> = Registry::new();
    for n in 0..10u32 {
        r.insert(format!("{}", n), n);
    }
    r.retain(|v| v % 3 == 0);
    assert_eq!(r.len(), 4);
    for n in 0..10u32 {
        assert_eq!(r.contains(&format!("{}", n)), n % 3 == 0);
    }
    r.retain(|_| false);
    assert_eq!(r.len(), 0);
}

#[test]
fn a_registered_transfer_is_cancelled_once() {
    let mut pending: Registry<char> = Registry::new();
    let mut tokens: Registry<u8> = Registry::new();
    register_cancel_token(&mut tokens, &id("t1"), 7);
    register_cancel_token(&mut tokens, &id("t2"), 8);
    pending.insert(id("t1"), 'p');

    let c = cancel_transfer_by_id(&mut pending, &mut tokens, &id("t1"));
    assert_eq!((c.decline, c.notify), (Some('p'), Some(7)));
    let c = cancel_transfer_by_id(&mut pending, &mut tokens, &id("t1"));
    assert_eq!((c.decline, c.notify), (None, None));
    let c = cancel_transfer_by_id(&mut pending, &mut tokens, &id("t2"));
    assert_eq!((c.decline, c.notify), (None, Some(8)));
}

#[test]
fn a_token_that_was_removed_is_not_reached() {
    let mut pending: Registry<char> = Registry::new();
    let mut tokens: Registry<u8> = Registry::new();
    register_cancel_token(&mut tokens, &id("t"), 1);
    register_cancel_token(&mut tokens, &id("t"), 2);
    remove_cancel_token(&mut tokens, &id("other"));
    assert!(tokens.contains(&id("t")));
    remove_cancel_token(&mut tokens, &id("t"));
    let c = cancel_transfer_by_id(&mut pending, &mut tokens, &id("t"));
    assert_eq!((c.decline, c.notify), (None, None));
}

#[test]
fn a_request_is_answered_once() {
    let mut pending: Registry<char> = Registry::new();
    pending.insert(id("r"), 'x');
    assert_eq!(respond_to_transfer(&mut pending, &id("q")), None);
    assert_eq!(respond_to_transfer(&mut pending, &id("r")), Some('x'));
    assert_eq!(respond_to_transfer(&mut pending, &id("r")), None);
}
