use greetings::codec::{decode, encode};
use greetings::error::BoundaryError;
use greetings::greetings::{
    get_greeting_by_value, release_greeting, release_greeting_set, render_greetings, Greeting,
    GreetingSet,
};
use greetings::registry::Registry;

#[test]
fn release_of_live_allocation_succeeds() {
    let mut reg = Registry::new();
    let h = encode(&mut reg, &b"owned".to_vec());
    assert_eq!(reg.release(h), Ok(()));
}

#[test]
fn double_release_is_rejected() {
    let mut reg = Registry::new();
    let h = encode(&mut reg, &b"owned".to_vec());
    assert_eq!(reg.release(h), Ok(()));
    assert_eq!(reg.release(h), Err(BoundaryError::DoubleRelease));
}

#[test]
fn released_allocation_is_not_accessible() {
    let mut reg = Registry::new();
    let h = encode(&mut reg, &b"owned".to_vec());
    reg.release(h).unwrap();
    assert!(reg.read(h).is_err());
}

#[test]
fn release_of_null_handle_is_rejected() {
    let mut reg = Registry::new();
    assert_eq!(reg.release(0), Err(BoundaryError::NullPointer));
}

#[test]
fn release_of_unknown_handle_is_rejected() {
    let mut reg = Registry::new();
    assert_eq!(reg.release(42), Err(BoundaryError::DoubleRelease));
}

#[test]
fn release_greeting_consumes_the_transferred_value() {
    let mut reg = Registry::new();
    let g = get_greeting_by_value(&mut reg);
    let h = g.text;
    assert_eq!(release_greeting(&mut reg, g), Ok(()));
    assert_eq!(decode(&reg, h), Err(BoundaryError::UseAfterRelease));
}

#[test]
fn release_greeting_twice_is_rejected() {
    let mut reg = Registry::new();
    let g = get_greeting_by_value(&mut reg);
    let forged = Greeting { text: g.text };
    assert_eq!(release_greeting(&mut reg, g), Ok(()));
    assert_eq!(
        release_greeting(&mut reg, forged),
        Err(BoundaryError::DoubleRelease)
    );
}

#[test]
fn release_greeting_set_frees_every_entry() {
    let mut reg = Registry::new();
    let set = render_greetings(&mut reg);
    let h1 = set.greetings[0].text;
    let h2 = set.greetings[1].text;
    assert_eq!(release_greeting_set(&mut reg, set), Ok(()));
    assert_eq!(decode(&reg, h1), Err(BoundaryError::UseAfterRelease));
    assert_eq!(decode(&reg, h2), Err(BoundaryError::UseAfterRelease));
}

#[test]
fn release_greeting_set_with_duplicate_handle_is_rejected() {
    let mut reg = Registry::new();
    let g = get_greeting_by_value(&mut reg);
    let h = g.text;
    let set = GreetingSet {
        greetings: vec![Greeting { text: h }, Greeting { text: h }],
        count: 2,
    };
    assert_eq!(
        release_greeting_set(&mut reg, set),
        Err(BoundaryError::DoubleRelease)
    );
    // The first occurrence was released before the duplicate was caught.
    assert_eq!(decode(&reg, h), Err(BoundaryError::UseAfterRelease));
    drop(g);
}

#[test]
fn release_leaves_other_allocations_untouched() {
    let mut reg = Registry::new();
    let keep = encode(&mut reg, &b"keep".to_vec());
    let set = render_greetings(&mut reg);
    release_greeting_set(&mut reg, set).unwrap();
    assert_eq!(decode(&reg, keep).unwrap(), b"keep".to_vec());
}

#[test]
fn borrowed_input_is_not_released_by_the_callee() {
    let mut reg = Registry::new();
    let name = encode(&mut reg, &b"World".to_vec());
    let rendered = greetings::greetings::render_greeting(&mut reg, name).unwrap();
    // The borrowed name is still live and unchanged afterwards.
    assert_eq!(decode(&reg, name).unwrap(), b"World".to_vec());
    assert_ne!(rendered, name);
}
