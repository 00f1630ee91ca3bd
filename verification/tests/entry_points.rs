use greetings::codec::{decode, encode};
use greetings::error::BoundaryError;
use greetings::greetings::{
    get_greeting_by_reference, get_greeting_by_value, greet, render_console_greeting,
    render_greeting, render_greetings, Person,
};
use greetings::registry::Registry;

#[test]
fn render_greeting_for_world() {
    let mut reg = Registry::new();
    let name = encode(&mut reg, &b"World".to_vec());
    let h = render_greeting(&mut reg, name).unwrap();
    assert_eq!(decode(&reg, h).unwrap(), b"Hello, World!".to_vec());
}

#[test]
fn render_greeting_of_null_name_fails() {
    let mut reg = Registry::new();
    assert_eq!(
        render_greeting(&mut reg, 0),
        Err(BoundaryError::NullPointer)
    );
}

#[test]
fn render_greeting_of_invalid_name_fails() {
    let mut reg = Registry::new();
    let raw = greetings::codec::ByteString::from_bytes(vec![0xff]).unwrap();
    let name = reg.allocate(raw);
    assert_eq!(
        render_greeting(&mut reg, name),
        Err(BoundaryError::InvalidEncoding)
    );
}

#[test]
fn greet_jane_doe() {
    let mut reg = Registry::new();
    let first = encode(&mut reg, &b"Jane".to_vec());
    let last = encode(&mut reg, &b"Doe".to_vec());
    let person = Person { first_name: first, last_name: last };
    let h = greet(&mut reg, &person).unwrap();
    assert_eq!(decode(&reg, h).unwrap(), b"Hello, Jane Doe!".to_vec());
}

#[test]
fn greet_with_null_first_name_fails() {
    let mut reg = Registry::new();
    let last = encode(&mut reg, &b"Doe".to_vec());
    let person = Person { first_name: 0, last_name: last };
    assert_eq!(greet(&mut reg, &person), Err(BoundaryError::NullPointer));
}

#[test]
fn greeting_by_value_holds_the_rust_greeting() {
    let mut reg = Registry::new();
    let g = get_greeting_by_value(&mut reg);
    assert_eq!(decode(&reg, g.text).unwrap(), b"Hello from Rust!".to_vec());
}

#[test]
fn greeting_by_reference_holds_the_rust_greeting() {
    let mut reg = Registry::new();
    let g = get_greeting_by_reference(&mut reg);
    assert_eq!(decode(&reg, g.text).unwrap(), b"Hello from Rust!".to_vec());
}

#[test]
fn render_greetings_returns_both_texts_in_order() {
    let mut reg = Registry::new();
    let set = render_greetings(&mut reg);
    assert_eq!(set.count, 2);
    assert_eq!(
        decode(&reg, set.greetings[0].text).unwrap(),
        b"Hello!".to_vec()
    );
    assert_eq!(
        decode(&reg, set.greetings[1].text).unwrap(),
        b"Hello again!".to_vec()
    );
}

#[test]
fn console_greeting_for_world() {
    let mut reg = Registry::new();
    let name = encode(&mut reg, &b"World".to_vec());
    assert_eq!(
        render_console_greeting(&reg, name).unwrap(),
        b"Hello from Rust, World".to_vec()
    );
}

#[test]
fn console_greeting_of_null_name_fails() {
    let reg = Registry::new();
    assert_eq!(
        render_console_greeting(&reg, 0),
        Err(BoundaryError::NullPointer)
    );
}
