use greetings::greetings::{Greeting, GreetingSet, Person};
use greetings::layout::{
    read_greeting, read_greeting_set, read_person, write_greeting, write_greeting_set,
    write_person,
};

#[test]
fn greeting_layout_is_eight_little_endian_bytes() {
    let g = Greeting { text: 0x0102030405060708 };
    let b = write_greeting(&g);
    assert_eq!(b, vec![8, 7, 6, 5, 4, 3, 2, 1]);
}

#[test]
fn greeting_layout_round_trips() {
    let g = Greeting { text: 0xdeadbeefcafe };
    let b = write_greeting(&g);
    assert_eq!(read_greeting(&b).text, 0xdeadbeefcafe);
}

#[test]
fn person_layout_orders_first_name_then_last_name() {
    let p = Person { first_name: 1, last_name: 2 };
    let b = write_person(&p);
    assert_eq!(
        b,
        vec![1, 0, 0, 0, 0, 0, 0, 0, 2, 0, 0, 0, 0, 0, 0, 0]
    );
}

#[test]
fn person_layout_round_trips() {
    let p = Person { first_name: 0xaabb, last_name: 0xccdd };
    let b = write_person(&p);
    let back = read_person(&b);
    assert_eq!(back.first_name, 0xaabb);
    assert_eq!(back.last_name, 0xccdd);
}

#[test]
fn greeting_set_layout_starts_with_the_count() {
    let set = GreetingSet {
        greetings: vec![Greeting { text: 9 }, Greeting { text: 10 }],
        count: 2,
    };
    let b = write_greeting_set(&set);
    assert_eq!(b.len(), 4 + 8 * 2);
    assert_eq!(&b[0..4], &[2, 0, 0, 0]);
}

#[test]
fn greeting_set_layout_round_trips() {
    let set = GreetingSet {
        greetings: vec![
            Greeting { text: 3 },
            Greeting { text: 0x1122334455667788 },
            Greeting { text: 0 },
        ],
        count: 3,
    };
    let b = write_greeting_set(&set);
    let back = read_greeting_set(&b).unwrap();
    assert_eq!(back.count, 3);
    assert_eq!(back.greetings.len(), 3);
    assert_eq!(back.greetings[0].text, 3);
    assert_eq!(back.greetings[1].text, 0x1122334455667788);
    assert_eq!(back.greetings[2].text, 0);
}

#[test]
fn empty_greeting_set_layout_round_trips() {
    let set = GreetingSet { greetings: Vec::new(), count: 0 };
    let b = write_greeting_set(&set);
    assert_eq!(b, vec![0, 0, 0, 0]);
    let back = read_greeting_set(&b).unwrap();
    assert_eq!(back.count, 0);
    assert!(back.greetings.is_empty());
}

#[test]
fn greeting_set_layout_with_wrong_length_is_rejected() {
    // Announces two entries but carries bytes for one.
    let mut b = vec![2, 0, 0, 0];
    b.extend_from_slice(&[0; 8]);
    assert!(read_greeting_set(&b).is_none());
}

#[test]
fn greeting_set_layout_shorter_than_count_field_is_rejected() {
    assert!(read_greeting_set(&vec![1, 0]).is_none());
}
