use greetings::codec::{decode, encode};
use greetings::error::BoundaryError;
use greetings::greetings::release_greeting_set;
use greetings::parallel::{
    assemble_greeting_set, render_greetings_in_parallel, render_task_message, Collector,
};
use greetings::registry::Registry;

#[test]
fn three_greetings_for_alice_cover_every_index_once() {
    let mut reg = Registry::new();
    let name = encode(&mut reg, &b"Alice".to_vec());
    let set = render_greetings_in_parallel(&mut reg, 3, name).unwrap();
    assert_eq!(set.count, 3);
    assert_eq!(
        decode(&reg, set.greetings[0].text).unwrap(),
        b"Greeting number 0 for Alice".to_vec()
    );
    assert_eq!(
        decode(&reg, set.greetings[1].text).unwrap(),
        b"Greeting number 1 for Alice".to_vec()
    );
    assert_eq!(
        decode(&reg, set.greetings[2].text).unwrap(),
        b"Greeting number 2 for Alice".to_vec()
    );
}

#[test]
fn zero_greetings_make_an_empty_set() {
    let mut reg = Registry::new();
    let name = encode(&mut reg, &b"Alice".to_vec());
    let set = render_greetings_in_parallel(&mut reg, 0, name).unwrap();
    assert_eq!(set.count, 0);
    assert!(set.greetings.is_empty());
}

#[test]
fn parallel_generation_of_null_name_fails() {
    let mut reg = Registry::new();
    let r = render_greetings_in_parallel(&mut reg, 3, 0);
    assert!(matches!(r, Err(BoundaryError::NullPointer)));
}

#[test]
fn parallel_set_can_be_released_as_a_unit() {
    let mut reg = Registry::new();
    let name = encode(&mut reg, &b"Alice".to_vec());
    let set = render_greetings_in_parallel(&mut reg, 3, name).unwrap();
    assert_eq!(release_greeting_set(&mut reg, set), Ok(()));
    // The borrowed name survives the release of the transferred set.
    assert_eq!(decode(&reg, name).unwrap(), b"Alice".to_vec());
}

#[test]
fn task_message_renders_multi_digit_indices() {
    let msg = render_task_message(12, &b"Bob".to_vec());
    assert_eq!(msg, b"Greeting number 12 for Bob".to_vec());
}

#[test]
fn task_message_renders_index_zero() {
    let msg = render_task_message(0, &b"Bob".to_vec());
    assert_eq!(msg, b"Greeting number 0 for Bob".to_vec());
}

#[test]
fn collector_orders_results_by_index_not_arrival() {
    let mut c = Collector::new(3);
    assert_eq!(c.accept(2, b"two".to_vec()), Ok(()));
    assert_eq!(c.accept(0, b"zero".to_vec()), Ok(()));
    assert_eq!(c.accept(1, b"one".to_vec()), Ok(()));
    assert!(c.is_complete());
    let texts = c.into_texts().unwrap();
    assert_eq!(
        texts,
        vec![b"zero".to_vec(), b"one".to_vec(), b"two".to_vec()]
    );
}

#[test]
fn collector_rejects_a_second_result_for_the_same_task() {
    let mut c = Collector::new(2);
    assert_eq!(c.accept(1, b"first".to_vec()), Ok(()));
    assert_eq!(
        c.accept(1, b"second".to_vec()),
        Err(BoundaryError::TaskFailure)
    );
}

#[test]
fn collector_rejects_an_unknown_index() {
    let mut c = Collector::new(2);
    assert_eq!(c.accept(2, b"late".to_vec()), Err(BoundaryError::TaskFailure));
}

#[test]
fn incomplete_collection_cannot_be_finished() {
    let mut c = Collector::new(2);
    c.accept(0, b"only".to_vec()).unwrap();
    assert!(!c.is_complete());
    assert_eq!(c.into_texts(), Err(BoundaryError::TaskFailure));
}

#[test]
fn assemble_rejects_a_malformed_text_and_allocates_nothing() {
    let mut reg = Registry::new();
    let texts = vec![b"fine".to_vec(), vec![0xff]];
    let r = assemble_greeting_set(&mut reg, &texts);
    assert!(matches!(r, Err(BoundaryError::InvalidEncoding)));
    // Nothing was allocated: the first handle is still unknown.
    assert_eq!(decode(&reg, 1), Err(BoundaryError::UseAfterRelease));
}

#[test]
fn assemble_builds_the_set_in_text_order() {
    let mut reg = Registry::new();
    let texts = vec![b"a".to_vec(), b"b".to_vec()];
    let set = assemble_greeting_set(&mut reg, &texts).unwrap();
    assert_eq!(set.count, 2);
    assert_eq!(decode(&reg, set.greetings[0].text).unwrap(), b"a".to_vec());
    assert_eq!(decode(&reg, set.greetings[1].text).unwrap(), b"b".to_vec());
}
