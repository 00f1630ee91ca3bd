use vstd::prelude::*;
use vstd::utf8::*;

use crate::codec::is_text;

verus! {

/// Printable ASCII bytes are well-formed text: each byte is its own
/// one-byte scalar, and none is the terminator.
pub proof fn lemma_ascii_text(s: Seq<u8>)
    requires
        forall|i: int| 0 <= i < s.len() ==> 0 < #[trigger] s[i] < 0x80,
    ensures
        is_text(s),
{
    assert(valid_utf8(s.subrange(0, 0)));
    assert(partial_valid_utf8(s, 0));
    partial_valid_utf8_extend_ascii_block(s, 0, s.len() as int);
    assert(s.subrange(0, s.len() as int) =~= s);
}

/// Well-formed text concatenates to well-formed text.
pub proof fn lemma_text_concat(a: Seq<u8>, b: Seq<u8>)
    requires
        is_text(a),
        is_text(b),
    ensures
        is_text(a + b),
{
    valid_utf8_concat(a, b);
    assert forall|i: int| 0 <= i < (a + b).len() implies (a + b)[i] != 0u8 by {
        if i < a.len() {
            assert((a + b)[i] == a[i]);
        } else {
            assert((a + b)[i] == b[i - a.len()]);
        }
    };
}

/// The bytes of `"Hello, "`.
pub open spec fn hello_prefix() -> Seq<u8> {
    seq![72u8, 101u8, 108u8, 108u8, 111u8, 44u8, 32u8]
}

/// The bytes of `"Hello from Rust!"`.
pub open spec fn rust_greeting() -> Seq<u8> {
    seq![
        72u8,
        101u8,
        108u8,
        108u8,
        111u8,
        32u8,
        102u8,
        114u8,
        111u8,
        109u8,
        32u8,
        82u8,
        117u8,
        115u8,
        116u8,
        33u8,
    ]
}

/// The bytes of `"Hello there!"`.
pub open spec fn hello_there() -> Seq<u8> {
    seq![72u8, 101u8, 108u8, 108u8, 111u8, 32u8, 116u8, 104u8, 101u8, 114u8, 101u8, 33u8]
}

/// The bytes of `"Hello!"`.
pub open spec fn first_greeting() -> Seq<u8> {
    seq![72u8, 101u8, 108u8, 108u8, 111u8, 33u8]
}

/// The bytes of `"Hello again!"`.
pub open spec fn second_greeting() -> Seq<u8> {
    seq![72u8, 101u8, 108u8, 108u8, 111u8, 32u8, 97u8, 103u8, 97u8, 105u8, 110u8, 33u8]
}

/// The bytes of `"Hello from Rust, "`.
pub open spec fn console_prefix() -> Seq<u8> {
    seq![
        72u8,
        101u8,
        108u8,
        108u8,
        111u8,
        32u8,
        102u8,
        114u8,
        111u8,
        109u8,
        32u8,
        82u8,
        117u8,
        115u8,
        116u8,
        44u8,
        32u8,
    ]
}

/// The bytes of `"Greeting number "`.
pub open spec fn number_prefix() -> Seq<u8> {
    seq![
        71u8,
        114u8,
        101u8,
        101u8,
        116u8,
        105u8,
        110u8,
        103u8,
        32u8,
        110u8,
        117u8,
        109u8,
        98u8,
        101u8,
        114u8,
        32u8,
    ]
}

/// The bytes of `" for "`.
pub open spec fn for_infix() -> Seq<u8> {
    seq![32u8, 102u8, 111u8, 114u8, 32u8]
}

/// The message `"Hello, {name}!"`.
pub open spec fn greeting_message(name: Seq<u8>) -> Seq<u8> {
    hello_prefix() + name + seq![33u8]
}

/// The message `"Hello, {first} {last}!"`.
pub open spec fn person_greeting_message(first: Seq<u8>, last: Seq<u8>) -> Seq<u8> {
    hello_prefix() + first + seq![32u8] + last + seq![33u8]
}

/// The message `"Hello from Rust, {name}"`, as printed on the console.
pub open spec fn console_message(name: Seq<u8>) -> Seq<u8> {
    console_prefix() + name
}

/// Well-formed messages come out of well-formed names.
pub proof fn lemma_greeting_message_text(name: Seq<u8>)
    requires
        is_text(name),
    ensures
        is_text(greeting_message(name)),
{
    lemma_ascii_text(hello_prefix());
    lemma_ascii_text(seq![33u8]);
    lemma_text_concat(hello_prefix(), name);
    lemma_text_concat(hello_prefix() + name, seq![33u8]);
}

pub proof fn lemma_person_greeting_message_text(first: Seq<u8>, last: Seq<u8>)
    requires
        is_text(first),
        is_text(last),
    ensures
        is_text(person_greeting_message(first, last)),
{
    lemma_ascii_text(hello_prefix());
    lemma_ascii_text(seq![32u8]);
    lemma_ascii_text(seq![33u8]);
    lemma_text_concat(hello_prefix(), first);
    lemma_text_concat(hello_prefix() + first, seq![32u8]);
    lemma_text_concat(hello_prefix() + first + seq![32u8], last);
    lemma_text_concat(hello_prefix() + first + seq![32u8] + last, seq![33u8]);
}

pub proof fn lemma_console_message_text(name: Seq<u8>)
    requires
        is_text(name),
    ensures
        is_text(console_message(name)),
{
    lemma_ascii_text(console_prefix());
    lemma_text_concat(console_prefix(), name);
}

/// Builds `"Hello, {name}!"`.
pub fn build_greeting_message(name: &Vec<u8>) -> (msg: Vec<u8>)
    requires
        is_text(name@),
    ensures
        msg@ == greeting_message(name@),
        is_text(msg@),
{
    let mut msg: Vec<u8> = vec![72u8, 101u8, 108u8, 108u8, 111u8, 44u8, 32u8];
    msg.extend_from_slice(name.as_slice());
    msg.push(33);
    proof {
        assert(msg@ =~= greeting_message(name@));
        lemma_greeting_message_text(name@);
    }
    msg
}

/// Builds `"Hello, {first} {last}!"`.
pub fn build_person_greeting_message(first: &Vec<u8>, last: &Vec<u8>) -> (msg: Vec<u8>)
    requires
        is_text(first@),
        is_text(last@),
    ensures
        msg@ == person_greeting_message(first@, last@),
        is_text(msg@),
{
    let mut msg: Vec<u8> = vec![72u8, 101u8, 108u8, 108u8, 111u8, 44u8, 32u8];
    msg.extend_from_slice(first.as_slice());
    msg.push(32);
    msg.extend_from_slice(last.as_slice());
    msg.push(33);
    proof {
        assert(msg@ =~= person_greeting_message(first@, last@));
        lemma_person_greeting_message_text(first@, last@);
    }
    msg
}

/// Builds `"Hello from Rust, {name}"`.
pub fn build_console_message(name: &Vec<u8>) -> (msg: Vec<u8>)
    requires
        is_text(name@),
    ensures
        msg@ == console_message(name@),
        is_text(msg@),
{
    let mut msg: Vec<u8> = vec![
        72u8,
        101u8,
        108u8,
        108u8,
        111u8,
        32u8,
        102u8,
        114u8,
        111u8,
        109u8,
        32u8,
        82u8,
        117u8,
        115u8,
        116u8,
        44u8,
        32u8,
    ];
    msg.extend_from_slice(name.as_slice());
    proof {
        assert(msg@ =~= console_message(name@));
        lemma_console_message_text(name@);
    }
    msg
}

/// Builds `"Hello from Rust!"`.
pub fn build_rust_greeting() -> (msg: Vec<u8>)
    ensures
        msg@ == rust_greeting(),
        is_text(msg@),
{
    let msg: Vec<u8> = vec![
        72u8,
        101u8,
        108u8,
        108u8,
        111u8,
        32u8,
        102u8,
        114u8,
        111u8,
        109u8,
        32u8,
        82u8,
        117u8,
        115u8,
        116u8,
        33u8,
    ];
    proof {
        assert(msg@ =~= rust_greeting());
        lemma_ascii_text(rust_greeting());
    }
    msg
}

/// Builds `"Hello there!"`.
pub fn build_hello_there() -> (msg: Vec<u8>)
    ensures
        msg@ == hello_there(),
        is_text(msg@),
{
    let msg: Vec<u8> = vec![
        72u8,
        101u8,
        108u8,
        108u8,
        111u8,
        32u8,
        116u8,
        104u8,
        101u8,
        114u8,
        101u8,
        33u8,
    ];
    proof {
        assert(msg@ =~= hello_there());
        lemma_ascii_text(hello_there());
    }
    msg
}

/// Builds `"Hello!"`.
pub fn build_first_greeting() -> (msg: Vec<u8>)
    ensures
        msg@ == first_greeting(),
        is_text(msg@),
{
    let msg: Vec<u8> = vec![72u8, 101u8, 108u8, 108u8, 111u8, 33u8];
    proof {
        assert(msg@ =~= first_greeting());
        lemma_ascii_text(first_greeting());
    }
    msg
}

/// Builds `"Hello again!"`.
pub fn build_second_greeting() -> (msg: Vec<u8>)
    ensures
        msg@ == second_greeting(),
        is_text(msg@),
{
    let msg: Vec<u8> = vec![
        72u8,
        101u8,
        108u8,
        108u8,
        111u8,
        32u8,
        97u8,
        103u8,
        97u8,
        105u8,
        110u8,
        33u8,
    ];
    proof {
        assert(msg@ =~= second_greeting());
        lemma_ascii_text(second_greeting());
    }
    msg
}

} // verus!
