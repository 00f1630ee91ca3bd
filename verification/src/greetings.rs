use vstd::prelude::*;

use crate::codec::{decode, encode, spec_decode};
use crate::error::BoundaryError;
use crate::messages::{
    build_console_message, build_first_greeting, build_greeting_message,
    build_person_greeting_message, build_rust_greeting, build_second_greeting, console_message,
    first_greeting, greeting_message, person_greeting_message, rust_greeting, second_greeting,
};
use crate::registry::{live, released, value_of, Registry};

verus! {

/// One greeting crossing the boundary: a pointer to the start of its
/// null-terminated text. Deliberately not copyable, so that an owned
/// greeting has exactly one holder on this side of the boundary.
pub struct Greeting {
    pub text: u64,
}

/// An owned contiguous sequence of greetings plus its explicit count,
/// released as one unit.
pub struct GreetingSet {
    pub greetings: Vec<Greeting>,
    pub count: u32,
}

impl GreetingSet {
    /// The explicit count always equals the length of the sequence.
    pub open spec fn wf(self) -> bool {
        self.count == self.greetings@.len()
    }

    /// The text handles of the set's greetings, in order.
    pub open spec fn handles(self) -> Seq<u64> {
        self.greetings@.map_values(|g: Greeting| g.text)
    }
}

/// A person whose names are both borrowed from the caller: their storage
/// stays owned by the caller and is valid only for the call that passes
/// the value, so nothing here retains or releases it.
pub struct Person {
    pub first_name: u64,
    pub last_name: u64,
}

/// Renders `"Hello, {name}!"` for the borrowed name and returns the
/// handle of a fresh owned allocation holding it; ownership of that
/// allocation transfers to the caller. The borrowed name itself is left
/// untouched, as is every other existing allocation.
pub fn render_greeting(reg: &mut Registry, name: u64) -> (r: Result<u64, BoundaryError>)
    ensures
        match r {
            Ok(h) => {
                &&& spec_decode(old(reg)@, name) is Ok
                &&& final(reg)@ == old(reg)@.push(
                    Some(greeting_message(spec_decode(old(reg)@, name)->Ok_0)),
                )
                &&& h as int == old(reg)@.len() + 1
            },
            Err(e) => {
                &&& final(reg)@ == old(reg)@
                &&& spec_decode(old(reg)@, name) == Err::<Seq<u8>, BoundaryError>(e)
            },
        },
{
    let text = match decode(reg, name) {
        Ok(t) => t,
        Err(e) => {
            return Err(e);
        },
    };
    let msg = build_greeting_message(&text);
    Ok(encode(reg, &msg))
}

/// Renders `"Hello, {first} {last}!"` for a borrowed person and returns
/// the handle of a fresh owned allocation holding it; ownership transfers
/// to the caller. Fails with the first name's failure, then the last's.
pub fn greet(reg: &mut Registry, person: &Person) -> (r: Result<u64, BoundaryError>)
    ensures
        match r {
            Ok(h) => {
                &&& spec_decode(old(reg)@, person.first_name) is Ok
                &&& spec_decode(old(reg)@, person.last_name) is Ok
                &&& final(reg)@ == old(reg)@.push(
                    Some(
                        person_greeting_message(
                            spec_decode(old(reg)@, person.first_name)->Ok_0,
                            spec_decode(old(reg)@, person.last_name)->Ok_0,
                        ),
                    ),
                )
                &&& h as int == old(reg)@.len() + 1
            },
            Err(e) => {
                &&& final(reg)@ == old(reg)@
                &&& if spec_decode(old(reg)@, person.first_name) is Err {
                    spec_decode(old(reg)@, person.first_name) == Err::<Seq<u8>, BoundaryError>(e)
                } else {
                    spec_decode(old(reg)@, person.last_name) == Err::<Seq<u8>, BoundaryError>(e)
                }
            },
        },
{
    let first = match decode(reg, person.first_name) {
        Ok(t) => t,
        Err(e) => {
            return Err(e);
        },
    };
    let last = match decode(reg, person.last_name) {
        Ok(t) => t,
        Err(e) => {
            return Err(e);
        },
    };
    let msg = build_person_greeting_message(&first, &last);
    Ok(encode(reg, &msg))
}

/// Renders `"Hello from Rust, {name}"`, the text that the console entry
/// point prints; the caller does the printing. Nothing is allocated: the
/// rendered text is handed back by value.
pub fn render_console_greeting(reg: &Registry, name: u64) -> (r: Result<Vec<u8>, BoundaryError>)
    ensures
        match r {
            Ok(t) => {
                &&& spec_decode(reg@, name) is Ok
                &&& t@ == console_message(spec_decode(reg@, name)->Ok_0)
            },
            Err(e) => spec_decode(reg@, name) == Err::<Seq<u8>, BoundaryError>(e),
        },
{
    let text = match decode(reg, name) {
        Ok(t) => t,
        Err(e) => {
            return Err(e);
        },
    };
    Ok(build_console_message(&text))
}

/// Returns a greeting holding `"Hello from Rust!"` by value; the text is a
/// fresh owned allocation whose ownership transfers to the caller.
pub fn get_greeting_by_value(reg: &mut Registry) -> (g: Greeting)
    ensures
        final(reg)@ == old(reg)@.push(Some(rust_greeting())),
        g.text as int == old(reg)@.len() + 1,
        live(final(reg)@, g.text),
        value_of(final(reg)@, g.text) == rust_greeting(),
{
    let msg = build_rust_greeting();
    let h = encode(reg, &msg);
    Greeting { text: h }
}

/// Returns the same greeting as `get_greeting_by_value`, but behind an
/// owned pointer; both the pointer and the text it reaches transfer to the
/// caller.
pub fn get_greeting_by_reference(reg: &mut Registry) -> (g: Box<Greeting>)
    ensures
        final(reg)@ == old(reg)@.push(Some(rust_greeting())),
        g.text as int == old(reg)@.len() + 1,
        live(final(reg)@, g.text),
        value_of(final(reg)@, g.text) == rust_greeting(),
{
    let msg = build_rust_greeting();
    let h = encode(reg, &msg);
    Box::new(Greeting { text: h })
}

/// Returns an owned set of two greetings, `"Hello!"` and
/// `"Hello again!"`; ownership of the whole set transfers to the caller.
pub fn render_greetings(reg: &mut Registry) -> (set: GreetingSet)
    ensures
        set.wf(),
        set.greetings@.len() == 2,
        final(reg)@ == old(reg)@.push(Some(first_greeting())).push(Some(second_greeting())),
        set.greetings@[0].text as int == old(reg)@.len() + 1,
        set.greetings@[1].text as int == old(reg)@.len() + 2,
{
    let m1 = build_first_greeting();
    let h1 = encode(reg, &m1);
    let m2 = build_second_greeting();
    let h2 = encode(reg, &m2);
    let mut greetings: Vec<Greeting> = Vec::new();
    greetings.push(Greeting { text: h1 });
    greetings.push(Greeting { text: h2 });
    GreetingSet { greetings, count: 2 }
}

/// Hands an owned greeting back for cleanup. The single sanctioned way for
/// the receiving side to release a greeting obtained with
/// transfer-to-caller ownership; a second release of the same greeting is
/// rejected as a double release.
pub fn release_greeting(reg: &mut Registry, g: Greeting) -> (r: Result<(), BoundaryError>)
    ensures
        match r {
            Ok(()) => live(old(reg)@, g.text) && final(reg)@ == released(old(reg)@, g.text),
            Err(e) => {
                &&& final(reg)@ == old(reg)@
                &&& !live(old(reg)@, g.text)
                &&& e == (if g.text == 0 {
                    BoundaryError::NullPointer
                } else {
                    BoundaryError::DoubleRelease
                })
            },
        },
{
    reg.release(g.text)
}

/// The registry and outcome after releasing each handle in turn, stopping
/// at the first handle that is null or no longer live.
pub open spec fn release_all(m: Seq<Option<Seq<u8>>>, hs: Seq<u64>) -> (
    Seq<Option<Seq<u8>>>,
    Result<(), BoundaryError>,
)
    decreases hs.len(),
{
    if hs.len() == 0 {
        (m, Ok(()))
    } else if hs[0] == 0 {
        (m, Err(BoundaryError::NullPointer))
    } else if !live(m, hs[0]) {
        (m, Err(BoundaryError::DoubleRelease))
    } else {
        release_all(released(m, hs[0]), hs.drop_first())
    }
}

/// Hands an owned greeting set back for cleanup: releases the text of each
/// greeting in the set, in order, and stops at the first failure. The
/// single sanctioned way for the receiving side to release a set obtained
/// with transfer-to-caller ownership.
pub fn release_greeting_set(reg: &mut Registry, set: GreetingSet) -> (r: Result<
    (),
    BoundaryError,
>)
    ensures
        (final(reg)@, r) == release_all(old(reg)@, set.handles()),
{
    let ghost handles = set.handles();
    let mut i: usize = 0;
    let n = set.greetings.len();
    proof {
        assert(handles.len() == n);
        assert(handles.skip(0) =~= handles);
    }
    while i < n
        invariant
            i <= n,
            n == set.greetings@.len(),
            handles.len() == n,
            forall|j: int| 0 <= j < n ==> handles[j] == set.greetings@[j].text,
            release_all(old(reg)@, handles) == release_all(reg@, handles.skip(i as int)),
        decreases n - i,
    {
        let ghost rest = handles.skip(i as int);
        proof {
            assert(rest[0] == handles[i as int]);
            assert(rest.drop_first() =~= handles.skip(i as int + 1));
        }
        let g = &set.greetings[i];
        match reg.release(g.text) {
            Ok(()) => {},
            Err(e) => {
                proof {
                    assert(release_all(reg@, rest) == (reg@, Err::<(), BoundaryError>(e)));
                    assert(release_all(old(reg)@, handles) == (reg@, Err::<(), BoundaryError>(e)));
                    assert(set.handles() =~= handles);
                }
                return Err(e);
            },
        }
        i = i + 1;
    }
    proof {
        assert(handles.skip(n as int) =~= Seq::<u64>::empty());
        assert(release_all(reg@, handles.skip(n as int)) == (reg@, Ok::<(), BoundaryError>(())));
    }
    Ok(())
}

/// Ownership law for whole sets: when every handle in the set is live and
/// no two are the same allocation, releasing the set succeeds, poisons
/// every one of its handles, and leaves every other allocation untouched.
pub proof fn lemma_release_all_ok(m: Seq<Option<Seq<u8>>>, hs: Seq<u64>)
    requires
        forall|i: int| 0 <= i < hs.len() ==> live(m, #[trigger] hs[i]),
        forall|i: int, j: int| 0 <= i < j < hs.len() ==> hs[i] != hs[j],
    ensures
        release_all(m, hs).1 == Ok::<(), BoundaryError>(()),
        release_all(m, hs).0.len() == m.len(),
        forall|i: int| 0 <= i < hs.len() ==> !live(release_all(m, hs).0, #[trigger] hs[i]),
        forall|g: u64|
            live(m, g) && !hs.contains(g) ==> live(#[trigger] release_all(m, hs).0, g)
                && value_of(release_all(m, hs).0, g) == value_of(m, g),
        forall|g: u64| !live(m, g) ==> !live(#[trigger] release_all(m, hs).0, g),
    decreases hs.len(),
{
    if hs.len() > 0 {
        let h = hs[0];
        let m1 = released(m, h);
        assert forall|i: int| 0 <= i < hs.drop_first().len() implies live(
            m1,
            #[trigger] hs.drop_first()[i],
        ) by {
            assert(hs.drop_first()[i] == hs[i + 1]);
            assert(hs[i + 1] != h);
        }
        lemma_release_all_ok(m1, hs.drop_first());
        assert forall|i: int| 0 <= i < hs.len() implies !live(
            release_all(m, hs).0,
            #[trigger] hs[i],
        ) by {
            if i == 0 {
                assert(!live(m1, h));
                assert(!hs.drop_first().contains(h)) by {
                    if hs.drop_first().contains(h) {
                        let j = choose|j: int|
                            0 <= j < hs.drop_first().len() && hs.drop_first()[j] == h;
                        assert(hs[j + 1] == h);
                    }
                }
            } else {
                assert(hs.drop_first()[i - 1] == hs[i]);
            }
        }
        assert forall|g: u64| live(m, g) && !hs.contains(g) implies live(
            #[trigger] release_all(m, hs).0,
            g,
        ) && value_of(release_all(m, hs).0, g) == value_of(m, g) by {
            assert(g != h) by {
                assert(hs[0] == h);
            }
            assert(live(m1, g) && value_of(m1, g) == value_of(m, g));
            assert(!hs.drop_first().contains(g)) by {
                if hs.drop_first().contains(g) {
                    let j = choose|j: int|
                        0 <= j < hs.drop_first().len() && hs.drop_first()[j] == g;
                    assert(hs[j + 1] == g);
                }
            }
        }
        assert forall|g: u64| !live(m, g) implies !live(
            #[trigger] release_all(m, hs).0,
            g,
        ) by {
            assert(!live(m1, g));
        }
    }
}

} // verus!
