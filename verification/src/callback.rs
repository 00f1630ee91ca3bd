use vstd::prelude::*;

use crate::codec::encode;
use crate::greetings::{release_all, release_greeting_set, render_greetings, GreetingSet};
use crate::messages::{build_hello_there, first_greeting, hello_there, second_greeting};
use crate::registry::{live, released, value_of, Registry};

verus! {

/// Invokes `callback` exactly once, synchronously, with a borrowed pointer
/// to a fresh null-terminated string holding `"Hello there!"`.
///
/// Borrow-for-call: the string is valid for the duration of the
/// invocation only — the contract shows it live, with that content, in the
/// registry the callback sees — and the native side releases it as soon as
/// the callback returns, which is why the slot is already empty in the
/// final registry. The callback must not retain the pointer. No timeout
/// guards the invocation: a callback that never returns stalls this call
/// forever.
pub fn call_me_back<F: FnOnce(&Registry, u64)>(reg: &mut Registry, callback: F)
    requires
        forall|m: Registry, h: u64|
            live(m@, h) && value_of(m@, h) == hello_there() ==> #[trigger] call_requires(
                callback,
                (&m, h),
            ),
    ensures
        final(reg)@ == old(reg)@.push(None),
        exists|m: Registry|
            m@ == old(reg)@.push(Some(hello_there())) && #[trigger] call_ensures(
                callback,
                (&m, (old(reg)@.len() + 1) as u64),
                (),
            ),
{
    let msg = build_hello_there();
    let h = encode(reg, &msg);
    let ghost snapshot = *reg;
    callback(&*reg, h);
    let r = reg.release(h);
    proof {
        assert(r is Ok);
        assert(final(reg)@ =~= old(reg)@.push(None));
        assert(snapshot@ == old(reg)@.push(Some(hello_there())));
        assert(h == (old(reg)@.len() + 1) as u64);
        assert(call_ensures(callback, (&snapshot, (old(reg)@.len() + 1) as u64), ()));
    }
}

/// Builds an owned set of two greetings, `"Hello!"` and `"Hello again!"`,
/// and lets `callback` borrow it for the duration of the call.
///
/// Borrow-for-call: the set and its strings are live, with those contents,
/// in the registry the callback sees; once the callback returns, the
/// native side hands the whole set to the release entry point, so both
/// slots are already empty in the final registry. The callback must retain
/// neither the set nor its text pointers.
pub fn send_greetings<F: FnOnce(&Registry, &GreetingSet)>(reg: &mut Registry, callback: F)
    requires
        forall|m: Registry, s: GreetingSet|
            {
                &&& m@ == old(reg)@.push(Some(first_greeting())).push(Some(second_greeting()))
                &&& s.wf()
                &&& s.greetings@.len() == 2
                &&& live(m@, s.greetings@[0].text)
                &&& value_of(m@, s.greetings@[0].text) == first_greeting()
                &&& live(m@, s.greetings@[1].text)
                &&& value_of(m@, s.greetings@[1].text) == second_greeting()
            } ==> #[trigger] call_requires(callback, (&m, &s)),
    ensures
        final(reg)@ == old(reg)@.push(None).push(None),
        exists|m: Registry, s: GreetingSet|
            {
                &&& m@ == old(reg)@.push(Some(first_greeting())).push(Some(second_greeting()))
                &&& s.wf()
                &&& s.greetings@.len() == 2
                &&& live(m@, s.greetings@[0].text)
                &&& value_of(m@, s.greetings@[0].text) == first_greeting()
                &&& live(m@, s.greetings@[1].text)
                &&& value_of(m@, s.greetings@[1].text) == second_greeting()
                &&& #[trigger] call_ensures(callback, (&m, &s), ())
            },
{
    let set = render_greetings(reg);
    let ghost snapshot = *reg;
    let ghost set_snapshot = set;
    let ghost h1 = set.greetings@[0].text;
    let ghost h2 = set.greetings@[1].text;
    callback(&*reg, &set);
    proof {
        assert(call_ensures(callback, (&snapshot, &set_snapshot), ()));
        assert(set.handles() =~= seq![h1, h2]);
    }
    let r = release_greeting_set(reg, set);
    proof {
        let m0 = snapshot@;
        let m1 = released(m0, h1);
        let m2 = released(m1, h2);
        assert(seq![h1, h2].drop_first() =~= seq![h2]);
        assert(seq![h2].drop_first() =~= Seq::<u64>::empty());
        assert(h1 != 0 && live(m0, h1));
        assert(release_all(m0, seq![h1, h2]) == release_all(m1, seq![h2]));
        assert(h2 != 0 && live(m1, h2));
        assert(release_all(m1, seq![h2]) == release_all(m2, Seq::<u64>::empty()));
        assert(final(reg)@ == m2);
        assert(m2 =~= old(reg)@.push(None).push(None));
    }
}

} // verus!
