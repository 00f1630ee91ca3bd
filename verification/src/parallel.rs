use vstd::prelude::*;

use crate::codec::{decode, encode, is_text, is_well_formed_text, spec_decode};
use crate::error::BoundaryError;
use crate::greetings::{Greeting, GreetingSet};
use crate::messages::{for_infix, lemma_ascii_text, lemma_text_concat, number_prefix};
use crate::registry::{live, value_of, Registry};

verus! {

/// The decimal digits of `n`, most significant first.
pub open spec fn dec_digits(n: nat) -> Seq<u8>
    decreases n,
{
    if n < 10 {
        seq![(48 + n) as u8]
    } else {
        dec_digits(n / 10) + seq![(48 + n % 10) as u8]
    }
}

/// Decimal digits are printable ASCII.
pub proof fn lemma_dec_digits_text(n: nat)
    ensures
        is_text(dec_digits(n)),
        forall|i: int| 0 <= i < dec_digits(n).len() ==> 48 <= #[trigger] dec_digits(n)[i] <= 57,
    decreases n,
{
    if n >= 10 {
        lemma_dec_digits_text(n / 10);
    }
    lemma_ascii_text(dec_digits(n));
}

/// The message `"Greeting number {i} for {name}"` that task `i` produces.
pub open spec fn task_message(i: nat, name: Seq<u8>) -> Seq<u8> {
    number_prefix() + dec_digits(i) + for_infix() + name
}

pub proof fn lemma_task_message_text(i: nat, name: Seq<u8>)
    requires
        is_text(name),
    ensures
        is_text(task_message(i, name)),
{
    lemma_ascii_text(number_prefix());
    lemma_dec_digits_text(i);
    lemma_ascii_text(for_infix());
    lemma_text_concat(number_prefix(), dec_digits(i));
    lemma_text_concat(number_prefix() + dec_digits(i), for_infix());
    lemma_text_concat(number_prefix() + dec_digits(i) + for_infix(), name);
}

/// Writes the decimal digits of `index` onto the end of `out`.
fn push_digits(out: &mut Vec<u8>, index: u32)
    ensures
        final(out)@ == old(out)@ + dec_digits(index as nat),
    decreases index,
{
    if index >= 10 {
        push_digits(out, index / 10);
    }
    let d = (index % 10) as u8;
    out.push(48 + d);
    proof {
        assert(final(out)@ =~= old(out)@ + dec_digits(index as nat));
    }
}

/// Renders the message of task `index` for the given name: the work one
/// independent background task does.
pub fn render_task_message(index: u32, name: &Vec<u8>) -> (msg: Vec<u8>)
    requires
        is_text(name@),
    ensures
        msg@ == task_message(index as nat, name@),
        is_text(msg@),
{
    let mut msg: Vec<u8> = vec![
        71u8,
        114u8,
        101u8,
        101u8,
        116u8,
        105u8,
        110u8,
        103u8,
        32u8,
        110u8,
        117u8,
        109u8,
        98u8,
        101u8,
        114u8,
        32u8,
    ];
    proof {
        assert(msg@ =~= number_prefix());
    }
    push_digits(&mut msg, index);
    msg.push(32);
    msg.push(102);
    msg.push(111);
    msg.push(114);
    msg.push(32);
    msg.extend_from_slice(name.as_slice());
    proof {
        assert(msg@ =~= task_message(index as nat, name@));
        lemma_task_message_text(index as nat, name@);
    }
    msg
}

/// The single ordered fan-in point of the parallel generator: one slot per
/// task, indexed by the task's originating index, so that results arriving
/// in completion order (which is non-deterministic) are still assembled in
/// index order.
pub struct Collector {
    slots: Vec<Option<Vec<u8>>>,
}

/// One entry per task: `None` until that task's result arrives, then the
/// delivered text.
impl View for Collector {
    type V = Seq<Option<Seq<u8>>>;

    closed spec fn view(&self) -> Seq<Option<Seq<u8>>> {
        self.slots@.map(
            |i: int, s: Option<Vec<u8>>|
                match s {
                    Some(t) => Some(t@),
                    None => None,
                },
        )
    }
}

impl Collector {
    /// True when every task has delivered its result.
    pub open spec fn complete(self) -> bool {
        forall|i: int| 0 <= i < self@.len() ==> self@[i] is Some
    }

    /// A collection point awaiting `count` results.
    pub fn new(count: u32) -> (c: Collector)
        ensures
            c@.len() == count,
            forall|i: int| 0 <= i < count ==> c@[i] is None,
    {
        let n = count as usize;
        let mut slots: Vec<Option<Vec<u8>>> = Vec::new();
        let mut i: usize = 0;
        while i < n
            invariant
                i <= n,
                slots@.len() == i,
                forall|j: int| 0 <= j < i ==> slots@[j] is None,
            decreases n - i,
        {
            slots.push(None);
            i = i + 1;
        }
        let c = Collector { slots };
        proof {
            assert forall|i: int| 0 <= i < count implies c@[i] is None by {
                assert(c@[i] == (match slots@[i] {
                    Some(t) => Some(t@),
                    None => None::<Seq<u8>>,
                }));
            }
        }
        c
    }

    /// Accepts the result that the task with the given originating index
    /// delivered. A result for an unknown index, or a second result for
    /// the same task, is a failure of the parallel operation and changes
    /// nothing.
    pub fn accept(&mut self, index: u32, text: Vec<u8>) -> (r: Result<(), BoundaryError>)
        ensures
            match r {
                Ok(()) => {
                    &&& index < old(self)@.len()
                    &&& old(self)@[index as int] is None
                    &&& final(self)@ == old(self)@.update(index as int, Some(text@))
                },
                Err(e) => {
                    &&& final(self)@ == old(self)@
                    &&& e == BoundaryError::TaskFailure
                    &&& !(index < old(self)@.len() && old(self)@[index as int] is None)
                },
            },
    {
        let i = index as usize;
        if i >= self.slots.len() {
            return Err(BoundaryError::TaskFailure);
        }
        if self.slots[i].is_some() {
            return Err(BoundaryError::TaskFailure);
        }
        self.slots[i] = Some(text);
        proof {
            assert(final(self)@ =~= old(self)@.update(index as int, Some(text@)));
        }
        Ok(())
    }

    /// True when every task has delivered.
    pub fn is_complete(&self) -> (b: bool)
        ensures
            b == self.complete(),
    {
        let n = self.slots.len();
        let mut i: usize = 0;
        while i < n
            invariant
                i <= n,
                n == self@.len(),
                forall|j: int| 0 <= j < i ==> self@[j] is Some,
            decreases n - i,
        {
            if self.slots[i].is_none() {
                proof {
                    assert(self@[i as int] is None);
                }
                return false;
            }
            proof {
                assert(self@[i as int] is Some);
            }
            i = i + 1;
        }
        true
    }

    /// Hands the collected texts out, in index order; fails as a task
    /// failure unless every task has delivered.
    pub fn into_texts(self) -> (r: Result<Vec<Vec<u8>>, BoundaryError>)
        ensures
            match r {
                Ok(texts) => {
                    &&& self.complete()
                    &&& texts@.len() == self@.len()
                    &&& forall|i: int|
                        0 <= i < texts@.len() ==> #[trigger] texts@[i]@ == self@[i]->0
                },
                Err(e) => !self.complete() && e == BoundaryError::TaskFailure,
            },
    {
        let ghost model = self@;
        if !self.is_complete() {
            return Err(BoundaryError::TaskFailure);
        }
        let mut slots = self.slots;
        let mut texts: Vec<Vec<u8>> = Vec::new();
        let n = slots.len();
        proof {
            assert(n == model.len());
        }
        let mut i: usize = 0;
        #[verifier::loop_isolation(false)]
        while i < n
            invariant
                i <= n,
                slots@.len() == n - i,
                forall|j: int|
                    0 <= j < n - i ==> model[i + j] == (match #[trigger] slots@[j] {
                        Some(t) => Some(t@),
                        None => None::<Seq<u8>>,
                    }),
                texts@.len() == i,
                forall|j: int| 0 <= j < i ==> #[trigger] texts@[j]@ == model[j]->0,
            decreases n - i,
        {
            let ghost slots_pre = slots@;
            let ghost texts_pre = texts@;
            let item = slots.remove(0);
            proof {
                assert(slots@ =~= slots_pre.subrange(1, slots_pre.len() as int));
                assert forall|j: int| 0 <= j < n - (i + 1) implies model[i + 1 + j] == (
                match #[trigger] slots@[j] {
                    Some(t) => Some(t@),
                    None => None::<Seq<u8>>,
                }) by {
                    assert(slots@[j] == slots_pre[j + 1]);
                }
                assert(model[i as int] == (match slots_pre[0] {
                    Some(t) => Some(t@),
                    None => None::<Seq<u8>>,
                }));
            }
            match item {
                Some(t) => {
                    let ghost t_view = t@;
                    texts.push(t);
                    proof {
                        assert(model[i as int] == Some(t_view));
                        assert forall|j: int| 0 <= j < i + 1 implies #[trigger] texts@[j]@
                            == model[j]->0 by {
                            if j < i {
                                assert(texts@[j] == texts_pre[j]);
                            }
                        }
                    }
                },
                None => {
                    proof {
                        assert(model[i as int] is None);
                        assert(false);
                    }
                    return Err(BoundaryError::TaskFailure);
                },
            }
            i = i + 1;
        }
        Ok(texts)
    }
}

/// Encodes each collected text and assembles the owned, index-ordered
/// greeting set that the parallel operation returns; ownership of the
/// whole set transfers to the caller. If any text is not well formed the
/// whole operation fails and nothing is allocated.
pub fn assemble_greeting_set(reg: &mut Registry, texts: &Vec<Vec<u8>>) -> (r: Result<
    GreetingSet,
    BoundaryError,
>)
    requires
        texts@.len() <= u32::MAX,
    ensures
        match r {
            Ok(set) => {
                &&& forall|i: int| 0 <= i < texts@.len() ==> is_text(#[trigger] texts@[i]@)
                &&& set.wf()
                &&& set.greetings@.len() == texts@.len()
                &&& final(reg)@.len() == old(reg)@.len() + texts@.len()
                &&& forall|j: int| 0 <= j < old(reg)@.len() ==> final(reg)@[j] == old(reg)@[j]
                &&& forall|i: int|
                    0 <= i < texts@.len() ==> (#[trigger] set.greetings@[i].text) as int == old(
                        reg,
                    )@.len() + 1 + i && final(reg)@[old(reg)@.len() + i] == Some(texts@[i]@)
            },
            Err(e) => {
                &&& final(reg)@ == old(reg)@
                &&& e == BoundaryError::InvalidEncoding
                &&& exists|i: int| 0 <= i < texts@.len() && !is_text(#[trigger] texts@[i]@)
            },
        },
{
    let n = texts.len();
    let mut i: usize = 0;
    while i < n
        invariant
            i <= n,
            n == texts@.len(),
            forall|j: int| 0 <= j < i ==> is_text(#[trigger] texts@[j]@),
        decreases n - i,
    {
        if !is_well_formed_text(&texts[i]) {
            return Err(BoundaryError::InvalidEncoding);
        }
        i = i + 1;
    }
    let mut greetings: Vec<Greeting> = Vec::new();
    let mut i: usize = 0;
    #[verifier::loop_isolation(false)]
    while i < n
        invariant
            i <= n,
            n == texts@.len() <= u32::MAX,
            forall|j: int| 0 <= j < n ==> is_text(#[trigger] texts@[j]@),
            greetings@.len() == i,
            reg@.len() == old(reg)@.len() + i,
            forall|j: int| 0 <= j < old(reg)@.len() ==> reg@[j] == old(reg)@[j],
            forall|k: int|
                0 <= k < i ==> (#[trigger] greetings@[k].text) as int == old(reg)@.len() + 1 + k
                    && reg@[old(reg)@.len() + k] == Some(texts@[k]@),
        decreases n - i,
    {
        let ghost reg_pre = reg@;
        let ghost greetings_pre = greetings@;
        let h = encode(reg, &texts[i]);
        greetings.push(Greeting { text: h });
        proof {
            assert(reg@ == reg_pre.push(Some(texts@[i as int]@)));
            assert(greetings@ == greetings_pre.push(Greeting { text: h }));
            assert forall|k: int| 0 <= k < i + 1 implies (#[trigger] greetings@[k].text) as int
                == old(reg)@.len() + 1 + k && reg@[old(reg)@.len() + k] == Some(texts@[k]@) by {
                if k < i {
                    assert(greetings@[k] == greetings_pre[k]);
                    assert(reg@[old(reg)@.len() + k] == reg_pre[old(reg)@.len() + k]);
                }
            }
        }
        i = i + 1;
    }
    let set = GreetingSet { greetings, count: n as u32 };
    Ok(set)
}

/// Produces the ordered set of `count` greetings for the borrowed name:
/// greeting `i` of the set is exactly the message of task `i`, each task's
/// index placing its result (index order), every index in `0..count`
/// covered exactly once. Ownership of the whole set transfers to the
/// caller; the borrowed name and every older allocation are untouched.
pub fn render_greetings_in_parallel(reg: &mut Registry, count: u32, name: u64) -> (r: Result<
    GreetingSet,
    BoundaryError,
>)
    ensures
        match r {
            Ok(set) => {
                &&& spec_decode(old(reg)@, name) is Ok
                &&& set.wf()
                &&& set.greetings@.len() == count
                &&& final(reg)@.len() == old(reg)@.len() + count
                &&& forall|j: int| 0 <= j < old(reg)@.len() ==> final(reg)@[j] == old(reg)@[j]
                &&& forall|i: int|
                    0 <= i < count ==> (#[trigger] set.greetings@[i].text) as int == old(
                        reg,
                    )@.len() + 1 + i && live(final(reg)@, set.greetings@[i].text) && value_of(
                        final(reg)@,
                        set.greetings@[i].text,
                    ) == task_message(i as nat, spec_decode(old(reg)@, name)->Ok_0)
            },
            Err(e) => {
                &&& final(reg)@ == old(reg)@
                &&& spec_decode(old(reg)@, name) == Err::<Seq<u8>, BoundaryError>(e)
            },
        },
{
    let text = match decode(reg, name) {
        Ok(t) => t,
        Err(e) => {
            return Err(e);
        },
    };
    let n = count as usize;
    let mut greetings: Vec<Greeting> = Vec::new();
    let mut i: usize = 0;
    #[verifier::loop_isolation(false)]
    while i < n
        invariant
            i <= n,
            n == count,
            is_text(text@),
            text@ == spec_decode(old(reg)@, name)->Ok_0,
            spec_decode(old(reg)@, name) is Ok,
            greetings@.len() == i,
            reg@.len() == old(reg)@.len() + i,
            forall|j: int| 0 <= j < old(reg)@.len() ==> reg@[j] == old(reg)@[j],
            forall|k: int|
                0 <= k < i ==> (#[trigger] greetings@[k].text) as int == old(reg)@.len() + 1 + k,
            forall|k: int|
                0 <= k < i ==> #[trigger] reg@[old(reg)@.len() + k] == Some(
                    task_message(k as nat, text@),
                ),
        decreases n - i,
    {
        let ghost reg_pre = reg@;
        let ghost greetings_pre = greetings@;
        let msg = render_task_message(i as u32, &text);
        proof {
            assert((i as u32) as nat == i as nat);
        }
        let h = encode(reg, &msg);
        greetings.push(Greeting { text: h });
        proof {
            assert(reg@ == reg_pre.push(Some(task_message(i as nat, text@))));
            assert forall|k: int| 0 <= k < i + 1 implies (#[trigger] greetings@[k].text) as int
                == old(reg)@.len() + 1 + k by {
                if k < i {
                    assert(greetings@[k] == greetings_pre[k]);
                }
            }
            assert forall|k: int| 0 <= k < i + 1 implies #[trigger] reg@[old(reg)@.len() + k]
                == Some(task_message(k as nat, text@)) by {
                if k < i {
                    assert(reg@[old(reg)@.len() + k] == reg_pre[old(reg)@.len() + k]);
                }
            }
        }
        i = i + 1;
    }
    let set = GreetingSet { greetings, count };
    proof {
        assert forall|i: int| 0 <= i < count implies (#[trigger] set.greetings@[i].text) as int
            == old(reg)@.len() + 1 + i && live(final(reg)@, set.greetings@[i].text) && value_of(
            final(reg)@,
            set.greetings@[i].text,
        ) == task_message(i as nat, spec_decode(old(reg)@, name)->Ok_0) by {
            assert(reg@[old(reg)@.len() + i] == Some(task_message(i as nat, text@)));
        }
    }
    Ok(set)
}

} // verus!
