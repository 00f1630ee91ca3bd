use vstd::bytes::*;
use vstd::prelude::*;
use vstd::slice::slice_subrange;

use crate::greetings::{Greeting, GreetingSet, Person};

verus! {

/// The agreed byte-exact layout of a `Greeting`: one pointer-sized field,
/// the text pointer, as eight little-endian bytes.
pub open spec fn greeting_layout(g: Greeting) -> Seq<u8> {
    spec_u64_to_le_bytes(g.text)
}

/// The agreed byte-exact layout of a `Person`: two pointer-sized fields,
/// first name then last name.
pub open spec fn person_layout(p: Person) -> Seq<u8> {
    spec_u64_to_le_bytes(p.first_name) + spec_u64_to_le_bytes(p.last_name)
}

/// The layout of the entries of a greeting set: each greeting's layout,
/// in order, in one contiguous block.
pub open spec fn entries_layout(gs: Seq<Greeting>) -> Seq<u8>
    decreases gs.len(),
{
    if gs.len() == 0 {
        Seq::empty()
    } else {
        entries_layout(gs.drop_last()) + greeting_layout(gs.last())
    }
}

/// The agreed byte-exact layout of a `GreetingSet`: the explicit count as
/// a fixed-width four-byte little-endian integer, then the entry block,
/// inlined so that the whole set is one contiguous allocation.
pub open spec fn greeting_set_layout(s: GreetingSet) -> Seq<u8> {
    spec_u32_to_le_bytes(s.count) + entries_layout(s.greetings@)
}

/// Writes a greeting in its agreed layout.
pub fn write_greeting(g: &Greeting) -> (b: Vec<u8>)
    ensures
        b@ == greeting_layout(*g),
{
    u64_to_le_bytes(g.text)
}

/// Reads a greeting back from its agreed layout.
pub fn read_greeting(b: &Vec<u8>) -> (g: Greeting)
    requires
        b@.len() == 8,
    ensures
        g.text == spec_u64_from_le_bytes(b@),
{
    Greeting { text: u64_from_le_bytes(b.as_slice()) }
}

/// Writes a person in the agreed field order.
pub fn write_person(p: &Person) -> (b: Vec<u8>)
    ensures
        b@ == person_layout(*p),
{
    let mut b = u64_to_le_bytes(p.first_name);
    let mut tail = u64_to_le_bytes(p.last_name);
    b.append(&mut tail);
    b
}

/// Reads a person back from the agreed field order.
pub fn read_person(b: &Vec<u8>) -> (p: Person)
    requires
        b@.len() == 16,
    ensures
        p.first_name == spec_u64_from_le_bytes(b@.subrange(0, 8)),
        p.last_name == spec_u64_from_le_bytes(b@.subrange(8, 16)),
{
    let first_name = u64_from_le_bytes(slice_subrange(b.as_slice(), 0, 8));
    let last_name = u64_from_le_bytes(slice_subrange(b.as_slice(), 8, 16));
    Person { first_name, last_name }
}

/// Writes a greeting set as one contiguous block in its agreed layout.
pub fn write_greeting_set(s: &GreetingSet) -> (b: Vec<u8>)
    requires
        s.wf(),
    ensures
        b@ == greeting_set_layout(*s),
{
    let mut b = u32_to_le_bytes(s.count);
    let n = s.greetings.len();
    let mut i: usize = 0;
    proof {
        assert(s.greetings@.take(0) =~= Seq::<Greeting>::empty());
        assert(b@ =~= spec_u32_to_le_bytes(s.count) + entries_layout(s.greetings@.take(0)));
    }
    while i < n
        invariant
            i <= n,
            n == s.greetings@.len(),
            s.wf(),
            b@ == spec_u32_to_le_bytes(s.count) + entries_layout(s.greetings@.take(i as int)),
        decreases n - i,
    {
        let mut entry = u64_to_le_bytes(s.greetings[i].text);
        b.append(&mut entry);
        proof {
            assert(s.greetings@.take(i + 1).drop_last() =~= s.greetings@.take(i as int));
            assert(s.greetings@.take(i + 1).last() == s.greetings@[i as int]);
            assert(b@ =~= spec_u32_to_le_bytes(s.count) + entries_layout(
                s.greetings@.take(i + 1),
            ));
        }
        i = i + 1;
    }
    proof {
        assert(s.greetings@.take(n as int) =~= s.greetings@);
    }
    b
}

/// The count announced in the first four bytes of a set layout.
pub open spec fn parsed_count(b: Seq<u8>) -> u32
    recommends
        b.len() >= 4,
{
    spec_u32_from_le_bytes(b.subrange(0, 4))
}

/// True when `b` has exactly the shape of a greeting set layout: a count
/// field followed by exactly that many eight-byte entries.
pub open spec fn set_layout_parses(b: Seq<u8>) -> bool {
    &&& b.len() >= 4
    &&& b.len() == 4 + 8 * (parsed_count(b) as int)
}

/// The greeting recovered from entry `i` of a set layout.
pub open spec fn parsed_entry(b: Seq<u8>, i: int) -> Greeting
    recommends
        set_layout_parses(b),
        0 <= i < parsed_count(b),
{
    Greeting { text: spec_u64_from_le_bytes(b.subrange(4 + 8 * i, 12 + 8 * i)) }
}

/// Reads a greeting set back from one contiguous block, rejecting a block
/// whose length does not match its announced count.
pub fn read_greeting_set(b: &Vec<u8>) -> (r: Option<GreetingSet>)
    ensures
        match r {
            Some(s) => {
                &&& set_layout_parses(b@)
                &&& s.wf()
                &&& s.count == parsed_count(b@)
                &&& forall|i: int|
                    0 <= i < s.greetings@.len() ==> s.greetings@[i] == parsed_entry(b@, i)
            },
            None => !set_layout_parses(b@),
        },
{
    if b.len() < 4 {
        return None;
    }
    let count = u32_from_le_bytes(slice_subrange(b.as_slice(), 0, 4));
    if (b.len() as u64) != 4u64 + 8u64 * (count as u64) {
        return None;
    }
    let n = count as usize;
    let mut greetings: Vec<Greeting> = Vec::new();
    let mut i: usize = 0;
    while i < n
        invariant
            i <= n,
            n == count as int,
            b@.len() == 4 + 8 * (count as int),
            b@.len() <= usize::MAX,
            greetings@.len() == i,
            set_layout_parses(b@),
            count == parsed_count(b@),
            forall|j: int| 0 <= j < i ==> greetings@[j] == parsed_entry(b@, j),
        decreases n - i,
    {
        let off = 4 + 8 * i;
        let entry = u64_from_le_bytes(slice_subrange(b.as_slice(), off, off + 8));
        greetings.push(Greeting { text: entry });
        proof {
            assert(b@.subrange(off as int, off + 8) =~= b@.subrange(
                4 + 8 * (i as int),
                12 + 8 * (i as int),
            ));
        }
        i = i + 1;
    }
    Some(GreetingSet { greetings, count })
}

/// An entry block is eight bytes per greeting.
pub proof fn lemma_entries_layout_len(gs: Seq<Greeting>)
    ensures
        entries_layout(gs).len() == 8 * gs.len(),
    decreases gs.len(),
{
    lemma_auto_spec_u64_to_from_le_bytes();
    if gs.len() > 0 {
        lemma_entries_layout_len(gs.drop_last());
    }
}

/// Entry `i` of an entry block is the layout of greeting `i`.
pub proof fn lemma_entries_layout_index(gs: Seq<Greeting>, i: int)
    requires
        0 <= i < gs.len(),
    ensures
        entries_layout(gs).subrange(8 * i, 8 * i + 8) == greeting_layout(gs[i]),
    decreases gs.len(),
{
    lemma_auto_spec_u64_to_from_le_bytes();
    lemma_entries_layout_len(gs.drop_last());
    if i == gs.len() - 1 {
        assert(entries_layout(gs).subrange(8 * i, 8 * i + 8) =~= greeting_layout(gs.last()));
    } else {
        lemma_entries_layout_index(gs.drop_last(), i);
        assert(gs.drop_last()[i] == gs[i]);
        assert(entries_layout(gs).subrange(8 * i, 8 * i + 8) =~= entries_layout(
            gs.drop_last(),
        ).subrange(8 * i, 8 * i + 8));
    }
}

/// Layout stability: writing a greeting and reading it back recovers the
/// pointer field bit for bit.
pub proof fn lemma_greeting_layout_round_trip(g: Greeting)
    ensures
        greeting_layout(g).len() == 8,
        spec_u64_from_le_bytes(greeting_layout(g)) == g.text,
{
    lemma_auto_spec_u64_to_from_le_bytes();
}

/// Layout stability: writing a person and reading it back recovers both
/// pointer fields bit for bit.
pub proof fn lemma_person_layout_round_trip(p: Person)
    ensures
        person_layout(p).len() == 16,
        spec_u64_from_le_bytes(person_layout(p).subrange(0, 8)) == p.first_name,
        spec_u64_from_le_bytes(person_layout(p).subrange(8, 16)) == p.last_name,
{
    lemma_auto_spec_u64_to_from_le_bytes();
    assert(person_layout(p).subrange(0, 8) =~= spec_u64_to_le_bytes(p.first_name));
    assert(person_layout(p).subrange(8, 16) =~= spec_u64_to_le_bytes(p.last_name));
}

/// Layout stability: writing a greeting set and reading it back recovers
/// the count and every entry bit for bit.
pub proof fn lemma_greeting_set_layout_round_trip(s: GreetingSet)
    requires
        s.wf(),
    ensures
        set_layout_parses(greeting_set_layout(s)),
        parsed_count(greeting_set_layout(s)) == s.count,
        forall|i: int|
            0 <= i < s.greetings@.len() ==> #[trigger] parsed_entry(greeting_set_layout(s), i)
                == s.greetings@[i],
{
    let b = greeting_set_layout(s);
    lemma_auto_spec_u32_to_from_le_bytes();
    lemma_entries_layout_len(s.greetings@);
    assert(b.subrange(0, 4) =~= spec_u32_to_le_bytes(s.count));
    assert forall|i: int| 0 <= i < s.greetings@.len() implies #[trigger] parsed_entry(
        greeting_set_layout(s),
        i,
    ) == s.greetings@[i] by {
        lemma_entries_layout_index(s.greetings@, i);
        lemma_auto_spec_u64_to_from_le_bytes();
        assert(b.subrange(4 + 8 * i, 12 + 8 * i) =~= entries_layout(s.greetings@).subrange(
            8 * i,
            8 * i + 8,
        ));
    }
}

} // verus!
