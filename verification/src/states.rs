//! What is known of each attachment, by its key.
use vstd::prelude::*;

use crate::attachments::{AttachmentState, AttachmentStateView};
use crate::text::{same_text, texts};

verus! {

/// The states of the attachments that were asked for.
#[derive(Debug)]
pub struct StateTable {
    entries: Vec<(String, AttachmentState)>,
}

spec fn table_of(entries: Seq<(String, AttachmentState)>) -> Map<Seq<char>, AttachmentStateView>
    decreases entries.len(),
{
    if entries.len() == 0 {
        Map::empty()
    } else {
        table_of(entries.drop_last()).insert(entries.last().0@, entries.last().1@)
    }
}

impl View for StateTable {
    type V = Map<Seq<char>, AttachmentStateView>;

    closed spec fn view(&self) -> Map<Seq<char>, AttachmentStateView> {
        table_of(self.entries@)
    }
}

/// The state of an attachment. One that nobody asked for has its own.
pub open spec fn state_in(
    states: Map<Seq<char>, AttachmentStateView>,
    key: Seq<char>,
) -> AttachmentStateView {
    if states.dom().contains(key) {
        states[key]
    } else {
        AttachmentStateView::NotRequested
    }
}

impl StateTable {
    pub fn new() -> (table: StateTable)
        ensures
            table@ == Map::<Seq<char>, AttachmentStateView>::empty(),
    {
        StateTable { entries: Vec::new() }
    }

    /// The state of an attachment.
    pub fn get(&self, key: &str) -> (state: AttachmentState)
        ensures
            state@ == state_in(self@, key@),
    {
        let mut left: usize = self.entries.len();
        assert(self.entries@.take(left as int) =~= self.entries@);
        while left > 0
            invariant
                left <= self.entries@.len(),
                state_in(self@, key@) == state_in(table_of(self.entries@.take(left as int)), key@),
            decreases left,
        {
            let ghost prefix = self.entries@.take(left as int);
            assert(prefix.drop_last() =~= self.entries@.take(left - 1));
            assert(prefix.last() == self.entries@[left - 1]);
            let entry = &self.entries[left - 1];
            if same_text(entry.0.as_str(), key) {
                return entry.1.clone();
            }
            left = left - 1;
        }
        AttachmentState::NotRequested
    }

    /// Sets the state of an attachment.
    pub fn insert(&mut self, key: String, state: AttachmentState)
        ensures
            final(self)@ == old(self)@.insert(key@, state@),
    {
        let ghost before = self@;
        let mut entries: Vec<(String, AttachmentState)> = Vec::new();
        for i in 0..self.entries.len()
            invariant
                table_of(entries@) == table_of(self.entries@.take(i as int)).remove(key@),
        {
            let ghost longer = self.entries@.take(i + 1);
            assert(longer.drop_last() =~= self.entries@.take(i as int));
            assert(longer.last() == self.entries@[i as int]);
            let entry = &self.entries[i];
            if !same_text(entry.0.as_str(), key.as_str()) {
                let ghost so_far = entries@;
                let copy = (entry.0.clone(), entry.1.clone());
                entries.push(copy);
                assert(entries@.drop_last() =~= so_far);
                assert(table_of(entries@) =~= table_of(longer).remove(key@));
            } else {
                assert(table_of(entries@) =~= table_of(longer).remove(key@));
            }
        }
        assert(self.entries@.take(self.entries@.len() as int) =~= self.entries@);
        let ghost so_far = entries@;
        entries.push((key, state));
        assert(entries@.drop_last() =~= so_far);
        assert(table_of(entries@) =~= before.insert(key@, state@));
        self.entries = entries;
    }

    /// Forgets the attachments that are not in the list.
    pub fn retain(&mut self, keys: &Vec<String>)
        ensures
            final(self)@ == old(self)@.restrict(texts(keys@).to_set()),
    {
        let ghost kept = texts(keys@).to_set();
        let mut entries: Vec<(String, AttachmentState)> = Vec::new();
        assert(table_of(entries@) =~= table_of(self.entries@.take(0)).restrict(kept));
        for i in 0..self.entries.len()
            invariant
                kept == texts(keys@).to_set(),
                table_of(entries@) == table_of(self.entries@.take(i as int)).restrict(kept),
        {
            let ghost longer = self.entries@.take(i + 1);
            assert(longer.drop_last() =~= self.entries@.take(i as int));
            assert(longer.last() == self.entries@[i as int]);
            let entry = &self.entries[i];
            if holds(keys, entry.0.as_str()) {
                let ghost so_far = entries@;
                let copy = (entry.0.clone(), entry.1.clone());
                entries.push(copy);
                assert(entries@.drop_last() =~= so_far);
                assert(table_of(entries@) =~= table_of(longer).restrict(kept));
            } else {
                assert(table_of(entries@) =~= table_of(longer).restrict(kept));
            }
        }
        assert(self.entries@.take(self.entries@.len() as int) =~= self.entries@);
        self.entries = entries;
    }
}

/// Whether a text is in a list.
pub fn holds(list: &Vec<String>, text: &str) -> (yes: bool)
    ensures
        yes == texts(list@).contains(text@),
{
    for i in 0..list.len()
        invariant
            forall|j: int| 0 <= j < i ==> (#[trigger] list@[j])@ != text@,
    {
        if same_text(list[i].as_str(), text) {
            assert(texts(list@)[i as int] == text@);
            return true;
        }
    }
    assert forall|j: int| 0 <= j < texts(list@).len() implies texts(list@)[j] != text@ by {
        assert(texts(list@)[j] == list@[j]@);
    }
    false
}

/// An attachment has the state that was set last; one that was never set was not
/// requested, and setting one leaves the others.
pub proof fn states_are_remembered(
    states: Map<Seq<char>, AttachmentStateView>,
    key: Seq<char>,
    other: Seq<char>,
    state: AttachmentStateView,
)
    ensures
        state_in(Map::empty(), key) is NotRequested,
        state_in(states.insert(key, state), key) == state,
        key != other ==> state_in(states.insert(key, state), other) == state_in(states, other),
        !states.contains_key(key) ==> state_in(states, key) is NotRequested,
{
}

} // verus!
