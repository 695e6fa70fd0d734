//! Short-term structured state attached to a trajectory.
use vstd::prelude::*;

use crate::text;
use crate::text::clone_texts;

verus! {

/// Free-form working notes the policy / agent can mutate between steps.
#[derive(Debug)]
pub struct Scratchpad {
    pub notes: Vec<String>,
}

impl View for Scratchpad {
    type V = Seq<Seq<char>>;

    open spec fn view(&self) -> Seq<Seq<char>> {
        text::all_chars(self.notes@)
    }
}

impl Default for Scratchpad {
    fn default() -> (res: Self)
        ensures
            res@ == Seq::<Seq<char>>::empty(),
    {
        let res = Scratchpad { notes: Vec::new() };
        assert(res@ =~= Seq::<Seq<char>>::empty());
        res
    }
}

impl Clone for Scratchpad {
    fn clone(&self) -> (res: Self)
        ensures
            res@ == self@,
    {
        Scratchpad { notes: clone_texts(&self.notes) }
    }
}

impl Scratchpad {
    pub fn push(&mut self, note: &str)
        ensures
            final(self)@ == old(self)@.push(note@),
    {
        self.notes.push(note.to_string());
        assert(self@ =~= old(self)@.push(note@));
    }
}

/// The contents of an agent memory.
pub struct AgentMemoryView {
    pub scratchpad: Seq<Seq<char>>,
    pub slots: Seq<(Seq<char>, Seq<char>)>,
}

/// Short-term structured state attached to a trajectory.
#[derive(Debug)]
pub struct AgentMemory {
    pub scratchpad: Scratchpad,
    /// Opaque key/value bag for policy-specific state.
    pub slots: Vec<(String, String)>,
}

impl View for AgentMemory {
    type V = AgentMemoryView;

    open spec fn view(&self) -> AgentMemoryView {
        AgentMemoryView {
            scratchpad: self.scratchpad@,
            slots: self.slots@.map_values(|kv: (String, String)| (kv.0@, kv.1@)),
        }
    }
}

/// Position of the first slot with key `key`, if any.
pub open spec fn slot_position(slots: Seq<(Seq<char>, Seq<char>)>, key: Seq<char>) -> Option<int>
    decreases slots.len(),
{
    if slots.len() == 0 {
        None
    } else if slots[0].0 == key {
        Some(0)
    } else {
        match slot_position(slots.drop_first(), key) {
            Some(i) => Some(i + 1),
            None => None,
        }
    }
}

impl AgentMemoryView {
    /// Nothing remembered yet.
    pub open spec fn blank() -> AgentMemoryView {
        AgentMemoryView { scratchpad: Seq::empty(), slots: Seq::empty() }
    }

    /// The value under `key`: that of the first slot with this key.
    pub open spec fn slot(self, key: Seq<char>) -> Option<Seq<char>> {
        match slot_position(self.slots, key) {
            Some(i) => Some(self.slots[i].1),
            None => None,
        }
    }

    /// The memory with `value` under `key`: the first slot with this key is
    /// overwritten, and a new slot is added at the end where there is none.
    pub open spec fn with_slot(self, key: Seq<char>, value: Seq<char>) -> AgentMemoryView {
        match slot_position(self.slots, key) {
            Some(i) => AgentMemoryView { slots: self.slots.update(i, (key, value)), ..self },
            None => AgentMemoryView { slots: self.slots.push((key, value)), ..self },
        }
    }
}

/// What `slot_position` finds is the first slot with the key.
pub proof fn lemma_slot_position(slots: Seq<(Seq<char>, Seq<char>)>, key: Seq<char>)
    ensures
        match slot_position(slots, key) {
            Some(i) => 0 <= i < slots.len() && slots[i].0 == key && (forall|j: int|
                0 <= j < i ==> (#[trigger] slots[j]).0 != key),
            None => forall|j: int| 0 <= j < slots.len() ==> (#[trigger] slots[j]).0 != key,
        },
    decreases slots.len(),
{
    if slots.len() > 0 && slots[0].0 != key {
        let rest = slots.drop_first();
        lemma_slot_position(rest, key);
        assert(forall|j: int| 0 < j < slots.len() ==> #[trigger] slots[j] == rest[j - 1]);
    }
}

/// The first slot with the key is the only position `slot_position` can give.
pub proof fn lemma_slot_position_unique(slots: Seq<(Seq<char>, Seq<char>)>, key: Seq<char>, i: int)
    requires
        0 <= i < slots.len(),
        slots[i].0 == key,
        forall|j: int| 0 <= j < i ==> (#[trigger] slots[j]).0 != key,
    ensures
        slot_position(slots, key) == Some(i),
{
    lemma_slot_position(slots, key);
}

impl Default for AgentMemory {
    fn default() -> (res: Self)
        ensures
            res@ == AgentMemoryView::blank(),
    {
        let res = AgentMemory { scratchpad: Scratchpad::default(), slots: Vec::new() };
        assert(res@.slots =~= Seq::empty());
        res
    }
}

impl Clone for AgentMemory {
    fn clone(&self) -> (res: Self)
        ensures
            res@ == self@,
    {
        let mut slots: Vec<(String, String)> = Vec::new();
        let mut i: usize = 0;
        while i < self.slots.len()
            invariant
                i <= self.slots@.len(),
                slots@ == self.slots@.take(i as int),
            decreases self.slots@.len() - i,
        {
            let kv = &self.slots[i];
            slots.push((kv.0.clone(), kv.1.clone()));
            assert(self.slots@.take(i + 1) =~= self.slots@.take(i as int).push(self.slots@[i as int]));
            i += 1;
        }
        assert(self.slots@.take(i as int) =~= self.slots@);
        AgentMemory { scratchpad: self.scratchpad.clone(), slots }
    }
}

impl AgentMemory {
    /// Where the first slot with `key` stands.
    fn find(&self, key: &str) -> (res: Option<usize>)
        ensures
            match res {
                Some(i) => slot_position(self@.slots, key@) == Some(i as int) && i
                    < self.slots@.len(),
                None => slot_position(self@.slots, key@) is None,
            },
    {
        let wanted: String = key.to_string();
        let mut i: usize = 0;
        while i < self.slots.len()
            invariant
                wanted@ == key@,
                i <= self.slots@.len(),
                forall|j: int| 0 <= j < i ==> (#[trigger] self@.slots[j]).0 != key@,
            decreases self.slots@.len() - i,
        {
            assert(self@.slots[i as int].0 == self.slots@[i as int].0@);
            if self.slots[i].0 == wanted {
                proof {
                    lemma_slot_position_unique(self@.slots, key@, i as int);
                }
                return Some(i);
            }
            i += 1;
        }
        proof {
            lemma_slot_position(self@.slots, key@);
        }
        None
    }

    pub fn set_slot(&mut self, key: &str, value: &str)
        ensures
            final(self)@ == old(self)@.with_slot(key@, value@),
    {
        match self.find(key) {
            Some(i) => {
                proof {
                    lemma_slot_position(self@.slots, key@);
                }
                self.slots.set(i, (key.to_string(), value.to_string()));
                assert(self@.slots =~= old(self)@.slots.update(i as int, (key@, value@)));
            },
            None => {
                self.slots.push((key.to_string(), value.to_string()));
                assert(self@.slots =~= old(self)@.slots.push((key@, value@)));
            },
        }
    }

    pub fn get_slot(&self, key: &str) -> (res: Option<&str>)
        ensures
            match res {
                Some(v) => self@.slot(key@) == Some(v@),
                None => self@.slot(key@) is None,
            },
    {
        match self.find(key) {
            Some(i) => Some(self.slots[i].1.as_str()),
            None => None,
        }
    }
}

/// A slot reads back what was last written to it.
pub proof fn law_slot_read_back(m: AgentMemoryView, key: Seq<char>, value: Seq<char>)
    ensures
        m.with_slot(key, value).slot(key) == Some(value),
{
    let after = m.with_slot(key, value).slots;
    lemma_slot_position(m.slots, key);
    match slot_position(m.slots, key) {
        Some(i) => {
            lemma_slot_position_unique(after, key, i);
        },
        None => {
            lemma_slot_position_unique(after, key, m.slots.len() as int);
        },
    }
}

/// Writing one slot leaves every other slot as it was.
pub proof fn law_slot_frame(m: AgentMemoryView, key: Seq<char>, value: Seq<char>, other: Seq<char>)
    requires
        other != key,
    ensures
        m.with_slot(key, value).slot(other) == m.slot(other),
{
    let after = m.with_slot(key, value).slots;
    lemma_slot_position(m.slots, key);
    lemma_slot_position(m.slots, other);
    lemma_slot_position(after, other);
    match slot_position(m.slots, other) {
        Some(i) => {
            assert(after[i] == m.slots[i]);
            assert forall|j: int| 0 <= j < i implies (#[trigger] after[j]).0 != other by {
                assert(after[j].0 == m.slots[j].0);
            }
            lemma_slot_position_unique(after, other, i);
        },
        None => {
            assert forall|j: int| 0 <= j < after.len() implies (#[trigger] after[j]).0 != other by {
                if j < m.slots.len() {
                    assert(after[j].0 == m.slots[j].0);
                }
            }
        },
    }
}

} // verus!
