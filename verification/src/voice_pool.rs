//! The voice pool: a fixed number of voice slots and the sample bank the
//! voices play from.
use vstd::prelude::*;
use slotmap::{DefaultKey, SlotMap};
use crate::sample::Sample;
use crate::voice::{Voice, VoiceState};

verus! {

/// Identifier for a voice slot in the pool.
pub type VoiceId = usize;

/// Maximum number of simultaneous voices.
pub const MAX_VOICES: usize = 128;

/// The sample bank: the samples voices play, in a slot map keyed by the
/// slot map's default key. The map is not read by verified code.
#[verifier::external_body]
pub struct SampleBank {
    /// The samples
    pub map: SlotMap<DefaultKey, Sample>,
}

impl SampleBank {
    /// An empty bank, made by `SlotMap::new`. Nothing is stated of it: no
    /// verified code reads the bank.
    #[verifier::external_body]
    pub fn new() -> SampleBank {
        SampleBank { map: SlotMap::new() }
    }
}

/// How readily a voice in this state gives up its slot (lower first).
pub open spec fn steal_priority(s: VoiceState) -> int {
    match s {
        VoiceState::Fading => 0,
        VoiceState::Released => 1,
        VoiceState::Background => 2,
        VoiceState::Active => 3,
    }
}

/// The first free slot among the first `n`.
pub open spec fn first_free(s: Seq<Option<Voice>>, n: int) -> Option<int>
    decreases n,
{
    if n <= 0 {
        None
    } else {
        match first_free(s, n - 1) {
            Some(i) => Some(i),
            None => if s[n - 1] is None { Some(n - 1) } else { None },
        }
    }
}

/// The occupied slot among the first `n` whose voice gives up its slot most
/// readily; the first such slot on ties.
pub open spec fn best_victim(s: Seq<Option<Voice>>, n: int) -> Option<int>
    decreases n,
{
    if n <= 0 {
        None
    } else {
        let prev = best_victim(s, n - 1);
        match s[n - 1] {
            None => prev,
            Some(v) => match prev {
                None => Some(n - 1),
                Some(b) => if steal_priority(v.state) < steal_priority(s[b]->Some_0.state) { Some(n - 1) } else { Some(b) },
            },
        }
    }
}

/// The occupied slots among the first `n`.
pub open spec fn occupied(s: Seq<Option<Voice>>, n: int) -> nat
    decreases n,
{
    if n <= 0 {
        0
    } else {
        occupied(s, n - 1) + if s[n - 1] is Some { 1nat } else { 0nat }
    }
}

/// The slots after reaping: voices that stopped playing leave their slot.
pub open spec fn reaped(s: Seq<Option<Voice>>) -> Seq<Option<Voice>> {
    s.map_values(|slot: Option<Voice>| match slot {
        Some(v) => if v.playing { Some(v) } else { None },
        None => None,
    })
}

/// Centralized pool of voices with the sample bank.
pub struct VoicePool {
    /// Voice slots (None = free).
    slots: Vec<Option<Voice>>,
    /// Sample bank (owns all sample data).
    pub sample_bank: SampleBank,
}

impl View for VoicePool {
    type V = Seq<Option<Voice>>;

    /// The voice slots.
    closed spec fn view(&self) -> Seq<Option<Voice>> {
        self.slots@
    }
}

impl VoicePool {
    /// The pool has its full number of slots.
    pub open spec fn wf(&self) -> bool {
        self@.len() == MAX_VOICES
    }

    /// A pool of free slots.
    pub fn new() -> (r: Self)
        ensures
            r.wf(),
            forall|i: int| 0 <= i < MAX_VOICES ==> (#[trigger] r@[i]) is None,
    {
        let mut slots: Vec<Option<Voice>> = Vec::new();
        while slots.len() < MAX_VOICES
            invariant
                slots@.len() <= MAX_VOICES,
                forall|i: int| 0 <= i < slots@.len() ==> (#[trigger] slots@[i]) is None,
            decreases MAX_VOICES - slots@.len(),
        {
            slots.push(None);
        }
        Self { slots, sample_bank: SampleBank::new() }
    }

    /// Put `voice` in a slot and return the slot: the first free one, or,
    /// with every slot taken, the one whose voice gives way most readily
    /// (fading, then released, then background, then active; the first on
    /// ties).
    pub fn allocate(&mut self, voice: Voice) -> (r: VoiceId)
        requires
            old(self).wf(),
        ensures
            final(self).wf(),
            r < MAX_VOICES,
            r == (match first_free(old(self)@, MAX_VOICES as int) {
                Some(i) => i,
                None => best_victim(old(self)@, MAX_VOICES as int)->Some_0,
            }),
            final(self)@ == old(self)@.update(r as int, Some(voice)),
    {
        let mut i: usize = 0;
        while i < self.slots.len()
            invariant
                self.slots@ == old(self).slots@,
                self.wf(),
                i <= MAX_VOICES,
                first_free(self@, i as int) is None,
            decreases MAX_VOICES - i,
        {
            if self.slots[i].is_none() {
                proof {
                    lemma_first_free_from(self@, i as int + 1, MAX_VOICES as int);
                }
                self.slots.set(i, Some(voice));
                return i;
            }
            i = i + 1;
        }
        proof {
            lemma_no_free(self@, MAX_VOICES as int);
        }
        let id = self.find_steal_candidate();
        self.slots.set(id, Some(voice));
        id
    }

    /// The slot to steal when every slot is taken.
    fn find_steal_candidate(&self) -> (r: VoiceId)
        requires
            self.wf(),
            forall|i: int| 0 <= i < MAX_VOICES ==> (#[trigger] self@[i]) is Some,
        ensures
            best_victim(self@, MAX_VOICES as int) == Some(r as int),
            r < MAX_VOICES,
    {
        let mut best: usize = 0;
        let mut best_p: u8 = 4;
        let mut i: usize = 0;
        while i < self.slots.len()
            invariant
                self.wf(),
                forall|k: int| 0 <= k < MAX_VOICES ==> (#[trigger] self@[k]) is Some,
                i <= MAX_VOICES,
                i == 0 ==> best_victim(self@, i as int) is None && best_p == 4,
                i > 0 ==> best_victim(self@, i as int) == Some(best as int) && best < i
                    && best_p == steal_priority(self@[best as int]->Some_0.state),
            decreases MAX_VOICES - i,
        {
            match &self.slots[i] {
                Some(v) => {
                    let p: u8 = match v.state {
                        VoiceState::Fading => 0,
                        VoiceState::Released => 1,
                        VoiceState::Background => 2,
                        VoiceState::Active => 3,
                    };
                    if p < best_p {
                        best = i;
                        best_p = p;
                    }
                },
                None => {},
            }
            i = i + 1;
        }
        best
    }

    /// The voice in slot `id`, if any.
    pub fn get(&self, id: VoiceId) -> (r: Option<&Voice>)
        ensures
            r == (if id < self@.len() {
                match self@[id as int] {
                    Some(v) => Some(&v),
                    None => None,
                }
            } else {
                None
            }),
    {
        if id < self.slots.len() {
            match &self.slots[id] {
                Some(v) => Some(v),
                None => None,
            }
        } else {
            None
        }
    }

    /// Kill (remove) the voice in slot `id` immediately.
    pub fn kill(&mut self, id: VoiceId)
        ensures
            final(self)@ == (if id < old(self)@.len() { old(self)@.update(id as int, None) } else { old(self)@ }),
    {
        if id < self.slots.len() {
            self.slots.set(id, None);
        }
    }

    /// Set the state of the voice in slot `id`, if there is one.
    fn set_state(&mut self, id: VoiceId, state: VoiceState)
        ensures
            final(self)@ == (if id < old(self)@.len() && old(self)@[id as int] is Some {
                old(self)@.update(id as int, Some(Voice { state, ..old(self)@[id as int]->Some_0 }))
            } else {
                old(self)@
            }),
    {
        if id < self.slots.len() {
            match self.slots[id] {
                Some(v) => {
                    self.slots.set(id, Some(Voice { state, ..v }));
                },
                None => {},
            }
        }
    }

    /// Set the voice in slot `id` to the released state.
    pub fn release(&mut self, id: VoiceId)
        ensures
            final(self)@ == (if id < old(self)@.len() && old(self)@[id as int] is Some {
                old(self)@.update(id as int, Some(Voice { state: VoiceState::Released, ..old(self)@[id as int]->Some_0 }))
            } else {
                old(self)@
            }),
    {
        self.set_state(id, VoiceState::Released);
    }

    /// Set the voice in slot `id` to the fading state.
    pub fn fade(&mut self, id: VoiceId)
        ensures
            final(self)@ == (if id < old(self)@.len() && old(self)@[id as int] is Some {
                old(self)@.update(id as int, Some(Voice { state: VoiceState::Fading, ..old(self)@[id as int]->Some_0 }))
            } else {
                old(self)@
            }),
    {
        self.set_state(id, VoiceState::Fading);
    }

    /// The voice in slot `id`, if any, to change in place.
    pub fn get_mut(&mut self, id: VoiceId) -> (r: Option<&mut Voice>)
        ensures
            r is Some <==> id < old(self)@.len() && old(self)@[id as int] is Some,
            r matches Some(v) ==> *v == old(self)@[id as int]->Some_0
                && final(self)@ == old(self)@.update(id as int, Some(*final(v))),
            r is None ==> final(self)@ == old(self)@,
    {
        if id < self.slots.len() {
            match &mut self.slots[id] {
                Some(v) => Some(v),
                None => None,
            }
        } else {
            None
        }
    }

    /// Free the slots of voices that have stopped playing.
    pub fn reap_finished(&mut self)
        ensures
            final(self)@ == reaped(old(self)@),
    {
        let mut i: usize = 0;
        while i < self.slots.len()
            invariant
                self.slots@.len() == old(self).slots@.len(),
                i <= self.slots@.len(),
                forall|k: int| 0 <= k < i ==> #[trigger] self.slots@[k] == reaped(old(self).slots@)[k],
                forall|k: int| i <= k < self.slots@.len() ==> #[trigger] self.slots@[k] == old(self).slots@[k],
            decreases self.slots@.len() - i,
        {
            match self.slots[i] {
                Some(v) => {
                    if !v.playing {
                        self.slots.set(i, None);
                    }
                },
                None => {},
            }
            i = i + 1;
        }
        proof {
            assert(self.slots@ =~= reaped(old(self).slots@));
        }
    }

    /// Number of occupied slots.
    pub fn active_count(&self) -> (r: usize)
        ensures
            r == occupied(self@, self@.len() as int),
    {
        let mut n: usize = 0;
        let mut i: usize = 0;
        while i < self.slots.len()
            invariant
                i <= self.slots@.len(),
                n == occupied(self@, i as int),
                n <= i,
            decreases self.slots@.len() - i,
        {
            if self.slots[i].is_some() {
                n = n + 1;
            }
            i = i + 1;
        }
        n
    }
}

proof fn lemma_no_free(s: Seq<Option<Voice>>, n: int)
    requires
        0 <= n <= s.len(),
        first_free(s, n) is None,
    ensures
        forall|i: int| 0 <= i < n ==> (#[trigger] s[i]) is Some,
    decreases n,
{
    if n > 0 {
        lemma_no_free(s, n - 1);
    }
}

proof fn lemma_first_free_from(s: Seq<Option<Voice>>, i: int, n: int)
    requires
        1 <= i <= n <= s.len(),
        first_free(s, i) is Some,
    ensures
        first_free(s, n) == first_free(s, i),
    decreases n - i,
{
    if n > i {
        lemma_first_free_from(s, i, n - 1);
    }
}

} // verus!
