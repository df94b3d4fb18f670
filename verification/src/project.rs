//! The pass configuration of a multipass shader project: buffer passes A to
//! D and the image pass, which of them are in use, their sources and what
//! feeds their input channels. Compiling and running the passes is left to
//! the renderer; this is the state it is configured from and saved as.

use vstd::prelude::*;
use crate::scene::{
    ChannelSource, PassData, PassView, channel_name, channel_of_name, channel_canonical, pass_index_of,
    pass_name_of, pass_type_str, law_channel_round_trip, law_pass_type_round_trip, MAX_BUFFER_PASSES,
    MAX_PASSES,
};
use crate::web::{default_buffer_source, BUFFER_SOURCE_TAIL};

verus! {

/// The index of the image pass; buffers A to D are 0 to 3.
pub const IMAGE_PASS: usize = 4;

/// One pass slot.
pub struct PassSlot {
    /// In use (the image pass always is; a buffer pass once added).
    pub active: bool,
    /// Switched on by the user (a switched-off pass is skipped).
    pub enabled: bool,
    pub source: String,
    /// 1 for raw WGSL, 0 for Shadertoy GLSL.
    pub mode: u8,
    pub channels: [ChannelSource; 4],
}

impl Clone for PassSlot {
    fn clone(&self) -> (r: PassSlot)
        ensures
            r@ == self@,
    {
        PassSlot {
            active: self.active,
            enabled: self.enabled,
            source: self.source.clone(),
            mode: self.mode,
            channels: self.channels,
        }
    }
}

/// The plain contents of a pass slot.
#[verifier::ext_equal]
pub struct SlotView {
    pub active: bool,
    pub enabled: bool,
    pub source: Seq<char>,
    pub mode: u8,
    pub channels: Seq<ChannelSource>,
}

impl View for PassSlot {
    type V = SlotView;

    open spec fn view(&self) -> SlotView {
        SlotView {
            active: self.active,
            enabled: self.enabled,
            source: self.source@,
            mode: self.mode,
            channels: self.channels@,
        }
    }
}

/// A slot not in use: switched on, empty, mode 0, nothing feeding it.
pub open spec fn unused_slot() -> SlotView {
    SlotView {
        active: false,
        enabled: true,
        source: Seq::empty(),
        mode: 0,
        channels: seq![ChannelSource::NoSource, ChannelSource::NoSource, ChannelSource::NoSource, ChannelSource::NoSource],
    }
}

/// The slots of a new project: only the image pass is in use, and it is
/// empty.
pub open spec fn initial_slots() -> Seq<SlotView> {
    seq![unused_slot(), unused_slot(), unused_slot(), unused_slot(), SlotView { active: true, ..unused_slot() }]
}

/// Five slots; the image pass is in use; a slot not in use is unused.
pub open spec fn slots_wf(s: Seq<SlotView>) -> bool {
    &&& s.len() == MAX_PASSES
    &&& s[IMAGE_PASS as int].active
    &&& forall|i: int| 0 <= i < s.len() ==> (#[trigger] s[i]).channels.len() == 4
    &&& forall|i: int| 0 <= i < s.len() && !(#[trigger] s[i]).active ==> s[i] == unused_slot()
}

/// A saved pass as it is read back into its slot.
pub open spec fn loaded_slot(p: PassView) -> SlotView {
    SlotView {
        active: true,
        enabled: p.enabled,
        source: p.source,
        mode: p.mode,
        channels: p.channels.map_values(|c: Seq<char>| channel_of_name(c)),
    }
}

/// The slots after reading the saved passes `ps` in order, starting from
/// `s`: a pass of a known type fills its slot; others are skipped.
pub open spec fn load_all(s: Seq<SlotView>, ps: Seq<PassView>) -> Seq<SlotView>
    decreases ps.len(),
{
    if ps.len() == 0 {
        s
    } else {
        let t = load_all(s, ps.drop_last());
        match pass_index_of(ps.last().pass_type) {
            Some(i) => t.update(i as int, loaded_slot(ps.last())),
            None => t,
        }
    }
}

/// The slots a project has after loading the saved passes `ps`: every slot
/// unused, then the passes read in order, then the image pass in use.
pub open spec fn loaded_slots(ps: Seq<PassView>) -> Seq<SlotView> {
    let t = load_all(seq![unused_slot(), unused_slot(), unused_slot(), unused_slot(), unused_slot()], ps);
    t.update(IMAGE_PASS as int, SlotView { active: true, ..t[IMAGE_PASS as int] })
}

/// How the slot `i` is saved.
pub open spec fn saved_pass(i: int, s: SlotView) -> PassView {
    PassView {
        pass_type: pass_name_of(i as usize),
        enabled: s.enabled,
        source: s.source,
        mode: s.mode,
        channels: s.channels.map_values(|c: ChannelSource| channel_name(c)),
    }
}

/// The saved form of the first `n` slots: the slots in use, in order.
pub open spec fn saved_passes(s: Seq<SlotView>, n: int) -> Seq<PassView>
    decreases n,
{
    if n <= 0 {
        Seq::empty()
    } else if s[n - 1].active {
        saved_passes(s, n - 1).push(saved_pass(n - 1, s[n - 1]))
    } else {
        saved_passes(s, n - 1)
    }
}

/// The letter of buffer pass `i`.
pub open spec fn buffer_letter(i: int) -> Seq<char> {
    if i == 0 {
        "A"@
    } else if i == 1 {
        "B"@
    } else if i == 2 {
        "C"@
    } else {
        "D"@
    }
}

/// A newly added buffer pass `i`: in use, switched on, with the default
/// feedback source, fed by its own previous frame.
pub open spec fn added_buffer(i: int) -> SlotView {
    SlotView {
        active: true,
        enabled: true,
        source: "// Buffer "@ + buffer_letter(i) + BUFFER_SOURCE_TAIL@,
        mode: 0,
        channels: seq![ChannelSource::SelfPrev, ChannelSource::NoSource, ChannelSource::NoSource, ChannelSource::NoSource],
    }
}

/// The number of the first `n` slots that are in use and switched on.
pub open spec fn running_count(s: Seq<SlotView>, n: int) -> int
    decreases n,
{
    if n <= 0 {
        0
    } else {
        running_count(s, n - 1) + if s[n - 1].active && s[n - 1].enabled { 1int } else { 0int }
    }
}

fn unused() -> (r: PassSlot)
    ensures
        r@ == unused_slot(),
{
    let r = PassSlot {
        active: false,
        enabled: true,
        source: String::new(),
        mode: 0,
        channels: [ChannelSource::NoSource, ChannelSource::NoSource, ChannelSource::NoSource, ChannelSource::NoSource],
    };
    assert(r@ =~= unused_slot());
    r
}

/// Loading from all-unused slots leaves five slots, each unused or in use.
proof fn lemma_load_all_wf(ps: Seq<PassView>)
    ensures
        ({
            let t = load_all(seq![unused_slot(), unused_slot(), unused_slot(), unused_slot(), unused_slot()], ps);
            &&& t.len() == MAX_PASSES
            &&& forall|i: int| 0 <= i < t.len() && !(#[trigger] t[i]).active ==> t[i] == unused_slot()
        }),
    decreases ps.len(),
{
    if ps.len() > 0 {
        lemma_load_all_wf(ps.drop_last());
        law_pass_type_round_trip(0, ps.last().pass_type);
    }
}

/// Saving a project and loading what was saved gives back the same
/// configuration, provided every channel names a source in its canonical
/// form (buffer indices 0 to 3).
pub proof fn law_save_load_round_trip(s: Seq<SlotView>)
    requires
        slots_wf(s),
        forall|i: int, c: int| 0 <= i < s.len() && 0 <= c < 4 ==> channel_canonical(#[trigger] s[i].channels[c]),
    ensures
        loaded_slots(saved_passes(s, MAX_PASSES as int)) == s,
{
    lemma_load_saved(s, MAX_PASSES as int);
    let t = load_all(
        seq![unused_slot(), unused_slot(), unused_slot(), unused_slot(), unused_slot()],
        saved_passes(s, MAX_PASSES as int),
    );
    assert(t =~= s);
    assert(t.update(IMAGE_PASS as int, SlotView { active: true, ..t[IMAGE_PASS as int] }) =~= s);
}

proof fn lemma_load_saved(s: Seq<SlotView>, n: int)
    requires
        slots_wf(s),
        forall|i: int, c: int| 0 <= i < s.len() && 0 <= c < 4 ==> channel_canonical(#[trigger] s[i].channels[c]),
        0 <= n <= MAX_PASSES,
    ensures
        ({
            let t = load_all(
                seq![unused_slot(), unused_slot(), unused_slot(), unused_slot(), unused_slot()],
                saved_passes(s, n),
            );
            &&& t.len() == MAX_PASSES
            &&& forall|j: int| 0 <= j < n ==> #[trigger] t[j] == s[j]
            &&& forall|j: int| n <= j < MAX_PASSES ==> #[trigger] t[j] == unused_slot()
        }),
    decreases n,
{
    if n > 0 {
        lemma_load_saved(s, n - 1);
        if s[n - 1].active {
            let q = saved_passes(s, n - 1);
            let x = saved_pass(n - 1, s[n - 1]);
            assert(q.push(x).drop_last() =~= q);
            law_pass_type_round_trip((n - 1) as usize, x.pass_type);
            assert forall|c: int| 0 <= c < 4 implies #[trigger] channel_of_name(channel_name(s[n - 1].channels[c]))
                == s[n - 1].channels[c] by {
                law_channel_round_trip(s[n - 1].channels[c]);
            }
            assert(loaded_slot(x) =~= s[n - 1]);
        }
    }
}

/// Removing a buffer pass just added puts the project back as it was.
pub proof fn law_remove_undoes_add(s: Seq<SlotView>, i: int)
    requires
        slots_wf(s),
        0 <= i < MAX_BUFFER_PASSES,
        !s[i].active,
    ensures
        s.update(i, added_buffer(i)).update(i, unused_slot()) == s,
{
    assert(s.update(i, added_buffer(i)).update(i, unused_slot()) =~= s);
}

/// The pass configuration of a shader project.
pub struct ProjectPasses {
    slots: Vec<PassSlot>,
}

impl View for ProjectPasses {
    type V = Seq<SlotView>;

    closed spec fn view(&self) -> Seq<SlotView> {
        self.slots@.map_values(|s: PassSlot| s@)
    }
}

impl ProjectPasses {
    #[verifier::type_invariant]
    closed spec fn wf(self) -> bool {
        slots_wf(self@)
    }

    /// A project with only its (empty) image pass.
    pub fn new() -> (r: ProjectPasses)
        ensures
            r@ == initial_slots(),
    {
        let mut slots: Vec<PassSlot> = Vec::new();
        slots.push(unused());
        slots.push(unused());
        slots.push(unused());
        slots.push(unused());
        let mut image = unused();
        image.active = true;
        slots.push(image);
        let r = ProjectPasses { slots };
        assert(r@ =~= initial_slots());
        r
    }

    /// The slots (which are always well formed).
    pub fn slots(&self) -> (r: &Vec<PassSlot>)
        ensures
            r@.map_values(|s: PassSlot| s@) == self@,
            slots_wf(self@),
    {
        proof {
            use_type_invariant(self);
        }
        &self.slots
    }

    /// The slots with slot `index` replaced by `slot`.
    fn with_slot(&self, index: usize, slot: PassSlot) -> (r: Vec<PassSlot>)
        requires
            index < self.slots@.len(),
        ensures
            r@.map_values(|s: PassSlot| s@) == self@.update(index as int, slot@),
    {
        let mut v: Vec<PassSlot> = Vec::new();
        for i in 0..self.slots.len()
            invariant
                v@.len() == i,
                forall|j: int| 0 <= j < i ==> (#[trigger] v@[j])@ == self.slots@[j]@,
        {
            v.push(self.slots[i].clone());
        }
        v[index] = slot;
        proof {
            assert(v@.map_values(|s: PassSlot| s@) =~= self@.update(index as int, slot@));
        }
        v
    }

    /// The number of passes in use and switched on.
    pub fn active_pass_count(&self) -> (r: usize)
        ensures
            r == running_count(self@, MAX_PASSES as int),
    {
        self.running(MAX_PASSES)
    }

    /// The number of buffer passes in use and switched on.
    pub fn buffer_pass_count(&self) -> (r: usize)
        ensures
            r == running_count(self@, MAX_BUFFER_PASSES as int),
    {
        self.running(MAX_BUFFER_PASSES)
    }

    fn running(&self, n: usize) -> (r: usize)
        requires
            n <= MAX_PASSES,
        ensures
            r == running_count(self@, n as int),
    {
        proof {
            use_type_invariant(self);
        }
        let mut c: usize = 0;
        let mut i: usize = 0;
        while i < n
            invariant
                n <= MAX_PASSES,
                self.slots@.len() == MAX_PASSES,
                i <= n,
                c <= i,
                c == running_count(self@, i as int),
            decreases n - i,
        {
            proof {
                assert(self@[i as int] == self.slots@[i as int]@);
            }
            if self.slots[i].active && self.slots[i].enabled {
                c = c + 1;
            }
            i = i + 1;
        }
        c
    }

    /// Adds buffer pass `index` (0 to 3) with its default source, fed by its
    /// own previous frame. Refused (`false`, nothing changes) for an index
    /// out of range or a buffer already in use.
    pub fn add_buffer(&mut self, index: usize) -> (r: bool)
        ensures
            r == (index < MAX_BUFFER_PASSES && !old(self)@[index as int].active),
            r ==> final(self)@ == old(self)@.update(index as int, added_buffer(index as int)),
            !r ==> final(self)@ == old(self)@,
    {
        proof {
            use_type_invariant(&*self);
        }
        if index >= MAX_BUFFER_PASSES || self.slots[index].active {
            return false;
        }
        let letter = if index == 0 {
            "A"
        } else if index == 1 {
            "B"
        } else if index == 2 {
            "C"
        } else {
            "D"
        };
        let slot = PassSlot {
            active: true,
            enabled: true,
            source: default_buffer_source(letter),
            mode: 0,
            channels: [ChannelSource::SelfPrev, ChannelSource::NoSource, ChannelSource::NoSource, ChannelSource::NoSource],
        };
        proof {
            assert(slot@ =~= added_buffer(index as int));
        }
        self.slots = self.with_slot(index, slot);
        proof {
            assert(self@ =~= old(self)@.update(index as int, added_buffer(index as int)));
        }
        true
    }

    /// Removes buffer pass `index` (0 to 3): its slot becomes unused. Nothing
    /// changes for an index out of range or a buffer not in use.
    pub fn remove_buffer(&mut self, index: usize)
        ensures
            index < MAX_BUFFER_PASSES && old(self)@[index as int].active ==> final(self)@ == old(self)@.update(
                index as int,
                unused_slot(),
            ),
            !(index < MAX_BUFFER_PASSES && old(self)@[index as int].active) ==> final(self)@ == old(self)@,
    {
        proof {
            use_type_invariant(&*self);
        }
        if index >= MAX_BUFFER_PASSES || !self.slots[index].active {
            return;
        }
        self.slots = self.with_slot(index, unused());
        proof {
            assert(self@ =~= old(self)@.update(index as int, unused_slot()));
        }
    }

    /// Sets the source of pass `index` and its mode (raw WGSL or not).
    /// Refused (`false`, nothing changes) for a pass out of range or not in
    /// use.
    pub fn set_pass_source(&mut self, index: usize, raw: bool, src: &str) -> (r: bool)
        ensures
            r == (index < MAX_PASSES && old(self)@[index as int].active),
            r ==> final(self)@ == old(self)@.update(
                index as int,
                SlotView { source: src@, mode: if raw { 1u8 } else { 0u8 }, ..old(self)@[index as int] },
            ),
            !r ==> final(self)@ == old(self)@,
    {
        proof {
            use_type_invariant(&*self);
        }
        if index >= MAX_PASSES || !self.slots[index].active {
            return false;
        }
        let old_slot = &self.slots[index];
        let slot = PassSlot {
            active: old_slot.active,
            enabled: old_slot.enabled,
            source: src.to_owned(),
            mode: if raw { 1 } else { 0 },
            channels: old_slot.channels,
        };
        self.slots = self.with_slot(index, slot);
        proof {
            assert(self@ =~= old(self)@.update(
                index as int,
                SlotView { source: src@, mode: if raw { 1u8 } else { 0u8 }, ..old(self)@[index as int] },
            ));
        }
        true
    }

    /// Sets what feeds input `channel` (0 to 3) of pass `index`. Refused
    /// (`false`, nothing changes) for a pass or channel out of range or a
    /// pass not in use.
    pub fn set_channel(&mut self, index: usize, channel: usize, source: ChannelSource) -> (r: bool)
        ensures
            r == (index < MAX_PASSES && channel < 4 && old(self)@[index as int].active),
            r ==> final(self)@ == old(self)@.update(
                index as int,
                SlotView {
                    channels: old(self)@[index as int].channels.update(channel as int, source),
                    ..old(self)@[index as int]
                },
            ),
            !r ==> final(self)@ == old(self)@,
    {
        proof {
            use_type_invariant(&*self);
        }
        if index >= MAX_PASSES || channel >= 4 || !self.slots[index].active {
            return false;
        }
        let old_slot = &self.slots[index];
        let mut channels = old_slot.channels;
        channels[channel] = source;
        let slot = PassSlot {
            active: old_slot.active,
            enabled: old_slot.enabled,
            source: old_slot.source.clone(),
            mode: old_slot.mode,
            channels,
        };
        self.slots = self.with_slot(index, slot);
        proof {
            assert(self@ =~= old(self)@.update(
                index as int,
                SlotView {
                    channels: old(self)@[index as int].channels.update(channel as int, source),
                    ..old(self)@[index as int]
                },
            ));
        }
        true
    }

    /// Switches pass `index` on or off, if it is in use.
    pub fn set_pass_enabled(&mut self, index: usize, enabled: bool)
        ensures
            index < MAX_PASSES && old(self)@[index as int].active ==> final(self)@ == old(self)@.update(
                index as int,
                SlotView { enabled, ..old(self)@[index as int] },
            ),
            !(index < MAX_PASSES && old(self)@[index as int].active) ==> final(self)@ == old(self)@,
    {
        proof {
            use_type_invariant(&*self);
        }
        if index < MAX_PASSES && self.slots[index].active {
            let old_slot = &self.slots[index];
            let slot = PassSlot {
                active: old_slot.active,
                enabled,
                source: old_slot.source.clone(),
                mode: old_slot.mode,
                channels: old_slot.channels,
            };
            self.slots = self.with_slot(index, slot);
            proof {
                assert(self@ =~= old(self)@.update(index as int, SlotView { enabled, ..old(self)@[index as int] }));
            }
        }
    }

    /// The project as saved: the passes in use, in execution order (buffers
    /// A to D, then the image pass).
    pub fn to_passes(&self) -> (r: Vec<PassData>)
        ensures
            r@.len() == saved_passes(self@, MAX_PASSES as int).len(),
            forall|i: int| 0 <= i < r@.len() ==> (#[trigger] r@[i])@ == saved_passes(self@, MAX_PASSES as int)[i],
    {
        proof {
            use_type_invariant(self);
        }
        let mut r: Vec<PassData> = Vec::new();
        let mut i: usize = 0;
        while i < MAX_PASSES
            invariant
                self.slots@.len() == MAX_PASSES,
                i <= MAX_PASSES,
                r@.len() == saved_passes(self@, i as int).len(),
                forall|k: int| 0 <= k < r@.len() ==> (#[trigger] r@[k])@ == saved_passes(self@, i as int)[k],
            decreases MAX_PASSES - i,
        {
            let p = &self.slots[i];
            proof {
                assert(self@[i as int] == p@);
            }
            if p.active {
                let channels = [
                    p.channels[0].as_str().to_owned(),
                    p.channels[1].as_str().to_owned(),
                    p.channels[2].as_str().to_owned(),
                    p.channels[3].as_str().to_owned(),
                ];
                let d = PassData {
                    pass_type: pass_type_str(i).to_owned(),
                    enabled: p.enabled,
                    source: p.source.clone(),
                    mode: p.mode,
                    channels,
                };
                proof {
                    assert(d@ =~= saved_pass(i as int, self@[i as int]));
                }
                let ghost r0 = r@;
                r.push(d);
                proof {
                    assert forall|k: int| 0 <= k < r@.len() implies (#[trigger] r@[k])@ == saved_passes(
                        self@,
                        i + 1,
                    )[k] by {
                        if k < r0.len() {
                            assert(r@[k] == r0[k]);
                        }
                    }
                }
            }
            i = i + 1;
        }
        r
    }

    /// Rebuilds the project from saved passes: every slot becomes unused,
    /// then each saved pass of a known type fills its slot (a later pass of
    /// the same type wins), then the image pass is put in use if no saved
    /// pass filled it.
    pub fn load_passes(&mut self, passes: &[PassData])
        ensures
            final(self)@ == loaded_slots(passes@.map_values(|p: PassData| p@)),
    {
        let ghost ps = passes@.map_values(|p: PassData| p@);
        let ghost start = seq![unused_slot(), unused_slot(), unused_slot(), unused_slot(), unused_slot()];
        let mut v: Vec<PassSlot> = Vec::new();
        v.push(unused());
        v.push(unused());
        v.push(unused());
        v.push(unused());
        v.push(unused());
        proof {
            assert(v@.map_values(|s: PassSlot| s@) =~= start);
            assert(ps.take(0) =~= Seq::<PassView>::empty());
        }
        let mut j: usize = 0;
        while j < passes.len()
            invariant
                ps == passes@.map_values(|p: PassData| p@),
                start == seq![unused_slot(), unused_slot(), unused_slot(), unused_slot(), unused_slot()],
                j <= passes.len(),
                v@.len() == MAX_PASSES,
                v@.map_values(|s: PassSlot| s@) == load_all(start, ps.take(j as int)),
            decreases passes.len() - j,
        {
            let pd = &passes[j];
            proof {
                assert(ps.take(j + 1).drop_last() =~= ps.take(j as int));
                assert(ps.take(j + 1).last() == pd@);
            }
            match pd.index() {
                Some(i) => {
                    proof {
                        law_pass_type_round_trip(0, pd@.pass_type);
                    }
                    let channels = [
                        ChannelSource::parse(pd.channels[0].as_str()),
                        ChannelSource::parse(pd.channels[1].as_str()),
                        ChannelSource::parse(pd.channels[2].as_str()),
                        ChannelSource::parse(pd.channels[3].as_str()),
                    ];
                    let slot = PassSlot {
                        active: true,
                        enabled: pd.enabled,
                        source: pd.source.clone(),
                        mode: pd.mode,
                        channels,
                    };
                    proof {
                        assert(slot@ =~= loaded_slot(pd@));
                    }
                    let ghost v0 = v@;
                    v[i] = slot;
                    proof {
                        assert(v@.map_values(|s: PassSlot| s@) =~= v0.map_values(|s: PassSlot| s@).update(
                            i as int,
                            loaded_slot(pd@),
                        ));
                    }
                },
                None => {},
            }
            j = j + 1;
        }
        proof {
            assert(ps.take(j as int) =~= ps);
            lemma_load_all_wf(ps);
        }
        if !v[IMAGE_PASS].active {
            let ghost v0 = v@;
            v[IMAGE_PASS].active = true;
            proof {
                assert(v@.map_values(|s: PassSlot| s@) =~= v0.map_values(|s: PassSlot| s@).update(
                    IMAGE_PASS as int,
                    SlotView { active: true, ..v0[IMAGE_PASS as int]@ },
                ));
            }
        } else {
            proof {
                let t = load_all(start, ps);
                assert(t.update(IMAGE_PASS as int, SlotView { active: true, ..t[IMAGE_PASS as int] }) =~= t);
            }
        }
        self.slots = v;
    }

    /// The image pass's source and mode.
    pub fn image_source(&self) -> (r: (&str, u8))
        ensures
            r.0@ == self@[IMAGE_PASS as int].source,
            r.1 == self@[IMAGE_PASS as int].mode,
    {
        proof {
            use_type_invariant(self);
        }
        (self.slots[IMAGE_PASS].source.as_str(), self.slots[IMAGE_PASS].mode)
    }
}

} // verus!
