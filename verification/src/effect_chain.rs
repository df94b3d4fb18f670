//! Reorderable effect chains: an ordered list of effects addressed by stable
//! ids, with a selected effect. The chain decides order, ids and selection;
//! each effect's parameter settings are a payload `P` that it carries along
//! and never reads.

use std::collections::HashSet;
use vstd::prelude::*;
use crate::text::push_str;
use crate::web::{EffectKind, effect_display_name, effect_of_name, effect_type_name, law_effect_name_round_trip};

verus! {

/// One effect in a chain.
pub struct Effect<P> {
    pub id: u64,
    pub name: String,
    pub kind: EffectKind,
    pub enabled: bool,
    /// The effect's parameter settings.
    pub params: P,
}

/// The position of the first effect with id `id` at or after `i`.
pub open spec fn find_id<P>(s: Seq<Effect<P>>, id: u64, i: int) -> Option<int>
    decreases s.len() - i,
{
    if i < 0 || i >= s.len() {
        None
    } else if s[i].id == id {
        Some(i)
    } else {
        find_id(s, id, i + 1)
    }
}

pub open spec fn has_id<P>(s: Seq<Effect<P>>, id: u64) -> bool {
    exists|i: int| 0 <= i < s.len() && #[trigger] s[i].id == id
}

/// The effects whose id is not `id`, in order.
pub open spec fn without_id<P>(s: Seq<Effect<P>>, id: u64) -> Seq<Effect<P>>
    decreases s.len(),
{
    if s.len() == 0 {
        s
    } else if s.last().id == id {
        without_id(s.drop_last(), id)
    } else {
        without_id(s.drop_last(), id).push(s.last())
    }
}

/// The id of the last effect, if any.
pub open spec fn last_id<P>(s: Seq<Effect<P>>) -> Option<u64> {
    if s.len() == 0 {
        None
    } else {
        Some(s.last().id)
    }
}

/// The effects after moving the first one with id `id` one place up
/// (towards the front) or down; unchanged if it is absent or already at that
/// end.
pub open spec fn moved<P>(s: Seq<Effect<P>>, id: u64, up: bool) -> Seq<Effect<P>> {
    match find_id(s, id, 0) {
        None => s,
        Some(i) => if up && i > 0 {
            s.update(i - 1, s[i]).update(i, s[i - 1])
        } else if !up && i + 1 < s.len() {
            s.update(i, s[i + 1]).update(i + 1, s[i])
        } else {
            s
        },
    }
}

pub proof fn lemma_find_id<P>(s: Seq<Effect<P>>, id: u64, i: int)
    requires
        0 <= i,
    ensures
        find_id(s, id, i) matches Some(p) ==> i <= p < s.len() && s[p].id == id && forall|q: int|
            i <= q < p ==> s[q].id != id,
        find_id(s, id, i) is None ==> forall|q: int| i <= q < s.len() ==> s[q].id != id,
    decreases s.len() - i,
{
    if i < s.len() && s[i].id != id {
        lemma_find_id(s, id, i + 1);
    }
}

/// An effect as saved in a scene.
pub struct EffectData<P> {
    pub id: u64,
    pub name: String,
    /// The serialized name of the effect's kind.
    pub effect_type: String,
    pub enabled: bool,
    pub params: P,
}

/// `k` is the least positive id that does not occur in `used`.
pub open spec fn is_least_free(used: Seq<u64>, k: u64) -> bool {
    &&& k >= 1
    &&& !used.contains(k)
    &&& forall|j: u64| 1 <= j < k ==> used.contains(j)
}

/// The least positive id that does not occur in `used`.
pub open spec fn least_free(used: Seq<u64>) -> u64 {
    choose|k: u64| is_least_free(used, k)
}

/// The ids given on reload to effects saved under `ids`: a saved id is kept
/// unless it is 0 or already given, and then the least free positive id is
/// used.
pub open spec fn assigned_ids(ids: Seq<u64>) -> Seq<u64>
    decreases ids.len(),
{
    if ids.len() == 0 {
        Seq::empty()
    } else {
        let prev = assigned_ids(ids.drop_last());
        let id = ids.last();
        prev.push(if id != 0 && !prev.contains(id) { id } else { least_free(prev) })
    }
}

/// The saved effects whose type is known, in order.
pub open spec fn known_data<P>(d: Seq<EffectData<P>>) -> Seq<EffectData<P>>
    decreases d.len(),
{
    if d.len() == 0 {
        d
    } else if effect_of_name(d.last().effect_type@) is Some {
        known_data(d.drop_last()).push(d.last())
    } else {
        known_data(d.drop_last())
    }
}

/// The saved ids of the effects whose type is known.
pub open spec fn known_ids<P>(d: Seq<EffectData<P>>) -> Seq<u64> {
    known_data(d).map_values(|e: EffectData<P>| e.id)
}

/// The largest of `s`, or 0.
pub open spec fn seq_max(s: Seq<u64>) -> u64
    decreases s.len(),
{
    if s.len() == 0 {
        0
    } else if s.last() > seq_max(s.drop_last()) {
        s.last()
    } else {
        seq_max(s.drop_last())
    }
}

/// `d` is what saving the effects `e` gives.
pub open spec fn saved_as<P: Clone>(e: Seq<Effect<P>>, d: Seq<EffectData<P>>) -> bool {
    &&& d.len() == e.len()
    &&& forall|i: int|
        0 <= i < e.len() ==> {
            &&& (#[trigger] d[i]).id == e[i].id
            &&& d[i].name@ == e[i].name@
            &&& d[i].effect_type@ == effect_type_name(e[i].kind)
            &&& d[i].enabled == e[i].enabled
            &&& cloned(e[i].params, d[i].params)
        }
}

/// `e` is what reloading the saved effects `d` gives: the effects of a known
/// type, in order, under the ids `assigned_ids` gives them.
pub open spec fn reloaded_as<P>(d: Seq<EffectData<P>>, e: Seq<Effect<P>>) -> bool {
    let k = known_data(d);
    let ids = assigned_ids(known_ids(d));
    &&& e.len() == k.len()
    &&& forall|i: int|
        0 <= i < e.len() ==> {
            &&& (#[trigger] e[i]).id == ids[i]
            &&& e[i].name@ == k[i].name@
            &&& effect_of_name(k[i].effect_type@) == Some(e[i].kind)
            &&& e[i].enabled == k[i].enabled
            &&& e[i].params == k[i].params
        }
}

/// The ids that [`assigned_ids`] gives to saved ids `saved`.
pub fn assign_ids(saved: &Vec<u64>) -> (r: Vec<u64>)
    ensures
        r@ == assigned_ids(saved@),
{
    broadcast use vstd::std_specs::hash::group_hash_axioms;

    let mut r: Vec<u64> = Vec::new();
    let mut used: HashSet<u64> = HashSet::new();
    let mut fallback: u64 = 1;
    for j in 0..saved.len()
        invariant
            r@ == assigned_ids(saved@.take(j as int)),
            r@.len() == j,
            forall|x: u64| used@.contains(x) <==> r@.contains(x),
            1 <= fallback,
            forall|x: u64| 1 <= x < fallback ==> r@.contains(x),
            saved@.len() <= usize::MAX,
    {
        let ghost prev = r@;
        proof {
            assert(saved@.take(j + 1).drop_last() =~= saved@.take(j as int));
            assert(saved@.take(j + 1).last() == saved@[j as int]);
        }
        let mut id = saved[j];
        if id == 0 || used.contains(&id) {
            while used.contains(&fallback)
                invariant
                    1 <= fallback,
                    forall|x: u64| used@.contains(x) <==> prev.contains(x),
                    forall|x: u64| 1 <= x < fallback ==> prev.contains(x),
                    prev.len() == j < saved@.len() <= usize::MAX,
                decreases u64::MAX - fallback,
            {
                proof {
                    lemma_covers(prev, fallback);
                }
                fallback = fallback + 1;
            }
            proof {
                lemma_least_free_unique(prev, fallback);
            }
            id = fallback;
        }
        let ghost used0 = used@;
        used.insert(id);
        r.push(id);
        proof {
            assert(r@ =~= prev.push(id));
            assert forall|x: u64| 1 <= x < fallback implies r@.contains(x) by {
                assert(prev.contains(x));
                let t = prev.index_of(x);
                assert(r@[t] == x);
            }
            assert forall|x: u64| used@.contains(x) <==> r@.contains(x) by {
                assert(r@[prev.len() as int] == id);
                if prev.contains(x) {
                    let t = prev.index_of(x);
                    assert(r@[t] == x);
                }
                if r@.contains(x) {
                    let t = r@.index_of(x);
                    if t < prev.len() {
                        assert(prev[t] == x);
                    }
                }
            }
        }
    }
    proof {
        assert(saved@.take(saved@.len() as int) =~= saved@);
    }
    r
}

/// The largest of `v`, or 0.
pub fn max_of(v: &Vec<u64>) -> (r: u64)
    ensures
        r == seq_max(v@),
{
    let mut m: u64 = 0;
    for i in 0..v.len()
        invariant
            m == seq_max(v@.take(i as int)),
    {
        proof {
            assert(v@.take(i + 1).drop_last() =~= v@.take(i as int));
            assert(v@.take(i + 1).last() == v@[i as int]);
        }
        if v[i] > m {
            m = v[i];
        }
    }
    proof {
        assert(v@.take(v@.len() as int) =~= v@);
    }
    m
}

/// Every element of `s` is at most its largest.
pub proof fn lemma_seq_max(s: Seq<u64>)
    ensures
        forall|i: int| 0 <= i < s.len() ==> s[i] <= seq_max(s),
        s.len() > 0 ==> s.contains(seq_max(s)),
    decreases s.len(),
{
    if s.len() > 0 {
        lemma_seq_max(s.drop_last());
        assert forall|i: int| 0 <= i < s.len() implies s[i] <= seq_max(s) by {
            if i < s.len() - 1 {
                assert(s[i] == s.drop_last()[i]);
            }
        }
        if s.last() > seq_max(s.drop_last()) || s.len() == 1 {
            assert(s[s.len() - 1] == s.last());
        } else {
            let t = s.drop_last().index_of(seq_max(s.drop_last()));
            assert(s[t] == s.drop_last()[t]);
        }
    }
}

proof fn lemma_assigned_len(ids: Seq<u64>)
    ensures
        assigned_ids(ids).len() == ids.len(),
    decreases ids.len(),
{
    if ids.len() > 0 {
        lemma_assigned_len(ids.drop_last());
    }
}

/// The ids given to a prefix of saved ids are a prefix of those given to
/// all of them.
pub proof fn lemma_assigned_prefix(s: Seq<u64>, n: int)
    requires
        0 <= n <= s.len(),
    ensures
        assigned_ids(s.take(n)) == assigned_ids(s).take(n),
        assigned_ids(s).len() == s.len(),
    decreases s.len(),
{
    lemma_assigned_len(s);
    if n == s.len() {
        assert(s.take(n) =~= s);
        assert(assigned_ids(s).take(n) =~= assigned_ids(s));
    } else {
        let p = s.drop_last();
        assert(s.take(n) =~= p.take(n));
        lemma_assigned_prefix(p, n);
        assert(assigned_ids(s).take(n) =~= assigned_ids(p).take(n));
    }
}

/// A sequence that holds every id from 1 to `f` is at least `f` long.
proof fn lemma_covers(s: Seq<u64>, f: u64)
    requires
        forall|x: u64| 1 <= x <= f ==> s.contains(x),
    ensures
        s.len() >= f,
    decreases f,
{
    if f > 0 {
        assert(s.contains(f));
        let i = s.index_of(f);
        let t = s.remove(i);
        assert forall|x: u64| 1 <= x <= f - 1 implies t.contains(x) by {
            assert(s.contains(x));
            let k = s.index_of(x);
            if k < i {
                assert(t[k] == x);
            } else {
                assert(k != i);
                assert(t[k - 1] == x);
            }
        }
        lemma_covers(t, (f - 1) as u64);
    }
}

proof fn lemma_least_free_from(s: Seq<u64>, k: u64)
    requires
        s.len() < u64::MAX,
        1 <= k <= s.len() + 1,
        forall|x: u64| 1 <= x < k ==> s.contains(x),
    ensures
        is_least_free(s, least_free(s)),
    decreases s.len() + 1 - k,
{
    if !s.contains(k) {
        assert(is_least_free(s, k));
    } else {
        lemma_covers(s, k);
        if k == s.len() + 1 {
            assert(false);
        } else {
            lemma_least_free_from(s, (k + 1) as u64);
        }
    }
}

/// Some positive id is free in a sequence shorter than the id range.
proof fn lemma_least_free(s: Seq<u64>)
    requires
        s.len() < u64::MAX,
    ensures
        is_least_free(s, least_free(s)),
{
    lemma_least_free_from(s, 1);
}

/// The least free id is the only one with that property.
proof fn lemma_least_free_unique(s: Seq<u64>, k: u64)
    requires
        is_least_free(s, k),
    ensures
        least_free(s) == k,
{
    let m = least_free(s);
    assert(is_least_free(s, m));
    if m < k {
        assert(s.contains(m));
    } else if m > k {
        assert(s.contains(k));
    }
}

proof fn lemma_assigned_ids(ids: Seq<u64>)
    requires
        ids.len() <= u64::MAX,
    ensures
        assigned_ids(ids).len() == ids.len(),
        assigned_ids(ids).no_duplicates(),
        forall|i: int| 0 <= i < ids.len() ==> #[trigger] assigned_ids(ids)[i] >= 1,
    decreases ids.len(),
{
    if ids.len() > 0 {
        let prev = assigned_ids(ids.drop_last());
        lemma_assigned_ids(ids.drop_last());
        lemma_least_free(prev);
        let id = ids.last();
        let n = if id != 0 && !prev.contains(id) { id } else { least_free(prev) };
        assert forall|a: int, b: int| 0 <= a < b < assigned_ids(ids).len() implies assigned_ids(ids)[a]
            != assigned_ids(ids)[b] by {
            if b == prev.len() {
                assert(prev[a] == assigned_ids(ids)[a]);
                if prev[a] == n {
                    assert(prev.contains(n));
                }
            } else {
                assert(prev[a] == assigned_ids(ids)[a]);
                assert(prev[b] == assigned_ids(ids)[b]);
            }
        }
        assert forall|i: int| 0 <= i < ids.len() implies #[trigger] assigned_ids(ids)[i] >= 1 by {
            if i < prev.len() {
                assert(prev[i] == assigned_ids(ids)[i]);
            }
        }
    }
}

proof fn lemma_known_step<P>(d: Seq<EffectData<P>>, j: int)
    requires
        0 <= j < d.len(),
    ensures
        known_data(d.take(j + 1)) == (if effect_of_name(d[j].effect_type@) is Some {
            known_data(d.take(j)).push(d[j])
        } else {
            known_data(d.take(j))
        }),
        known_ids(d.take(j + 1)) == (if effect_of_name(d[j].effect_type@) is Some {
            known_ids(d.take(j)).push(d[j].id)
        } else {
            known_ids(d.take(j))
        }),
{
    assert(d.take(j + 1).drop_last() =~= d.take(j));
    assert(d.take(j + 1).last() == d[j]);
    if effect_of_name(d[j].effect_type@) is Some {
        assert(known_ids(d.take(j + 1)) =~= known_ids(d.take(j)).push(d[j].id));
    }
}

proof fn lemma_known_len<P>(d: Seq<EffectData<P>>)
    ensures
        known_data(d).len() <= d.len(),
    decreases d.len(),
{
    if d.len() > 0 {
        lemma_known_len(d.drop_last());
    }
}

/// A reorderable chain of effects (a layer's chain or the global chain).
pub struct EffectChain<P> {
    effects: Vec<Effect<P>>,
    selected: Option<u64>,
}

impl<P> EffectChain<P> {
    /// The effects, in order.
    pub closed spec fn entries(&self) -> Seq<Effect<P>> {
        self.effects@
    }

    /// The id of the selected effect, if any.
    pub closed spec fn selection(&self) -> Option<u64> {
        self.selected
    }

    /// An empty chain with nothing selected.
    pub fn new() -> (r: EffectChain<P>)
        ensures
            r.entries() == Seq::<Effect<P>>::empty(),
            r.selection() is None,
    {
        EffectChain { effects: Vec::new(), selected: None }
    }

    /// The effects, in order.
    pub fn effects(&self) -> (r: &Vec<Effect<P>>)
        ensures
            r@ == self.entries(),
    {
        &self.effects
    }

    /// The id of the selected effect, if any.
    pub fn selected(&self) -> (r: Option<u64>)
        ensures
            r == self.selection(),
    {
        self.selected
    }

    /// Whether no effect of the chain is enabled.
    pub fn is_empty_enabled(&self) -> (r: bool)
        ensures
            r == !(exists|i: int| 0 <= i < self.entries().len() && #[trigger] self.entries()[i].enabled),
    {
        let mut i: usize = 0;
        while i < self.effects.len()
            invariant
                i <= self.effects.len(),
                forall|j: int| 0 <= j < i ==> !(#[trigger] self.effects@[j]).enabled,
            decreases self.effects.len() - i,
        {
            if self.effects[i].enabled {
                return false;
            }
            i = i + 1;
        }
        true
    }

    /// The number of effects.
    pub fn len(&self) -> (r: usize)
        ensures
            r == self.entries().len(),
    {
        self.effects.len()
    }

    /// The position of the first effect with id `id`.
    pub fn find(&self, id: u64) -> (r: Option<usize>)
        ensures
            r matches Some(i) ==> find_id(self.entries(), id, 0) == Some(i as int),
            r is None ==> find_id(self.entries(), id, 0) is None,
    {
        let mut i: usize = 0;
        while i < self.effects.len()
            invariant
                i <= self.effects.len(),
                find_id(self.effects@, id, 0) == find_id(self.effects@, id, i as int),
            decreases self.effects.len() - i,
        {
            if self.effects[i].id == id {
                return Some(i);
            }
            i = i + 1;
        }
        None
    }

    /// Appends a new, enabled effect of `kind` under `id` (named after its
    /// kind, with the given parameters) and selects it. Returns `id`.
    pub fn add(&mut self, id: u64, kind: EffectKind, params: P) -> (r: u64)
        ensures
            r == id,
            final(self).entries().len() == old(self).entries().len() + 1,
            final(self).entries().drop_last() == old(self).entries(),
            final(self).entries().last().id == id,
            final(self).entries().last().name@ == effect_display_name(kind),
            final(self).entries().last().kind == kind,
            final(self).entries().last().enabled,
            final(self).entries().last().params == params,
            final(self).selection() == Some(id),
    {
        let name = kind.name().to_owned();
        self.effects.push(Effect { id, name, kind, enabled: true, params });
        self.selected = Some(id);
        proof {
            assert(self.effects@.drop_last() =~= old(self).effects@);
        }
        id
    }

    /// Whether an effect with id `id` is in the chain.
    pub fn has(&self, id: u64) -> (r: bool)
        ensures
            r == has_id(self.entries(), id),
    {
        let f = self.find(id);
        proof {
            lemma_find_id(self.effects@, id, 0);
        }
        f.is_some()
    }

    /// Whether the effect with id `id` is enabled; `None` if there is none.
    pub fn enabled(&self, id: u64) -> (r: Option<bool>)
        ensures
            r == (match find_id(self.entries(), id, 0) {
                Some(i) => Some(self.entries()[i].enabled),
                None => None,
            }),
    {
        proof {
            lemma_find_id(self.effects@, id, 0);
        }
        match self.find(id) {
            Some(i) => Some(self.effects[i].enabled),
            None => None,
        }
    }

    /// `(id, kind, enabled)` for each effect, in order.
    pub fn ids_kinds(&self) -> (r: Vec<(u64, EffectKind, bool)>)
        ensures
            r@.len() == self.entries().len(),
            forall|i: int|
                0 <= i < r@.len() ==> #[trigger] r@[i] == (
                    self.entries()[i].id,
                    self.entries()[i].kind,
                    self.entries()[i].enabled,
                ),
    {
        let mut r: Vec<(u64, EffectKind, bool)> = Vec::new();
        for i in 0..self.effects.len()
            invariant
                r@.len() == i,
                forall|j: int|
                    0 <= j < i ==> #[trigger] r@[j] == (
                        self.effects@[j].id,
                        self.effects@[j].kind,
                        self.effects@[j].enabled,
                    ),
        {
            let e = &self.effects[i];
            r.push((e.id, e.kind, e.enabled));
        }
        r
    }

    /// Selects the effect with id `id`, if there is one; otherwise nothing
    /// changes.
    pub fn select(&mut self, id: u64)
        ensures
            final(self).entries() == old(self).entries(),
            final(self).selection() == (if has_id(old(self).entries(), id) {
                Some(id)
            } else {
                old(self).selection()
            }),
    {
        if self.has(id) {
            self.selected = Some(id);
        }
    }

    /// Enables or disables the first effect with id `id`, if any.
    pub fn set_enabled(&mut self, id: u64, enabled: bool)
        ensures
            final(self).selection() == old(self).selection(),
            final(self).entries().len() == old(self).entries().len(),
            forall|i: int|
                0 <= i < old(self).entries().len() && find_id(old(self).entries(), id, 0) != Some(i)
                    ==> #[trigger] final(self).entries()[i] == old(self).entries()[i],
            find_id(old(self).entries(), id, 0) matches Some(p) ==> {
                let (a, b) = (final(self).entries()[p], old(self).entries()[p]);
                &&& a.id == b.id
                &&& a.name == b.name
                &&& a.kind == b.kind
                &&& a.enabled == enabled
                &&& a.params == b.params
            },
    {
        proof {
            lemma_find_id(self.effects@, id, 0);
        }
        match self.find(id) {
            Some(i) => {
                self.effects[i].enabled = enabled;
            },
            None => {},
        }
    }

    /// Removes every effect with id `id`. If it was selected, the last
    /// remaining effect becomes selected (nothing, if none remains).
    pub fn remove(&mut self, id: u64)
        ensures
            final(self).entries() == without_id(old(self).entries(), id),
            final(self).selection() == (if old(self).selection() == Some(id) {
                last_id(without_id(old(self).entries(), id))
            } else {
                old(self).selection()
            }),
    {
        let ghost e0 = self.effects@;
        let mut i: usize = 0;
        let ghost mut j: int = 0;
        while i < self.effects.len()
            invariant
                0 <= j <= e0.len(),
                i <= self.effects.len(),
                self.effects@.take(i as int) == without_id(e0.take(j), id),
                self.effects@.skip(i as int) == e0.skip(j),
                self.effects.len() - i == e0.len() - j,
                self.selected == old(self).selected,
                e0 == old(self).effects@,
            decreases e0.len() - j,
        {
            proof {
                assert(e0.skip(j)[0] == self.effects@[i as int]);
                assert(e0.take(j + 1).drop_last() =~= e0.take(j));
                assert(e0.take(j + 1).last() == e0[j]);
            }
            if self.effects[i].id == id {
                let ghost before = self.effects@;
                self.effects.remove(i);
                proof {
                    assert(self.effects@.take(i as int) =~= before.take(i as int));
                    assert forall|k: int| 0 <= k < self.effects@.skip(i as int).len() implies self.effects@.skip(
                        i as int,
                    )[k] == e0.skip(j + 1)[k] by {
                        assert(before.skip(i as int)[k + 1] == e0.skip(j)[k + 1]);
                    }
                    assert(self.effects@.skip(i as int) =~= e0.skip(j + 1));
                    j = j + 1;
                }
            } else {
                let ghost before = self.effects@;
                i = i + 1;
                proof {
                    assert(self.effects@.take(i as int) =~= before.take(i - 1).push(e0[j]));
                    assert forall|k: int| 0 <= k < self.effects@.skip(i as int).len() implies self.effects@.skip(
                        i as int,
                    )[k] == e0.skip(j + 1)[k] by {
                        assert(before.skip(i - 1)[k + 1] == e0.skip(j)[k + 1]);
                    }
                    assert(self.effects@.skip(i as int) =~= e0.skip(j + 1));
                    j = j + 1;
                }
            }
        }
        proof {
            assert(e0.skip(j).len() == 0);
            assert(e0.take(j) =~= e0);
            assert(self.effects@.take(i as int) =~= self.effects@);
        }
        if self.selected == Some(id) {
            let n = self.effects.len();
            if n == 0 {
                self.selected = None;
            } else {
                self.selected = Some(self.effects[n - 1].id);
            }
        }
    }

    /// Moves the first effect with id `id` one place up (towards the front)
    /// or down; nothing changes if it is absent or already at that end.
    pub fn move_effect(&mut self, id: u64, up: bool)
        ensures
            final(self).entries() == moved(old(self).entries(), id, up),
            final(self).selection() == old(self).selection(),
    {
        proof {
            lemma_find_id(self.effects@, id, 0);
        }
        let ghost e0 = self.effects@;
        match self.find(id) {
            None => {},
            Some(i) => {
                assert(i < self.effects.len());
                if up && i > 0 {
                    let e = self.effects.remove(i);
                    self.effects.insert(i - 1, e);
                    proof {
                        assert(self.effects@ =~= e0.update(i - 1, e0[i as int]).update(i as int, e0[i - 1]));
                    }
                } else if !up && i + 1 < self.effects.len() {
                    let e = self.effects.remove(i);
                    self.effects.insert(i + 1, e);
                    proof {
                        assert(self.effects@ =~= e0.update(i as int, e0[i + 1]).update(i + 1, e0[i as int]));
                    }
                }
            },
        }
    }

    /// Inserts a copy of the first effect with id `id` right after it, under
    /// `new_id` and named "<name> copy", and selects the copy. Returns
    /// `new_id`, or `None` (changing nothing) if there is no such effect.
    pub fn duplicate(&mut self, id: u64, new_id: u64) -> (r: Option<u64>)
        where P: Clone,
        ensures
            find_id(old(self).entries(), id, 0) is None ==> {
                &&& r is None
                &&& final(self).entries() == old(self).entries()
                &&& final(self).selection() == old(self).selection()
            },
            find_id(old(self).entries(), id, 0) matches Some(p) ==> {
                let (e, c) = (old(self).entries(), final(self).entries());
                &&& r == Some(new_id)
                &&& final(self).selection() == Some(new_id)
                &&& c.len() == e.len() + 1
                &&& c.take(p + 1) == e.take(p + 1)
                &&& c.skip(p + 2) == e.skip(p + 1)
                &&& c[p + 1].id == new_id
                &&& c[p + 1].name@ == e[p].name@ + " copy"@
                &&& c[p + 1].kind == e[p].kind
                &&& c[p + 1].enabled == e[p].enabled
                &&& cloned(e[p].params, c[p + 1].params)
            },
    {
        proof {
            lemma_find_id(self.effects@, id, 0);
        }
        let ghost e0 = self.effects@;
        match self.find(id) {
            None => None,
            Some(i) => {
                assert(i < self.effects.len());
                let src = &self.effects[i];
                let mut name = src.name.clone();
                push_str(&mut name, " copy");
                let copy = Effect { id: new_id, name, kind: src.kind, enabled: src.enabled, params: src.params.clone() };
                self.effects.insert(i + 1, copy);
                self.selected = Some(new_id);
                proof {
                    assert(self.effects@.take(i + 1) =~= e0.take(i + 1));
                    assert(self.effects@.skip(i + 2) =~= e0.skip(i + 1));
                }
                Some(new_id)
            },
        }
    }

    /// The chain as saved in a scene.
    pub fn to_data(&self) -> (r: Vec<EffectData<P>>)
        where P: Clone,
        ensures
            saved_as(self.entries(), r@),
    {
        let mut r: Vec<EffectData<P>> = Vec::new();
        for i in 0..self.effects.len()
            invariant
                saved_as(self.effects@.take(i as int), r@),
        {
            let e = &self.effects[i];
            let d = EffectData {
                id: e.id,
                name: e.name.clone(),
                effect_type: e.kind.type_str().to_owned(),
                enabled: e.enabled,
                params: e.params.clone(),
            };
            r.push(d);
            proof {
                let t = self.effects@.take(i + 1);
                assert forall|k: int| 0 <= k < t.len() implies {
                    &&& (#[trigger] r@[k]).id == t[k].id
                    &&& r@[k].name@ == t[k].name@
                    &&& r@[k].effect_type@ == effect_type_name(t[k].kind)
                    &&& r@[k].enabled == t[k].enabled
                    &&& cloned(t[k].params, r@[k].params)
                } by {
                    if k < i {
                        assert(self.effects@.take(i as int)[k] == t[k]);
                    }
                }
            }
        }
        proof {
            assert(self.effects@.take(self.effects@.len() as int) =~= self.effects@);
        }
        r
    }

    /// Rebuilds the chain from saved effects, keeping each saved id so that
    /// it stays a stable address across a save and reload. An id that is 0
    /// or already taken gets the least free positive id instead; effects of
    /// an unknown type are skipped. The first effect becomes selected.
    /// Returns the highest id used (0 if none).
    pub fn from_data(&mut self, data: Vec<EffectData<P>>) -> (r: u64)
        ensures
            reloaded_as(data@, final(self).entries()),
            final(self).selection() == (if known_data(data@).len() == 0 {
                None
            } else {
                Some(assigned_ids(known_ids(data@))[0])
            }),
            r == seq_max(assigned_ids(known_ids(data@))),
    {
        broadcast use vstd::std_specs::hash::group_hash_axioms;

        self.effects = Vec::new();
        let mut used: HashSet<u64> = HashSet::new();
        let mut fallback: u64 = 1;
        let mut max_id: u64 = 0;
        let mut rest = data;
        let ghost d0 = rest@;
        let ghost mut j: int = 0;
        proof {
            assert(d0.len() == rest.len());
            assert(d0.take(0) =~= Seq::<EffectData<P>>::empty());
            assert(known_ids(d0.take(0)) =~= Seq::<u64>::empty());
        }
        while rest.len() > 0
            invariant
                0 <= j <= d0.len(),
                rest@ == d0.skip(j),
                reloaded_as(d0.take(j), self.effects@),
                assigned_ids(known_ids(d0.take(j))).len() == self.effects@.len(),
                self.effects@.len() <= j,
                forall|x: u64| used@.contains(x) <==> assigned_ids(known_ids(d0.take(j))).contains(x),
                1 <= fallback,
                forall|x: u64| 1 <= x < fallback ==> assigned_ids(known_ids(d0.take(j))).contains(x),
                max_id == seq_max(assigned_ids(known_ids(d0.take(j)))),
                d0.len() <= usize::MAX,
            decreases rest.len(),
        {
            let ghost prev = assigned_ids(known_ids(d0.take(j)));
            proof {
                assert(rest@[0] == d0[j]);
                lemma_known_step(d0, j);
                lemma_known_len(d0.take(j));
            }
            let d = rest.remove(0);
            let kind = EffectKind::from_str(d.effect_type.as_str());
            match kind {
                None => {},
                Some(kind) => {
                    let mut id = d.id;
                    if id == 0 || used.contains(&id) {
                        while used.contains(&fallback)
                            invariant
                                1 <= fallback,
                                forall|x: u64| used@.contains(x) <==> prev.contains(x),
                                forall|x: u64| 1 <= x < fallback ==> prev.contains(x),
                                prev.len() <= j < d0.len() <= usize::MAX,
                            decreases u64::MAX - fallback,
                        {
                            proof {
                                lemma_covers(prev, fallback);
                            }
                            fallback = fallback + 1;
                        }
                        proof {
                            lemma_least_free_unique(prev, fallback);
                        }
                        id = fallback;
                    }
                    let ghost used0 = used@;
                    used.insert(id);
                    if id > max_id {
                        max_id = id;
                    }
                    let e = Effect { id, name: d.name, kind, enabled: d.enabled, params: d.params };
                    self.effects.push(e);
                    proof {
                        let k2 = assigned_ids(known_ids(d0.take(j + 1)));
                        assert(known_ids(d0.take(j + 1)).drop_last() =~= known_ids(d0.take(j)));
                        assert(k2.drop_last() =~= prev);
                        assert(k2 =~= prev.push(id));
                        assert(used@ == used0.insert(id));
                        assert forall|x: u64| 1 <= x < fallback implies k2.contains(x) by {
                            assert(prev.contains(x));
                            let t = prev.index_of(x);
                            assert(k2[t] == x);
                        }
                        assert forall|x: u64| used@.contains(x) <==> k2.contains(x) by {
                            assert(k2[prev.len() as int] == id);
                            assert(used0.contains(x) <==> prev.contains(x));
                            if prev.contains(x) {
                                let t = prev.index_of(x);
                                assert(k2[t] == x);
                            }
                            if k2.contains(x) {
                                let t = k2.index_of(x);
                                if t < prev.len() {
                                    assert(prev[t] == x);
                                }
                            }
                        }
                        assert forall|i: int| 0 <= i < self.effects@.len() implies {
                            &&& (#[trigger] self.effects@[i]).id == k2[i]
                            &&& self.effects@[i].name@ == known_data(d0.take(j + 1))[i].name@
                            &&& effect_of_name(known_data(d0.take(j + 1))[i].effect_type@) == Some(self.effects@[i].kind)
                            &&& self.effects@[i].enabled == known_data(d0.take(j + 1))[i].enabled
                            &&& self.effects@[i].params == known_data(d0.take(j + 1))[i].params
                        } by {
                            if i < prev.len() {
                                assert(k2[i] == prev[i]);
                            }
                        }
                    }
                },
            }
            proof {
                assert(rest@ =~= d0.skip(j + 1));
                j = j + 1;
            }
        }
        proof {
            assert(d0.skip(j).len() == 0);
            assert(d0.take(j) =~= d0);
        }
        if self.effects.len() > 0 {
            self.selected = Some(self.effects[0].id);
        } else {
            self.selected = None;
        }
        max_id
    }

    /// Replaces the parameters of the effect at position `i`.
    pub fn set_params(&mut self, i: usize, params: P)
        requires
            i < old(self).entries().len(),
        ensures
            final(self).selection() == old(self).selection(),
            final(self).entries().len() == old(self).entries().len(),
            forall|j: int|
                0 <= j < old(self).entries().len() && j != i
                    ==> #[trigger] final(self).entries()[j] == old(self).entries()[j],
            final(self).entries()[i as int].id == old(self).entries()[i as int].id,
            final(self).entries()[i as int].name == old(self).entries()[i as int].name,
            final(self).entries()[i as int].kind == old(self).entries()[i as int].kind,
            final(self).entries()[i as int].enabled == old(self).entries()[i as int].enabled,
            final(self).entries()[i as int].params == params,
    {
        self.effects[i].params = params;
    }
}

/// Reloading gives every effect its own positive id, whatever ids were saved.
pub proof fn law_reload_ids_distinct(ids: Seq<u64>)
    requires
        ids.len() <= u64::MAX,
    ensures
        assigned_ids(ids).len() == ids.len(),
        assigned_ids(ids).no_duplicates(),
        forall|i: int| 0 <= i < ids.len() ==> #[trigger] assigned_ids(ids)[i] >= 1,
{
    lemma_assigned_ids(ids);
}

/// Saved ids that are positive and distinct are kept as they are.
pub proof fn law_reload_keeps_saved_ids(ids: Seq<u64>)
    requires
        ids.no_duplicates(),
        forall|i: int| 0 <= i < ids.len() ==> #[trigger] ids[i] != 0,
    ensures
        assigned_ids(ids) == ids,
    decreases ids.len(),
{
    if ids.len() > 0 {
        let p = ids.drop_last();
        law_reload_keeps_saved_ids(p);
        assert forall|i: int| 0 <= i < p.len() implies p[i] != ids.last() by {
            assert(ids[i] != ids[ids.len() - 1]);
        }
        assert(ids =~= p.push(ids.last()));
    }
}

/// Saving a chain whose ids are positive and distinct and reloading it gives
/// back the same effects in the same order, under the same ids, names, kinds
/// and enabled flags, with (clones of) the same parameters.
pub proof fn law_save_reload_round_trip<P: Clone>(e: Seq<Effect<P>>, d: Seq<EffectData<P>>, r: Seq<Effect<P>>)
    requires
        saved_as(e, d),
        reloaded_as(d, r),
        forall|i: int, j: int| 0 <= i < j < e.len() ==> e[i].id != e[j].id,
        forall|i: int| 0 <= i < e.len() ==> #[trigger] e[i].id != 0,
    ensures
        r.len() == e.len(),
        forall|i: int|
            0 <= i < e.len() ==> {
                &&& (#[trigger] r[i]).id == e[i].id
                &&& r[i].name@ == e[i].name@
                &&& r[i].kind == e[i].kind
                &&& r[i].enabled == e[i].enabled
                &&& cloned(e[i].params, r[i].params)
            },
{
    lemma_known_all(d);
    assert(known_ids(d) =~= e.map_values(|x: Effect<P>| x.id));
    law_reload_keeps_saved_ids(known_ids(d));
    assert forall|i: int| 0 <= i < e.len() implies (#[trigger] r[i]).kind == e[i].kind by {
        law_effect_name_round_trip(e[i].kind, d[i].effect_type@);
    }
}

/// Every saved effect whose type name is one that saving writes is kept.
proof fn lemma_known_all<P>(d: Seq<EffectData<P>>)
    requires
        forall|i: int| 0 <= i < d.len() ==> (effect_of_name(#[trigger] d[i].effect_type@) is Some),
    ensures
        known_data(d) == d,
    decreases d.len(),
{
    if d.len() > 0 {
        lemma_known_all(d.drop_last());
        assert(d.drop_last().push(d.last()) =~= d);
    }
}

/// Moving an effect up and then down again puts every effect back where it
/// was, unless the first move hit the front; so does moving it down and then
/// up, unless that hit the back or swapped it with an effect of the same id.
pub proof fn law_move_round_trip<P>(s: Seq<Effect<P>>, id: u64)
    ensures
        find_id(s, id, 0) matches Some(i) && i > 0 ==> moved(moved(s, id, true), id, false) == s,
        find_id(s, id, 0) matches Some(i) && i + 1 < s.len() && s[i + 1].id != id ==> moved(
            moved(s, id, false),
            id,
            true,
        ) == s,
{
    lemma_find_id(s, id, 0);
    if let Some(i) = find_id(s, id, 0) {
        if i > 0 {
            let t = moved(s, id, true);
            assert forall|q: int| 0 <= q < i - 1 implies t[q].id != id by {
                assert(t[q] == s[q]);
            }
            lemma_find_id_at(t, id, i - 1);
            assert(moved(t, id, false) =~= s);
        }
        if i + 1 < s.len() && s[i + 1].id != id {
            let t = moved(s, id, false);
            assert forall|q: int| 0 <= q < i + 1 implies t[q].id != id by {
                if q < i {
                    assert(t[q] == s[q]);
                }
            }
            lemma_find_id_at(t, id, i + 1);
            assert(moved(t, id, true) =~= s);
        }
    }
}

proof fn lemma_find_id_at<P>(s: Seq<Effect<P>>, id: u64, p: int)
    requires
        0 <= p < s.len(),
        s[p].id == id,
        forall|q: int| 0 <= q < p ==> s[q].id != id,
    ensures
        find_id(s, id, 0) == Some(p),
{
    lemma_find_id(s, id, 0);
    match find_id(s, id, 0) {
        Some(x) => {
            if x < p {
                assert(s[x].id != id);
            }
        },
        None => {
            assert(s[p].id != id);
        },
    }
}

/// After a removal no effect has the removed id, and the others keep their
/// order; removing the id of a just-added effect that was new to the chain
/// gives back the chain as it was.
pub proof fn law_remove_undoes_add<P>(s: Seq<Effect<P>>, e: Effect<P>)
    ensures
        forall|i: int| 0 <= i < without_id(s, e.id).len() ==> (#[trigger] without_id(s, e.id)[i]).id != e.id,
        !has_id(s, e.id) ==> without_id(s.push(e), e.id) == s,
{
    lemma_without_id(s, e.id);
    assert(s.push(e).drop_last() =~= s);
}

proof fn lemma_without_id<P>(s: Seq<Effect<P>>, id: u64)
    ensures
        forall|i: int| 0 <= i < without_id(s, id).len() ==> (#[trigger] without_id(s, id)[i]).id != id,
        !has_id(s, id) ==> without_id(s, id) == s,
    decreases s.len(),
{
    if s.len() > 0 {
        lemma_without_id(s.drop_last(), id);
        let w = without_id(s.drop_last(), id);
        if s.last().id != id {
            assert forall|i: int| 0 <= i < w.push(s.last()).len() implies (#[trigger] w.push(s.last())[i]).id != id by {
                if i < w.len() {
                    assert(w.push(s.last())[i] == w[i]);
                }
            }
        }
        if !has_id(s, id) {
            assert forall|i: int| 0 <= i < s.drop_last().len() implies s.drop_last()[i].id != id by {
                assert(s[i] == s.drop_last()[i]);
            }
            assert(s.last().id != id) by {
                assert(s[s.len() - 1] == s.last());
            }
            assert(s.drop_last().push(s.last()) =~= s);
        }
    }
}

} // verus!
