//! The compositor's layer stack: an ordered list of layers addressed by
//! stable ids, with a selected layer, at most one Milkdrop layer, and an
//! effect chain per layer plus a global one. What each layer renders, and its
//! opacity and placement, belong to the renderer and are kept by it under the
//! layer's id; the stack decides ids, order, admission and selection.

use vstd::prelude::*;
use crate::effect_chain::{
    assign_ids, assigned_ids, find_id, has_id, known_data, known_ids, last_id, law_reload_ids_distinct,
    law_reload_keeps_saved_ids, law_save_reload_round_trip, lemma_assigned_prefix, lemma_find_id, lemma_seq_max,
    max_of, moved, reloaded_as, saved_as, seq_max, without_id, EffectChain, EffectData,
};
use crate::scene::{blend_code, BlendMode};
use crate::text::push_str;
use crate::web::{can_add_layer, count_kind, effect_display_name, EffectKind, LayerKind};

verus! {

/// One layer of the stack.
pub struct Layer<P> {
    pub id: u64,
    pub name: String,
    pub kind: LayerKind,
    pub enabled: bool,
    pub visible: bool,
    pub blend: BlendMode,
    /// The layer's own effect chain.
    pub effects: EffectChain<P>,
}

/// The position of the first layer with id `id` at or after `i`.
pub open spec fn layer_pos<P>(s: Seq<Layer<P>>, id: u64, i: int) -> Option<int>
    decreases s.len() - i,
{
    if i < 0 || i >= s.len() {
        None
    } else if s[i].id == id {
        Some(i)
    } else {
        layer_pos(s, id, i + 1)
    }
}

pub open spec fn has_layer<P>(s: Seq<Layer<P>>, id: u64) -> bool {
    exists|i: int| 0 <= i < s.len() && #[trigger] s[i].id == id
}

/// The kinds of the layers, in order.
pub open spec fn layer_kinds<P>(s: Seq<Layer<P>>) -> Seq<LayerKind> {
    s.map_values(|l: Layer<P>| l.kind)
}

/// The layers whose id is not `id`, in order.
pub open spec fn layers_without<P>(s: Seq<Layer<P>>, id: u64) -> Seq<Layer<P>>
    decreases s.len(),
{
    if s.len() == 0 {
        s
    } else if s.last().id == id {
        layers_without(s.drop_last(), id)
    } else {
        layers_without(s.drop_last(), id).push(s.last())
    }
}

/// The id of the last layer, if any.
pub open spec fn last_layer<P>(s: Seq<Layer<P>>) -> Option<u64> {
    if s.len() == 0 {
        None
    } else {
        Some(s.last().id)
    }
}

/// The layers after moving the one with id `id` one place up (towards the
/// front) or down; unchanged if it is absent or already at that end.
pub open spec fn layers_moved<P>(s: Seq<Layer<P>>, id: u64, up: bool) -> Seq<Layer<P>> {
    match layer_pos(s, id, 0) {
        None => s,
        Some(i) => if up && i > 0 {
            s.update(i - 1, s[i]).update(i, s[i - 1])
        } else if !up && i + 1 < s.len() {
            s.update(i, s[i + 1]).update(i + 1, s[i])
        } else {
            s
        },
    }
}

/// A well-formed stack: ids are distinct, positive and at most `last`, there
/// is at most one Milkdrop layer, and the selection, if any, is a layer.
pub open spec fn stack_wf<P>(s: Seq<Layer<P>>, selected: Option<u64>, last: u64) -> bool {
    &&& forall|i: int, j: int| 0 <= i < j < s.len() ==> s[i].id != s[j].id
    &&& forall|i: int| 0 <= i < s.len() ==> 1 <= #[trigger] s[i].id <= last
    &&& forall|i: int, j: int|
        0 <= i < s.len() && 0 <= j < s.len() && s[i].kind == LayerKind::Milkdrop && s[j].kind
            == LayerKind::Milkdrop ==> i == j
    &&& selected matches Some(x) ==> has_layer(s, x)
}

pub proof fn lemma_layer_pos<P>(s: Seq<Layer<P>>, id: u64, i: int)
    requires
        0 <= i,
    ensures
        layer_pos(s, id, i) matches Some(p) ==> i <= p < s.len() && s[p].id == id && forall|q: int|
            i <= q < p ==> s[q].id != id,
        layer_pos(s, id, i) is None ==> forall|q: int| i <= q < s.len() ==> s[q].id != id,
    decreases s.len() - i,
{
    if i < s.len() && s[i].id != id {
        lemma_layer_pos(s, id, i + 1);
    }
}

/// A kind occurs among `kinds` exactly when its count is positive.
proof fn lemma_count_kind_pos(kinds: Seq<LayerKind>, k: LayerKind)
    ensures
        count_kind(kinds, k) >= 0,
        count_kind(kinds, k) > 0 <==> exists|i: int| 0 <= i < kinds.len() && kinds[i] == k,
    decreases kinds.len(),
{
    if kinds.len() > 0 {
        let p = kinds.drop_last();
        lemma_count_kind_pos(p, k);
        if exists|i: int| 0 <= i < p.len() && p[i] == k {
            let i = choose|i: int| 0 <= i < p.len() && p[i] == k;
            assert(kinds[i] == k);
        }
        if exists|i: int| 0 <= i < kinds.len() && kinds[i] == k {
            let i = choose|i: int| 0 <= i < kinds.len() && kinds[i] == k;
            if i < p.len() {
                assert(p[i] == k);
            }
        }
    }
}

/// The name a new layer of `kind` gets.
pub open spec fn default_layer_name(kind: LayerKind) -> Seq<char> {
    match kind {
        LayerKind::Milkdrop => "Milkdrop"@,
        LayerKind::Shader => "Shader"@,
        LayerKind::Waveform => "Waveform"@,
        LayerKind::Spectrum => "Spectrum"@,
    }
}

/// Whether a layer of `kind` may join layers of kinds `kinds` (see
/// [`can_add_layer`]).
pub open spec fn layer_admitted(kinds: Seq<LayerKind>, kind: LayerKind) -> bool {
    !(kind == LayerKind::Milkdrop && count_kind(kinds, LayerKind::Milkdrop) > 0) && kinds.len()
        < crate::scene::MAX_LAYERS && !(kind == LayerKind::Shader && count_kind(kinds, LayerKind::Shader)
        >= crate::scene::MAX_SHADER_LAYERS)
}

/// A new layer of `kind` under `id`: named after its kind, enabled, visible,
/// blended normally, with no effects.
pub open spec fn is_new_layer<P>(l: Layer<P>, id: u64, kind: LayerKind) -> bool {
    &&& l.id == id
    &&& l.name@ == default_layer_name(kind)
    &&& l.kind == kind
    &&& l.enabled
    &&& l.visible
    &&& l.blend == BlendMode::Normal
    &&& l.effects.entries().len() == 0
    &&& l.effects.selection() is None
}

/// The number of layers that are both enabled and visible.
pub open spec fn shown_count<P>(s: Seq<Layer<P>>) -> int
    decreases s.len(),
{
    if s.len() == 0 {
        0
    } else {
        shown_count(s.drop_last()) + if s.last().enabled && s.last().visible { 1int } else { 0int }
    }
}

/// Changing one layer changes the number of shown layers only by what that
/// layer contributes: a layer counts exactly when it is both enabled and
/// visible. So hiding an enabled, visible layer lowers the count by one,
/// and a hidden or disabled layer is never counted.
pub proof fn law_shown_count_one_layer<P>(a: Seq<Layer<P>>, b: Seq<Layer<P>>, p: int)
    requires
        0 <= p < a.len(),
        b.len() == a.len(),
        forall|i: int| 0 <= i < a.len() && i != p ==> b[i] == a[i],
    ensures
        shown_count(b) - shown_count(a) == (if b[p].enabled && b[p].visible { 1int } else { 0int }) - (
        if a[p].enabled && a[p].visible {
            1int
        } else {
            0int
        }),
    decreases a.len(),
{
    if p < a.len() - 1 {
        law_shown_count_one_layer(a.drop_last(), b.drop_last(), p);
        assert(a.last() == b.last());
    } else {
        assert(a.drop_last() =~= b.drop_last());
    }
}

/// What removing the layers with id `id` keeps: its layers come from `s` in
/// order, none has id `id`, and every other layer of `s` is still there.
proof fn lemma_layers_without<P>(s: Seq<Layer<P>>, id: u64)
    ensures
        layers_without(s, id).len() <= s.len(),
        forall|i: int| 0 <= i < layers_without(s, id).len() ==> s.contains(#[trigger] layers_without(s, id)[i]),
        forall|i: int| 0 <= i < layers_without(s, id).len() ==> (#[trigger] layers_without(s, id)[i]).id != id,
        forall|x: u64| x != id && has_layer(s, x) ==> has_layer(layers_without(s, id), x),
    decreases s.len(),
{
    if s.len() > 0 {
        let p = s.drop_last();
        lemma_layers_without(p, id);
        let w0 = layers_without(p, id);
        let w = layers_without(s, id);
        assert forall|i: int| 0 <= i < w.len() implies s.contains(#[trigger] w[i]) by {
            if i < w0.len() {
                assert(w[i] == w0[i]);
                assert(p.contains(w0[i]));
                let k = choose|k: int| 0 <= k < p.len() && p[k] == w0[i];
                assert(s[k] == p[k]);
            } else {
                assert(w[i] == s.last());
                assert(s[s.len() - 1] == s.last());
            }
        }
        assert forall|i: int| 0 <= i < w.len() implies (#[trigger] w[i]).id != id by {
            if i < w0.len() {
                assert(w[i] == w0[i]);
            }
        }
        assert forall|x: u64| x != id && has_layer(s, x) implies has_layer(w, x) by {
            let k = choose|k: int| 0 <= k < s.len() && #[trigger] s[k].id == x;
            if k < p.len() {
                assert(p[k].id == x);
                assert(has_layer(p, x));
                let m = choose|m: int| 0 <= m < w0.len() && #[trigger] w0[m].id == x;
                assert(w[m] == w0[m]);
            } else {
                assert(w[w.len() - 1] == s.last());
            }
        }
    }
}

/// Distinct positions of what removing keeps hold distinct layers of `s`.
proof fn lemma_without_distinct<P>(s: Seq<Layer<P>>, id: u64, a: int, b: int)
    requires
        forall|i: int, j: int| 0 <= i < j < s.len() ==> s[i].id != s[j].id,
        0 <= a < b < layers_without(s, id).len(),
    ensures
        layers_without(s, id)[a].id != layers_without(s, id)[b].id,
    decreases s.len(),
{
    let p = s.drop_last();
    let w0 = layers_without(p, id);
    lemma_layers_without(p, id);
    if s.last().id == id {
        lemma_without_distinct(p, id, a, b);
    } else if b < w0.len() {
        lemma_without_distinct(p, id, a, b);
    } else {
        assert(layers_without(s, id)[a] == w0[a]);
        assert(p.contains(w0[a]));
        let k = choose|k: int| 0 <= k < p.len() && p[k] == w0[a];
        assert(s[k] == p[k]);
        assert(s[s.len() - 1] == s.last());
    }
}

/// `b` is `a` with at most the layer with id `id` changed, and that one in
/// nothing but its name, flags, blend mode or effects.
pub open spec fn changed_at<P>(a: Seq<Layer<P>>, b: Seq<Layer<P>>, id: u64) -> bool {
    &&& b.len() == a.len()
    &&& forall|i: int| 0 <= i < a.len() && layer_pos(a, id, 0) != Some(i) ==> #[trigger] b[i] == a[i]
    &&& forall|i: int| 0 <= i < a.len() ==> (#[trigger] b[i]).id == a[i].id && b[i].kind == a[i].kind
}

/// Changing layers in place, keeping their ids and kinds, keeps a stack well
/// formed.
proof fn lemma_same_ids_wf<P>(a: Seq<Layer<P>>, b: Seq<Layer<P>>, selected: Option<u64>, last: u64)
    requires
        stack_wf(a, selected, last),
        b.len() == a.len(),
        forall|i: int| 0 <= i < a.len() ==> (#[trigger] b[i]).id == a[i].id && b[i].kind == a[i].kind,
    ensures
        stack_wf(b, selected, last),
{
    assert forall|i: int, j: int| 0 <= i < j < b.len() implies b[i].id != b[j].id by {
        assert(a[i].id != a[j].id);
    }
    assert forall|i: int| 0 <= i < b.len() implies 1 <= #[trigger] b[i].id <= last by {
        assert(a[i].id == b[i].id);
    }
    assert forall|i: int, j: int|
        0 <= i < b.len() && 0 <= j < b.len() && b[i].kind == LayerKind::Milkdrop && b[j].kind
            == LayerKind::Milkdrop implies i == j by {
        assert(a[i].kind == b[i].kind && a[j].kind == b[j].kind);
    }
    match selected {
        Some(x) => {
            let k = choose|k: int| 0 <= k < a.len() && #[trigger] a[k].id == x;
            assert(b[k].id == x);
        },
        None => {},
    }
}

/// Swapping two neighbouring layers keeps a stack well formed.
proof fn lemma_swap_wf<P>(s: Seq<Layer<P>>, i: int, selected: Option<u64>, last: u64)
    requires
        stack_wf(s, selected, last),
        0 <= i,
        i + 1 < s.len(),
    ensures
        stack_wf(s.update(i, s[i + 1]).update(i + 1, s[i]), selected, last),
{
    let t = s.update(i, s[i + 1]).update(i + 1, s[i]);
    let f = |k: int| if k == i { i + 1 } else if k == i + 1 { i } else { k };
    assert forall|k: int| 0 <= k < t.len() implies #[trigger] t[k] == s[f(k)] by {}
    assert forall|a: int, b: int| 0 <= a < b < t.len() implies t[a].id != t[b].id by {
        assert(t[a] == s[f(a)] && t[b] == s[f(b)]);
        if f(a) < f(b) {
            assert(s[f(a)].id != s[f(b)].id);
        } else {
            assert(s[f(b)].id != s[f(a)].id);
        }
    }
    assert forall|k: int| 0 <= k < t.len() implies 1 <= #[trigger] t[k].id <= last by {
        assert(t[k] == s[f(k)]);
    }
    assert forall|a: int, b: int|
        0 <= a < t.len() && 0 <= b < t.len() && t[a].kind == LayerKind::Milkdrop && t[b].kind
            == LayerKind::Milkdrop implies a == b by {
        assert(t[a] == s[f(a)] && t[b] == s[f(b)]);
    }
    match selected {
        Some(x) => {
            let k = choose|k: int| 0 <= k < s.len() && #[trigger] s[k].id == x;
            assert(t[f(k)] == s[k]);
        },
        None => {},
    }
}

/// The most effects the chain addressed by `target` may hold: the global
/// chain's limit for target 0, a layer chain's limit otherwise.
pub open spec fn effect_limit(target: u64) -> int {
    if target == 0 {
        crate::scene::MAX_GLOBAL_EFFECTS as int
    } else {
        crate::scene::MAX_EFFECTS_PER_LAYER as int
    }
}

/// `b` is chain `a` with a new, enabled effect of `kind` under `id` (named
/// after its kind, with parameters `params`) appended and selected.
pub open spec fn effect_appended<P>(a: EffectChain<P>, b: EffectChain<P>, id: u64, kind: EffectKind, params: P) -> bool {
    &&& b.entries().len() == a.entries().len() + 1
    &&& b.entries().drop_last() == a.entries()
    &&& b.entries().last().id == id
    &&& b.entries().last().name@ == effect_display_name(kind)
    &&& b.entries().last().kind == kind
    &&& b.entries().last().enabled
    &&& b.entries().last().params == params
    &&& b.selection() == Some(id)
}

/// `b` is chain `a` without its effects with id `id`; if that was selected,
/// the last remaining effect is (nothing, if none remains).
pub open spec fn effect_removed<P>(a: EffectChain<P>, b: EffectChain<P>, id: u64) -> bool {
    &&& b.entries() == without_id(a.entries(), id)
    &&& b.selection() == (if a.selection() == Some(id) {
        last_id(without_id(a.entries(), id))
    } else {
        a.selection()
    })
}

/// `b` is chain `a` with a copy of its first effect with id `id` inserted
/// right after it under `new_id`, named "<name> copy", and selected.
pub open spec fn effect_duplicated<P: Clone>(a: EffectChain<P>, b: EffectChain<P>, id: u64, new_id: u64) -> bool {
    find_id(a.entries(), id, 0) matches Some(p) && {
        let (e, c) = (a.entries(), b.entries());
        &&& b.selection() == Some(new_id)
        &&& c.len() == e.len() + 1
        &&& c.take(p + 1) == e.take(p + 1)
        &&& c.skip(p + 2) == e.skip(p + 1)
        &&& c[p + 1].id == new_id
        &&& c[p + 1].name@ == e[p].name@ + " copy"@
        &&& c[p + 1].kind == e[p].kind
        &&& c[p + 1].enabled == e[p].enabled
        &&& cloned(e[p].params, c[p + 1].params)
    }
}

/// `b` is chain `a` with its first effect with id `id` switched on or off.
pub open spec fn effect_switched<P>(a: EffectChain<P>, b: EffectChain<P>, id: u64, enabled: bool) -> bool {
    &&& b.selection() == a.selection()
    &&& b.entries().len() == a.entries().len()
    &&& forall|i: int|
        0 <= i < a.entries().len() && find_id(a.entries(), id, 0) != Some(i) ==> #[trigger] b.entries()[i]
            == a.entries()[i]
    &&& find_id(a.entries(), id, 0) matches Some(p) ==> {
        let (x, y) = (b.entries()[p], a.entries()[p]);
        &&& x.id == y.id
        &&& x.name == y.name
        &&& x.kind == y.kind
        &&& x.enabled == enabled
        &&& x.params == y.params
    }
}

/// `b` is chain `a` with the parameters of its first effect with id `id`
/// replaced by `params`.
pub open spec fn effect_params_set<P>(a: EffectChain<P>, b: EffectChain<P>, id: u64, params: P) -> bool {
    &&& b.selection() == a.selection()
    &&& b.entries().len() == a.entries().len()
    &&& forall|i: int|
        0 <= i < a.entries().len() && find_id(a.entries(), id, 0) != Some(i) ==> #[trigger] b.entries()[i]
            == a.entries()[i]
    &&& find_id(a.entries(), id, 0) matches Some(p) ==> {
        let (x, y) = (b.entries()[p], a.entries()[p]);
        &&& x.id == y.id
        &&& x.name == y.name
        &&& x.kind == y.kind
        &&& x.enabled == y.enabled
        &&& x.params == params
    }
}

/// Layer positions depend on the ids alone.
proof fn lemma_layer_pos_same_ids<P>(a: Seq<Layer<P>>, b: Seq<Layer<P>>, id: u64)
    requires
        b.len() == a.len(),
        forall|i: int| 0 <= i < a.len() ==> (#[trigger] b[i]).id == a[i].id,
    ensures
        layer_pos(b, id, 0) == layer_pos(a, id, 0),
{
    lemma_layer_pos(a, id, 0);
    lemma_layer_pos(b, id, 0);
    match layer_pos(a, id, 0) {
        Some(p) => {
            assert(b[p].id == a[p].id);
            match layer_pos(b, id, 0) {
                Some(q) => {
                    assert(b[q].id == a[q].id);
                },
                None => {},
            }
        },
        None => {
            match layer_pos(b, id, 0) {
                Some(q) => {
                    assert(b[q].id == a[q].id);
                },
                None => {},
            }
        },
    }
}

/// A layer as saved in a scene, apart from its rendering settings.
pub struct SavedLayer<P> {
    pub id: u64,
    pub name: String,
    pub kind: LayerKind,
    pub enabled: bool,
    pub visible: bool,
    pub blend: BlendMode,
    pub effects: Vec<EffectData<P>>,
}

pub open spec fn saved_has_milkdrop<P>(k: Seq<SavedLayer<P>>) -> bool {
    exists|i: int| 0 <= i < k.len() && #[trigger] k[i].kind == LayerKind::Milkdrop
}

/// The saved layers an import keeps: all of them but a Milkdrop layer after
/// the first one (the Milkdrop engine is single-instance).
pub open spec fn kept_layers<P>(d: Seq<SavedLayer<P>>) -> Seq<SavedLayer<P>>
    decreases d.len(),
{
    if d.len() == 0 {
        d
    } else {
        let k = kept_layers(d.drop_last());
        if d.last().kind == LayerKind::Milkdrop && saved_has_milkdrop(k) {
            k
        } else {
            k.push(d.last())
        }
    }
}

/// The saved ids of layers.
pub open spec fn saved_ids<P>(k: Seq<SavedLayer<P>>) -> Seq<u64> {
    k.map_values(|l: SavedLayer<P>| l.id)
}

/// The ids an import gives the kept layers of `d`: each saved id is kept
/// unless it is 0 or already given (see [`assigned_ids`]).
pub open spec fn imported_ids<P>(d: Seq<SavedLayer<P>>) -> Seq<u64> {
    assigned_ids(saved_ids(kept_layers(d)))
}

/// For each saved layer, the id it gets on import, or `None` if it is
/// skipped.
pub open spec fn import_slots<P>(d: Seq<SavedLayer<P>>) -> Seq<Option<u64>>
    decreases d.len(),
{
    if d.len() == 0 {
        Seq::empty()
    } else {
        let prev = import_slots(d.drop_last());
        if d.last().kind == LayerKind::Milkdrop && saved_has_milkdrop(kept_layers(d.drop_last())) {
            prev.push(None)
        } else {
            prev.push(Some(imported_ids(d).last()))
        }
    }
}

/// The id reloading a saved chain selects: its first effect's.
pub open spec fn reloaded_selection<P>(e: Seq<EffectData<P>>) -> Option<u64> {
    if known_data(e).len() == 0 {
        None
    } else {
        Some(assigned_ids(known_ids(e))[0])
    }
}

/// The highest effect id reloading a saved chain gives (0 if none).
pub open spec fn reloaded_max<P>(e: Seq<EffectData<P>>) -> u64 {
    seq_max(assigned_ids(known_ids(e)))
}

/// The highest effect id reloading the chains of saved layers gives.
pub open spec fn layers_effect_max<P>(k: Seq<SavedLayer<P>>) -> u64
    decreases k.len(),
{
    if k.len() == 0 {
        0
    } else if reloaded_max(k.last().effects@) > layers_effect_max(k.drop_last()) {
        reloaded_max(k.last().effects@)
    } else {
        layers_effect_max(k.drop_last())
    }
}

/// The next effect id after ids up to `m` were loaded: past `m`, unless it
/// already is, and no further than the last id.
pub open spec fn next_after(next: u64, m: u64) -> u64 {
    if m < next {
        next
    } else if m < u64::MAX {
        (m + 1) as u64
    } else {
        u64::MAX
    }
}

pub open spec fn max_u64(a: u64, b: u64) -> u64 {
    if a > b {
        a
    } else {
        b
    }
}

/// `s` holds the first layers that importing `d` gives.
pub open spec fn imported_prefix<P>(d: Seq<SavedLayer<P>>, s: Seq<Layer<P>>) -> bool {
    let k = kept_layers(d);
    let ids = imported_ids(d);
    &&& s.len() <= k.len()
    &&& forall|i: int|
        0 <= i < s.len() ==> {
            &&& (#[trigger] s[i]).id == ids[i]
            &&& s[i].name == k[i].name
            &&& s[i].kind == k[i].kind
            &&& s[i].enabled == k[i].enabled
            &&& s[i].visible == k[i].visible
            &&& s[i].blend == k[i].blend
            &&& reloaded_as(k[i].effects@, s[i].effects.entries())
            &&& s[i].effects.selection() == reloaded_selection(k[i].effects@)
        }
}

/// `s` is what importing the saved layers `d` gives: the kept layers, in
/// order, under the ids [`imported_ids`] gives them, with their names,
/// kinds, flags and blend modes, and their effect chains reloaded.
pub open spec fn imported_as<P>(d: Seq<SavedLayer<P>>, s: Seq<Layer<P>>) -> bool {
    let k = kept_layers(d);
    let ids = imported_ids(d);
    &&& s.len() == k.len()
    &&& forall|i: int|
        0 <= i < s.len() ==> {
            &&& (#[trigger] s[i]).id == ids[i]
            &&& s[i].name == k[i].name
            &&& s[i].kind == k[i].kind
            &&& s[i].enabled == k[i].enabled
            &&& s[i].visible == k[i].visible
            &&& s[i].blend == k[i].blend
            &&& reloaded_as(k[i].effects@, s[i].effects.entries())
            &&& s[i].effects.selection() == reloaded_selection(k[i].effects@)
        }
}

/// The kept layers hold at most one Milkdrop layer, and hold one exactly
/// when the saved layers do.
proof fn lemma_kept_layers<P>(d: Seq<SavedLayer<P>>)
    ensures
        kept_layers(d).len() <= d.len(),
        forall|i: int, j: int|
            0 <= i < kept_layers(d).len() && 0 <= j < kept_layers(d).len() && kept_layers(d)[i].kind
                == LayerKind::Milkdrop && kept_layers(d)[j].kind == LayerKind::Milkdrop ==> i == j,
        saved_has_milkdrop(kept_layers(d)) == saved_has_milkdrop(d),
    decreases d.len(),
{
    if d.len() > 0 {
        let p = d.drop_last();
        lemma_kept_layers(p);
        let k = kept_layers(p);
        assert(d[d.len() - 1] == d.last());
        if d.last().kind == LayerKind::Milkdrop {
            assert(saved_has_milkdrop(d));
        }
        if saved_has_milkdrop(p) {
            let i = choose|i: int| 0 <= i < p.len() && #[trigger] p[i].kind == LayerKind::Milkdrop;
            assert(d[i].kind == LayerKind::Milkdrop);
        }
        if saved_has_milkdrop(d) {
            let i = choose|i: int| 0 <= i < d.len() && #[trigger] d[i].kind == LayerKind::Milkdrop;
            if i < p.len() {
                assert(p[i].kind == LayerKind::Milkdrop);
            } else {
                assert(d[d.len() - 1] == d.last());
            }
        }
        if !(d.last().kind == LayerKind::Milkdrop && saved_has_milkdrop(k)) {
            let k2 = k.push(d.last());
            assert(k2[k.len() as int] == d.last());
            assert forall|i: int, j: int|
                0 <= i < k2.len() && 0 <= j < k2.len() && k2[i].kind == LayerKind::Milkdrop && k2[j].kind
                    == LayerKind::Milkdrop implies i == j by {
                if i < k.len() && j == k.len() {
                    assert(k[i].kind == LayerKind::Milkdrop);
                } else if j < k.len() && i == k.len() {
                    assert(k[j].kind == LayerKind::Milkdrop);
                } else if i < k.len() && j < k.len() {
                    assert(k[i] == k2[i] && k[j] == k2[j]);
                }
            }
            if saved_has_milkdrop(k) {
                let i = choose|i: int| 0 <= i < k.len() && #[trigger] k[i].kind == LayerKind::Milkdrop;
                assert(k2[i] == k[i]);
            }
            if saved_has_milkdrop(k2) {
                let i = choose|i: int| 0 <= i < k2.len() && #[trigger] k2[i].kind == LayerKind::Milkdrop;
                if i < k.len() {
                    assert(k[i] == k2[i]);
                } else {
                    assert(d[d.len() - 1] == d.last());
                }
            }
        }
    }
}

proof fn lemma_has_push<P>(k: Seq<SavedLayer<P>>, x: SavedLayer<P>)
    ensures
        saved_has_milkdrop(k.push(x)) == (saved_has_milkdrop(k) || x.kind == LayerKind::Milkdrop),
{
    let k2 = k.push(x);
    assert(k2[k.len() as int] == x);
    if saved_has_milkdrop(k) {
        let i = choose|i: int| 0 <= i < k.len() && #[trigger] k[i].kind == LayerKind::Milkdrop;
        assert(k2[i] == k[i]);
    }
    if saved_has_milkdrop(k2) {
        let i = choose|i: int| 0 <= i < k2.len() && #[trigger] k2[i].kind == LayerKind::Milkdrop;
        if i < k.len() {
            assert(k2[i] == k[i]);
        }
    }
}

/// The layers kept from a prefix of the saved layers are a prefix of those
/// kept from all of them.
proof fn lemma_kept_prefix<P>(d: Seq<SavedLayer<P>>, j: int)
    requires
        0 <= j <= d.len(),
    ensures
        kept_layers(d.take(j)).len() <= kept_layers(d).len(),
        kept_layers(d.take(j)) == kept_layers(d).take(kept_layers(d.take(j)).len() as int),
    decreases d.len(),
{
    if j == d.len() {
        assert(d.take(j) =~= d);
        assert(kept_layers(d).take(kept_layers(d).len() as int) =~= kept_layers(d));
    } else {
        let p = d.drop_last();
        assert(d.take(j) =~= p.take(j));
        lemma_kept_prefix(p, j);
        let n = kept_layers(p.take(j)).len() as int;
        assert(kept_layers(d).take(n) =~= kept_layers(p).take(n));
    }
}

/// `d` is what saving the layers `s` gives: their ids, names, kinds, flags
/// and blend modes, and their effect chains as saved.
pub open spec fn exported_as<P: Clone>(s: Seq<Layer<P>>, d: Seq<SavedLayer<P>>) -> bool {
    &&& d.len() == s.len()
    &&& forall|i: int|
        0 <= i < s.len() ==> {
            &&& (#[trigger] d[i]).id == s[i].id
            &&& d[i].name == s[i].name
            &&& d[i].kind == s[i].kind
            &&& d[i].enabled == s[i].enabled
            &&& d[i].visible == s[i].visible
            &&& d[i].blend == s[i].blend
            &&& saved_as(s[i].effects.entries(), d[i].effects@)
        }
}

/// Saved layers with at most one Milkdrop layer are all kept.
proof fn lemma_kept_all<P>(d: Seq<SavedLayer<P>>)
    requires
        forall|i: int, j: int|
            0 <= i < d.len() && 0 <= j < d.len() && d[i].kind == LayerKind::Milkdrop && d[j].kind
                == LayerKind::Milkdrop ==> i == j,
    ensures
        kept_layers(d) == d,
    decreases d.len(),
{
    if d.len() > 0 {
        let p = d.drop_last();
        assert forall|i: int, j: int|
            0 <= i < p.len() && 0 <= j < p.len() && p[i].kind == LayerKind::Milkdrop && p[j].kind
                == LayerKind::Milkdrop implies i == j by {
            assert(d[i] == p[i] && d[j] == p[j]);
        }
        lemma_kept_all(p);
        lemma_kept_layers(p);
        if d.last().kind == LayerKind::Milkdrop && saved_has_milkdrop(p) {
            let i = choose|i: int| 0 <= i < p.len() && #[trigger] p[i].kind == LayerKind::Milkdrop;
            assert(d[i] == p[i]);
            assert(d[d.len() - 1] == d.last());
        }
        assert(p.push(d.last()) =~= d);
    }
}

/// Saving a well-formed stack and importing it again gives back the same
/// layers in the same order, under the same ids, with the same names, kinds,
/// flags and blend modes, and each effect chain as saving and reloading it
/// gives (the same one, when its effect ids are positive and distinct).
pub proof fn law_scene_round_trip<P: Clone>(
    s: Seq<Layer<P>>,
    selected: Option<u64>,
    last: u64,
    d: Seq<SavedLayer<P>>,
    r: Seq<Layer<P>>,
)
    requires
        stack_wf(s, selected, last),
        exported_as(s, d),
        imported_as(d, r),
    ensures
        r.len() == s.len(),
        forall|i: int|
            0 <= i < s.len() ==> {
                &&& (#[trigger] r[i]).id == s[i].id
                &&& r[i].name == s[i].name
                &&& r[i].kind == s[i].kind
                &&& r[i].enabled == s[i].enabled
                &&& r[i].visible == s[i].visible
                &&& r[i].blend == s[i].blend
                &&& saved_as(s[i].effects.entries(), d[i].effects@)
                &&& reloaded_as(d[i].effects@, r[i].effects.entries())
            },
        forall|i: int|
            0 <= i < s.len() ==> (forall|a: int, b: int|
                0 <= a < b < s[i].effects.entries().len() ==> s[i].effects.entries()[a].id
                    != s[i].effects.entries()[b].id) && (forall|a: int|
                0 <= a < s[i].effects.entries().len() ==> s[i].effects.entries()[a].id != 0) ==> {
                &&& r[i].effects.entries().len() == s[i].effects.entries().len()
                &&& forall|a: int|
                    0 <= a < s[i].effects.entries().len() ==> {
                        &&& (#[trigger] r[i].effects.entries()[a]).id == s[i].effects.entries()[a].id
                        &&& r[i].effects.entries()[a].name@ == s[i].effects.entries()[a].name@
                        &&& r[i].effects.entries()[a].kind == s[i].effects.entries()[a].kind
                        &&& r[i].effects.entries()[a].enabled == s[i].effects.entries()[a].enabled
                        &&& cloned(s[i].effects.entries()[a].params, r[i].effects.entries()[a].params)
                    }
            },
{
    assert forall|i: int, j: int|
        0 <= i < d.len() && 0 <= j < d.len() && d[i].kind == LayerKind::Milkdrop && d[j].kind
            == LayerKind::Milkdrop implies i == j by {
        assert(s[i].kind == d[i].kind && s[j].kind == d[j].kind);
    }
    lemma_kept_all(d);
    let ids = saved_ids(d);
    assert forall|a: int| 0 <= a < ids.len() implies #[trigger] ids[a] != 0 by {
        assert(ids[a] == s[a].id);
    }
    assert(ids.no_duplicates()) by {
        assert forall|a: int, b: int| 0 <= a < ids.len() && 0 <= b < ids.len() && a != b implies ids[a]
            != ids[b] by {
            if a < b {
                assert(s[a].id != s[b].id);
            } else {
                assert(s[b].id != s[a].id);
            }
        }
    }
    law_reload_keeps_saved_ids(ids);
    assert forall|i: int|
        0 <= i < s.len() && (forall|a: int, b: int|
            0 <= a < b < s[i].effects.entries().len() ==> s[i].effects.entries()[a].id
                != s[i].effects.entries()[b].id) && (forall|a: int|
            0 <= a < s[i].effects.entries().len() ==> s[i].effects.entries()[a].id != 0) implies {
        &&& r[i].effects.entries().len() == s[i].effects.entries().len()
        &&& forall|a: int|
            0 <= a < s[i].effects.entries().len() ==> {
                &&& (#[trigger] r[i].effects.entries()[a]).id == s[i].effects.entries()[a].id
                &&& r[i].effects.entries()[a].name@ == s[i].effects.entries()[a].name@
                &&& r[i].effects.entries()[a].kind == s[i].effects.entries()[a].kind
                &&& r[i].effects.entries()[a].enabled == s[i].effects.entries()[a].enabled
                &&& cloned(s[i].effects.entries()[a].params, r[i].effects.entries()[a].params)
            }
    } by {
        let e = s[i].effects.entries();
        assert(forall|a: int| 0 <= a < e.len() ==> #[trigger] e[a].id != 0);
        law_save_reload_round_trip(e, d[i].effects@, r[i].effects.entries());
    }
}

/// Moving a layer up and then down again puts every layer back where it
/// was, unless the first move hit the top; so does moving it down and then
/// up, unless that hit the bottom or swapped it with a layer of the same id.
pub proof fn law_layer_move_round_trip<P>(s: Seq<Layer<P>>, id: u64)
    ensures
        layer_pos(s, id, 0) matches Some(i) && i > 0 ==> layers_moved(layers_moved(s, id, true), id, false) == s,
        layer_pos(s, id, 0) matches Some(i) && i + 1 < s.len() && s[i + 1].id != id ==> layers_moved(
            layers_moved(s, id, false),
            id,
            true,
        ) == s,
{
    lemma_layer_pos(s, id, 0);
    if let Some(i) = layer_pos(s, id, 0) {
        if i > 0 {
            let t = layers_moved(s, id, true);
            assert forall|q: int| 0 <= q < i - 1 implies t[q].id != id by {
                assert(t[q] == s[q]);
            }
            lemma_layer_pos_at(t, id, i - 1);
            assert(layers_moved(t, id, false) =~= s);
        }
        if i + 1 < s.len() && s[i + 1].id != id {
            let t = layers_moved(s, id, false);
            assert forall|q: int| 0 <= q < i + 1 implies t[q].id != id by {
                if q < i {
                    assert(t[q] == s[q]);
                }
            }
            lemma_layer_pos_at(t, id, i + 1);
            assert(layers_moved(t, id, true) =~= s);
        }
    }
}

proof fn lemma_layer_pos_at<P>(s: Seq<Layer<P>>, id: u64, p: int)
    requires
        0 <= p < s.len(),
        s[p].id == id,
        forall|q: int| 0 <= q < p ==> s[q].id != id,
    ensures
        layer_pos(s, id, 0) == Some(p),
{
    lemma_layer_pos(s, id, 0);
    match layer_pos(s, id, 0) {
        Some(x) => {
            if x < p {
                assert(s[x].id != id);
            }
        },
        None => {
            assert(s[p].id != id);
        },
    }
}

/// After a removal no layer has the removed id; removing the id of a layer
/// just added under an id new to the stack gives back the stack as it was.
pub proof fn law_remove_layer_undoes_add<P>(s: Seq<Layer<P>>, l: Layer<P>)
    ensures
        forall|i: int| 0 <= i < layers_without(s, l.id).len() ==> (#[trigger] layers_without(s, l.id)[i]).id != l.id,
        !has_layer(s, l.id) ==> layers_without(s.push(l), l.id) == s,
{
    lemma_layers_without(s, l.id);
    assert(s.push(l).drop_last() =~= s);
    if !has_layer(s, l.id) {
        lemma_without_absent(s, l.id);
    }
}

proof fn lemma_without_absent<P>(s: Seq<Layer<P>>, id: u64)
    requires
        !has_layer(s, id),
    ensures
        layers_without(s, id) == s,
    decreases s.len(),
{
    if s.len() > 0 {
        let p = s.drop_last();
        assert(!has_layer(p, id)) by {
            if has_layer(p, id) {
                let k = choose|k: int| 0 <= k < p.len() && #[trigger] p[k].id == id;
                assert(s[k] == p[k]);
            }
        }
        lemma_without_absent(p, id);
        assert(s[s.len() - 1] == s.last());
        assert(p.push(s.last()) =~= s);
    }
}

/// The compositor's layer stack and effect chains.
pub struct Compositor<P> {
    layers: Vec<Layer<P>>,
    last_id: u64,
    next_effect_id: u64,
    selected: Option<u64>,
    global_chain: EffectChain<P>,
}

impl<P> Compositor<P> {
    /// The layers, bottom first.
    pub closed spec fn stack(&self) -> Seq<Layer<P>> {
        self.layers@
    }

    /// The id of the selected layer, if any.
    pub closed spec fn selection(&self) -> Option<u64> {
        self.selected
    }

    /// The highest layer id handed out so far.
    pub closed spec fn last_layer_id(&self) -> u64 {
        self.last_id
    }

    /// The id the next new effect gets.
    pub closed spec fn next_effect(&self) -> u64 {
        self.next_effect_id
    }

    /// The effects applied after all layers are composited.
    pub closed spec fn global(&self) -> EffectChain<P> {
        self.global_chain
    }

    /// Every compositor holds a well-formed stack.
    #[verifier::type_invariant]
    spec fn wf(&self) -> bool {
        stack_wf(self.layers@, self.selected, self.last_id)
    }

    /// The effect chain addressed by `target`: the global chain for 0, else
    /// the chain of the layer with that id.
    pub open spec fn chain_of(&self, target: u64) -> Option<EffectChain<P>> {
        if target == 0 {
            Some(self.global())
        } else {
            match layer_pos(self.stack(), target, 0) {
                Some(p) => Some(self.stack()[p].effects),
                None => None,
            }
        }
    }

    /// `other` is this compositor with the chain addressed by `target`
    /// replaced by `ch`, and nothing else changed but the next effect id.
    pub open spec fn chain_replaced(&self, other: &Self, target: u64, ch: EffectChain<P>) -> bool {
        &&& other.selection() == self.selection()
        &&& other.last_layer_id() == self.last_layer_id()
        &&& other.chain_of(target) == Some(ch)
        &&& if target == 0 {
            other.stack() == self.stack()
        } else {
            &&& other.global() == self.global()
            &&& other.stack().len() == self.stack().len()
            &&& forall|i: int|
                0 <= i < self.stack().len() && layer_pos(self.stack(), target, 0) != Some(i)
                    ==> #[trigger] other.stack()[i] == self.stack()[i]
            &&& forall|i: int|
                0 <= i < self.stack().len() ==> {
                    &&& (#[trigger] other.stack()[i]).id == self.stack()[i].id
                    &&& other.stack()[i].kind == self.stack()[i].kind
                    &&& other.stack()[i].name == self.stack()[i].name
                    &&& other.stack()[i].enabled == self.stack()[i].enabled
                    &&& other.stack()[i].visible == self.stack()[i].visible
                    &&& other.stack()[i].blend == self.stack()[i].blend
                }
        }
    }

    /// Moves the layers out, leaving an empty stack with no selection.
    fn take_layers(&mut self) -> (v: Vec<Layer<P>>)
        ensures
            v@ == old(self).layers@,
            final(self).layers@.len() == 0,
            final(self).selected is None,
            final(self).last_id == old(self).last_id,
            final(self).next_effect_id == old(self).next_effect_id,
            final(self).global_chain == old(self).global_chain,
    {
        proof {
            use_type_invariant(&*self);
        }
        self.selected = None;
        let mut v = Vec::new();
        std::mem::swap(&mut v, &mut self.layers);
        v
    }

    /// Puts the well-formed stack `v` in place of an empty one, with
    /// `selected` as its selection.
    fn put_layers(&mut self, v: Vec<Layer<P>>, selected: Option<u64>)
        requires
            old(self).layers@.len() == 0,
            old(self).selected is None,
            stack_wf(v@, selected, old(self).last_id),
        ensures
            final(self).layers@ == v@,
            final(self).selected == selected,
            final(self).last_id == old(self).last_id,
            final(self).next_effect_id == old(self).next_effect_id,
            final(self).global_chain == old(self).global_chain,
    {
        self.layers = v;
        self.selected = selected;
    }

    /// Moves the global chain out, leaving an empty one.
    fn take_global(&mut self) -> (g: EffectChain<P>)
        ensures
            g == old(self).global_chain,
            final(self).layers == old(self).layers,
            final(self).selected == old(self).selected,
            final(self).last_id == old(self).last_id,
            final(self).next_effect_id == old(self).next_effect_id,
    {
        proof {
            use_type_invariant(&*self);
        }
        let mut g = EffectChain::new();
        std::mem::swap(&mut g, &mut self.global_chain);
        g
    }

    /// A compositor holding the default scene (see [`Compositor::load_default`]):
    /// a Milkdrop layer under a waveform layer, the Milkdrop one selected, no
    /// global effects, and effect ids starting at 1.
    pub fn new() -> (r: Compositor<P>)
        ensures
            stack_wf(r.stack(), r.selection(), r.last_layer_id()),
            r.stack().len() == 2,
            is_new_layer(r.stack()[0], 1, LayerKind::Milkdrop),
            is_new_layer(r.stack()[1], 2, LayerKind::Waveform),
            r.selection() == Some(1u64),
            r.last_layer_id() == 2,
            r.next_effect() == 1,
            r.global().entries() == Seq::<crate::effect_chain::Effect<P>>::empty(),
            r.global().selection() is None,
    {
        let mut c = Compositor {
            layers: Vec::new(),
            last_id: 0,
            next_effect_id: 1,
            selected: None,
            global_chain: EffectChain::new(),
        };
        c.load_default();
        proof {
            use_type_invariant(&c);
            assert(c.global().entries() =~= Seq::<crate::effect_chain::Effect<P>>::empty());
        }
        c
    }

    /// The layers, bottom first (always a well-formed stack).
    pub fn layers(&self) -> (r: &Vec<Layer<P>>)
        ensures
            r@ == self.stack(),
            stack_wf(r@, self.selection(), self.last_layer_id()),
    {
        proof {
            use_type_invariant(&*self);
        }
        &self.layers
    }

    /// The id of the selected layer, if any.
    pub fn selected(&self) -> (r: Option<u64>)
        ensures
            r == self.selection(),
    {
        proof {
            use_type_invariant(&*self);
        }
        self.selected
    }

    /// The global effect chain.
    pub fn global_chain(&self) -> (r: &EffectChain<P>)
        ensures
            *r == self.global(),
    {
        proof {
            use_type_invariant(&*self);
        }
        &self.global_chain
    }

    /// The kinds of the layers, bottom first.
    pub fn kinds(&self) -> (r: Vec<LayerKind>)
        ensures
            r@ == layer_kinds(self.stack()),
    {
        proof {
            use_type_invariant(&*self);
        }
        let mut r: Vec<LayerKind> = Vec::new();
        for i in 0..self.layers.len()
            invariant
                r@ == layer_kinds(self.layers@.take(i as int)),
        {
            r.push(self.layers[i].kind);
            proof {
                assert(layer_kinds(self.layers@.take(i + 1)) =~= layer_kinds(self.layers@.take(i as int)).push(
                    self.layers@[i as int].kind,
                ));
            }
        }
        proof {
            assert(self.layers@.take(self.layers@.len() as int) =~= self.layers@);
        }
        r
    }

    /// The position of the layer with id `id`.
    pub fn position(&self, id: u64) -> (r: Option<usize>)
        ensures
            r matches Some(i) ==> layer_pos(self.stack(), id, 0) == Some(i as int),
            r is None ==> layer_pos(self.stack(), id, 0) is None,
    {
        proof {
            use_type_invariant(&*self);
        }
        let mut i: usize = 0;
        while i < self.layers.len()
            invariant
                i <= self.layers.len(),
                layer_pos(self.layers@, id, 0) == layer_pos(self.layers@, id, i as int),
            decreases self.layers.len() - i,
        {
            if self.layers[i].id == id {
                return Some(i);
            }
            i = i + 1;
        }
        None
    }

    /// The number of layers.
    pub fn layer_count(&self) -> (r: usize)
        ensures
            r == self.stack().len(),
    {
        proof {
            use_type_invariant(&*self);
        }
        self.layers.len()
    }

    /// The number of layers that are enabled and visible.
    pub fn enabled_count(&self) -> (r: usize)
        ensures
            r == shown_count(self.stack()),
    {
        proof {
            use_type_invariant(&*self);
        }
        let mut c: usize = 0;
        for i in 0..self.layers.len()
            invariant
                c == shown_count(self.layers@.take(i as int)),
                c <= i,
        {
            proof {
                assert(self.layers@.take(i + 1).drop_last() =~= self.layers@.take(i as int));
            }
            if self.layers[i].enabled && self.layers[i].visible {
                c = c + 1;
            }
        }
        proof {
            assert(self.layers@.take(self.layers@.len() as int) =~= self.layers@);
        }
        c
    }

    /// The number of shader layers.
    pub fn shader_count(&self) -> (r: usize)
        ensures
            r == count_kind(layer_kinds(self.stack()), LayerKind::Shader),
    {
        proof {
            use_type_invariant(&*self);
        }
        let k = self.kinds();
        let mut c: usize = 0;
        for i in 0..k.len()
            invariant
                c == count_kind(k@.take(i as int), LayerKind::Shader),
                c <= i,
        {
            proof {
                assert(k@.take(i + 1).drop_last() =~= k@.take(i as int));
            }
            if k[i] == LayerKind::Shader {
                c = c + 1;
            }
        }
        proof {
            assert(k@.take(k@.len() as int) =~= k@);
        }
        c
    }

    /// Whether the stack has a Milkdrop layer.
    pub fn has_milkdrop(&self) -> (r: bool)
        ensures
            r == exists|i: int| 0 <= i < self.stack().len() && #[trigger] self.stack()[i].kind == LayerKind::Milkdrop,
    {
        proof {
            use_type_invariant(&*self);
        }
        let mut i: usize = 0;
        while i < self.layers.len()
            invariant
                i <= self.layers.len(),
                forall|j: int| 0 <= j < i ==> (#[trigger] self.layers@[j]).kind != LayerKind::Milkdrop,
            decreases self.layers.len() - i,
        {
            if self.layers[i].kind == LayerKind::Milkdrop {
                return true;
            }
            i = i + 1;
        }
        false
    }

    /// Adds a layer of `kind` on top and selects it. Refused (`None`, nothing
    /// changes) when [`can_add_layer`] refuses it or every id is used up.
    pub fn add_layer(&mut self, kind: LayerKind) -> (r: Option<u64>)
        ensures
            r is Some <==> layer_admitted(layer_kinds(old(self).stack()), kind) && old(self).last_layer_id()
                < u64::MAX,
            r is None ==> *final(self) == *old(self),
            r matches Some(id) ==> {
                &&& id == old(self).last_layer_id() + 1
                &&& final(self).last_layer_id() == id
                &&& final(self).selection() == Some(id)
                &&& final(self).stack().len() == old(self).stack().len() + 1
                &&& final(self).stack().drop_last() == old(self).stack()
                &&& is_new_layer(final(self).stack().last(), id, kind)
                &&& final(self).global() == old(self).global()
                &&& final(self).next_effect() == old(self).next_effect()
            },
    {
        proof {
            use_type_invariant(&*self);
        }
        let kinds = self.kinds();
        if !can_add_layer(kinds.as_slice(), kind) || self.last_id == u64::MAX {
            return None;
        }
        proof {
            lemma_count_kind_pos(kinds@, LayerKind::Milkdrop);
        }
        let id = self.last_id + 1;
        let name = kind.default_name().to_owned();
        let effects = EffectChain::new();
        let ghost s0 = self.layers@;
        let mut v = self.take_layers();
        v.push(Layer { id, name, kind, enabled: true, visible: true, blend: BlendMode::Normal, effects });
        proof {
            let s = v@;
            assert(s.drop_last() =~= s0);
            assert(s[s.len() - 1].id == id);
            assert(has_layer(s, id));
            assert forall|i: int, j: int|
                0 <= i < s.len() && 0 <= j < s.len() && s[i].kind == LayerKind::Milkdrop && s[j].kind
                    == LayerKind::Milkdrop implies i == j by {
                if i < s0.len() && kind == LayerKind::Milkdrop {
                    assert(layer_kinds(s0)[i] == LayerKind::Milkdrop);
                }
                if j < s0.len() && kind == LayerKind::Milkdrop {
                    assert(layer_kinds(s0)[j] == LayerKind::Milkdrop);
                }
            }
        }
        self.last_id = id;
        self.put_layers(v, Some(id));
        Some(id)
    }

    /// Moves the layer with id `id` one place up (towards the front) or down;
    /// nothing changes if it is absent or already at that end.
    pub fn move_layer(&mut self, id: u64, up: bool)
        ensures
            final(self).stack() == layers_moved(old(self).stack(), id, up),
            final(self).selection() == old(self).selection(),
            final(self).last_layer_id() == old(self).last_layer_id(),
            final(self).global() == old(self).global(),
            final(self).next_effect() == old(self).next_effect(),
    {
        proof {
            use_type_invariant(&*self);
            lemma_layer_pos(self.layers@, id, 0);
        }
        let ghost e0 = self.layers@;
        match self.position(id) {
            None => {},
            Some(i) => {
                assert(i < self.layers.len());
                if up && i > 0 {
                    let sel = self.selected;
                    let mut v = self.take_layers();
                    let l = v.remove(i);
                    v.insert(i - 1, l);
                    proof {
                        assert(v@ =~= e0.update(i - 1, e0[i as int]).update(i as int, e0[i - 1]));
                        lemma_swap_wf(e0, i - 1, sel, self.last_id);
                    }
                    self.put_layers(v, sel);
                } else if !up && i + 1 < self.layers.len() {
                    let sel = self.selected;
                    let mut v = self.take_layers();
                    let l = v.remove(i);
                    v.insert(i + 1, l);
                    proof {
                        assert(v@ =~= e0.update(i as int, e0[i + 1]).update(i + 1, e0[i as int]));
                        lemma_swap_wf(e0, i as int, sel, self.last_id);
                    }
                    self.put_layers(v, sel);
                }
            },
        }
    }

    /// Selects the layer with id `id`, if there is one; otherwise nothing
    /// changes.
    pub fn set_selected(&mut self, id: u64)
        ensures
            final(self).stack() == old(self).stack(),
            final(self).selection() == (if has_layer(old(self).stack(), id) {
                Some(id)
            } else {
                old(self).selection()
            }),
            final(self).last_layer_id() == old(self).last_layer_id(),
            final(self).global() == old(self).global(),
            final(self).next_effect() == old(self).next_effect(),
    {
        proof {
            use_type_invariant(&*self);
            lemma_layer_pos(self.layers@, id, 0);
        }
        if self.position(id).is_some() {
            self.selected = Some(id);
        }
    }

    /// Switches the layer with id `id` on or off, if there is one.
    pub fn set_enabled(&mut self, id: u64, enabled: bool)
        ensures
            changed_at(old(self).stack(), final(self).stack(), id),
            layer_pos(old(self).stack(), id, 0) matches Some(p) ==> {
                let (a, b) = (final(self).stack()[p], old(self).stack()[p]);
                &&& a.enabled == enabled
                &&& a.visible == b.visible
                &&& a.name == b.name
                &&& a.blend == b.blend
                &&& a.effects == b.effects
            },
            final(self).selection() == old(self).selection(),
            final(self).last_layer_id() == old(self).last_layer_id(),
            final(self).global() == old(self).global(),
            final(self).next_effect() == old(self).next_effect(),
    {
        proof {
            use_type_invariant(&*self);
            lemma_layer_pos(self.layers@, id, 0);
        }
        let ghost e0 = self.layers@;
        if let Some(i) = self.position(id) {
            let sel = self.selected;
            let mut v = self.take_layers();
            v[i].enabled = enabled;
            proof {
                lemma_same_ids_wf(e0, v@, sel, self.last_id);
            }
            self.put_layers(v, sel);
        }
    }

    /// Shows or hides the layer with id `id`, if there is one.
    pub fn set_visible(&mut self, id: u64, visible: bool)
        ensures
            changed_at(old(self).stack(), final(self).stack(), id),
            layer_pos(old(self).stack(), id, 0) matches Some(p) ==> {
                let (a, b) = (final(self).stack()[p], old(self).stack()[p]);
                &&& a.enabled == b.enabled
                &&& a.visible == visible
                &&& a.name == b.name
                &&& a.blend == b.blend
                &&& a.effects == b.effects
            },
            final(self).selection() == old(self).selection(),
            final(self).last_layer_id() == old(self).last_layer_id(),
            final(self).global() == old(self).global(),
            final(self).next_effect() == old(self).next_effect(),
    {
        proof {
            use_type_invariant(&*self);
            lemma_layer_pos(self.layers@, id, 0);
        }
        let ghost e0 = self.layers@;
        if let Some(i) = self.position(id) {
            let sel = self.selected;
            let mut v = self.take_layers();
            v[i].visible = visible;
            proof {
                lemma_same_ids_wf(e0, v@, sel, self.last_id);
            }
            self.put_layers(v, sel);
        }
    }

    /// Sets the blend mode of the layer with id `id` from its numeric code
    /// (see [`BlendMode::from_u32`]), if there is such a layer.
    pub fn set_blend(&mut self, id: u64, blend: u32)
        ensures
            changed_at(old(self).stack(), final(self).stack(), id),
            layer_pos(old(self).stack(), id, 0) matches Some(p) ==> {
                let (a, b) = (final(self).stack()[p], old(self).stack()[p]);
                &&& a.enabled == b.enabled
                &&& a.visible == b.visible
                &&& a.name == b.name
                &&& (blend <= 6 ==> blend_code(a.blend) == blend)
                &&& (blend > 6 ==> a.blend == BlendMode::Normal)
                &&& a.effects == b.effects
            },
            final(self).selection() == old(self).selection(),
            final(self).last_layer_id() == old(self).last_layer_id(),
            final(self).global() == old(self).global(),
            final(self).next_effect() == old(self).next_effect(),
    {
        proof {
            use_type_invariant(&*self);
            lemma_layer_pos(self.layers@, id, 0);
        }
        let ghost e0 = self.layers@;
        if let Some(i) = self.position(id) {
            let sel = self.selected;
            let mut v = self.take_layers();
            v[i].blend = BlendMode::from_u32(blend);
            proof {
                lemma_same_ids_wf(e0, v@, sel, self.last_id);
            }
            self.put_layers(v, sel);
        }
    }

    /// Renames the layer with id `id`, if there is one.
    pub fn rename_layer(&mut self, id: u64, name: String)
        ensures
            changed_at(old(self).stack(), final(self).stack(), id),
            layer_pos(old(self).stack(), id, 0) matches Some(p) ==> {
                let (a, b) = (final(self).stack()[p], old(self).stack()[p]);
                &&& a.enabled == b.enabled
                &&& a.visible == b.visible
                &&& a.name == name
                &&& a.blend == b.blend
                &&& a.effects == b.effects
            },
            final(self).selection() == old(self).selection(),
            final(self).last_layer_id() == old(self).last_layer_id(),
            final(self).global() == old(self).global(),
            final(self).next_effect() == old(self).next_effect(),
    {
        proof {
            use_type_invariant(&*self);
            lemma_layer_pos(self.layers@, id, 0);
        }
        let ghost e0 = self.layers@;
        if let Some(i) = self.position(id) {
            let sel = self.selected;
            let mut v = self.take_layers();
            v[i].name = name;
            proof {
                lemma_same_ids_wf(e0, v@, sel, self.last_id);
            }
            self.put_layers(v, sel);
        }
    }

    /// Replaces the stack with the default scene: a Milkdrop layer under a
    /// waveform layer, the Milkdrop one selected, and no global effects.
    pub fn load_default(&mut self)
        ensures
            final(self).stack().len() == 2,
            is_new_layer(final(self).stack()[0], 1, LayerKind::Milkdrop),
            is_new_layer(final(self).stack()[1], 2, LayerKind::Waveform),
            final(self).selection() == Some(1u64),
            final(self).last_layer_id() == 2,
            final(self).global().entries().len() == 0,
            final(self).global().selection() is None,
            final(self).next_effect() == old(self).next_effect(),
    {
        proof {
            use_type_invariant(&*self);
        }
        let _ = self.take_layers();
        self.last_id = 0;
        self.global_chain = EffectChain::new();
        proof {
            assert(layer_kinds(self.layers@) =~= Seq::<LayerKind>::empty());
            assert(count_kind(Seq::<LayerKind>::empty(), LayerKind::Milkdrop) == 0);
        }
        let m = self.add_layer(LayerKind::Milkdrop);
        proof {
            assert(layer_kinds(self.layers@) =~= seq![LayerKind::Milkdrop]);
            assert(count_kind(seq![LayerKind::Milkdrop], LayerKind::Shader) == 0) by {
                assert(seq![LayerKind::Milkdrop].drop_last() =~= Seq::<LayerKind>::empty());
                assert(count_kind(Seq::<LayerKind>::empty(), LayerKind::Shader) == 0);
                assert(seq![LayerKind::Milkdrop].last() == LayerKind::Milkdrop);
            }
        }
        let w = self.add_layer(LayerKind::Waveform);
        proof {
            assert(m == Some(1u64));
            assert(w == Some(2u64));
            assert(self.layers@[0] == self.layers@.drop_last()[0]);
        }
        self.selected = Some(1);
        proof {
            assert(self.layers@[0].id == 1);
            assert(has_layer(self.layers@, 1));
        }
    }

    /// Inserts a copy of the layer with id `id` right above it, under a new
    /// id and named "<name> copy", with the same kind, flags and blend mode
    /// and no effects, and selects it. Returns the new id, or `None`
    /// (changing nothing) if there is no such layer, it is the Milkdrop
    /// layer, or a layer of its kind would be refused.
    #[verifier::spinoff_prover]
    #[verifier::rlimit(40)]
    pub fn duplicate_layer(&mut self, id: u64) -> (r: Option<u64>)
        ensures
            r is None ==> *final(self) == *old(self),
            r is Some <==> (layer_pos(old(self).stack(), id, 0) matches Some(p) && old(self).stack()[p].kind
                != LayerKind::Milkdrop && layer_admitted(layer_kinds(old(self).stack()), old(self).stack()[p].kind)
                && old(self).last_layer_id() < u64::MAX),
            r matches Some(n) ==> layer_pos(old(self).stack(), id, 0) matches Some(p) && {
                let (e, c) = (old(self).stack(), final(self).stack());
                &&& n == old(self).last_layer_id() + 1
                &&& final(self).last_layer_id() == n
                &&& final(self).selection() == Some(n)
                &&& c.len() == e.len() + 1
                &&& c.take(p + 1) == e.take(p + 1)
                &&& c.skip(p + 2) == e.skip(p + 1)
                &&& c[p + 1].id == n
                &&& c[p + 1].name@ == e[p].name@ + " copy"@
                &&& c[p + 1].kind == e[p].kind
                &&& c[p + 1].enabled == e[p].enabled
                &&& c[p + 1].visible == e[p].visible
                &&& c[p + 1].blend == e[p].blend
                &&& c[p + 1].effects.entries().len() == 0
                &&& c[p + 1].effects.selection() is None
                &&& final(self).global() == old(self).global()
                &&& final(self).next_effect() == old(self).next_effect()
            },
    {
        proof {
            use_type_invariant(&*self);
            lemma_layer_pos(self.layers@, id, 0);
        }
        let i = match self.position(id) {
            Some(i) => i,
            None => return None,
        };
        let kind = self.layers[i].kind;
        if kind == LayerKind::Milkdrop {
            return None;
        }
        let kinds = self.kinds();
        if !can_add_layer(kinds.as_slice(), kind) || self.last_id == u64::MAX {
            return None;
        }
        let n = self.last_id + 1;
        let mut name = self.layers[i].name.clone();
        push_str(&mut name, " copy");
        let copy = Layer {
            id: n,
            name,
            kind,
            enabled: self.layers[i].enabled,
            visible: self.layers[i].visible,
            blend: self.layers[i].blend,
            effects: EffectChain::new(),
        };
        let ghost e0 = self.layers@;
        let mut v = self.take_layers();
        v.insert(i + 1, copy);
        proof {
            let c = v@;
            assert(c.take(i + 1) =~= e0.take(i + 1));
            assert(c.skip(i + 2) =~= e0.skip(i + 1));
            let f = |k: int| if k <= i { k } else { k - 1 };
            assert forall|k: int| 0 <= k < c.len() && k != i + 1 implies #[trigger] c[k] == e0[f(k)] by {
                if k <= i {
                    assert(c.take(i + 1)[k] == e0.take(i + 1)[k]);
                } else {
                    assert(c.skip(i + 2)[k - i - 2] == e0.skip(i + 1)[k - i - 2]);
                }
            }
            assert forall|a: int, b: int| 0 <= a < b < c.len() implies c[a].id != c[b].id by {
                if a != i + 1 && b != i + 1 {
                    assert(c[a] == e0[f(a)] && c[b] == e0[f(b)]);
                    assert(e0[f(a)].id != e0[f(b)].id);
                } else if a == i + 1 {
                    assert(c[b] == e0[f(b)]);
                } else {
                    assert(c[a] == e0[f(a)]);
                }
            }
            assert forall|k: int| 0 <= k < c.len() implies 1 <= #[trigger] c[k].id <= n by {
                if k != i + 1 {
                    assert(c[k] == e0[f(k)]);
                }
            }
            assert forall|a: int, b: int|
                0 <= a < c.len() && 0 <= b < c.len() && c[a].kind == LayerKind::Milkdrop && c[b].kind
                    == LayerKind::Milkdrop implies a == b by {
                if a != i + 1 && b != i + 1 {
                    assert(c[a] == e0[f(a)] && c[b] == e0[f(b)]);
                } else if a == i + 1 {
                    assert(c[a].kind == kind);
                } else {
                    assert(c[b].kind == kind);
                }
            }
            assert(has_layer(c, n)) by {
                assert(c[i + 1].id == n);
            }
        }
        self.last_id = n;
        self.put_layers(v, Some(n));
        Some(n)
    }

    /// The effect chain addressed by `target` (0 for the global chain, else
    /// a layer id), if there is one.
    pub fn chain(&self, target: u64) -> (r: Option<&EffectChain<P>>)
        ensures
            r matches Some(c) ==> self.chain_of(target) == Some(*c),
            r is None ==> self.chain_of(target) is None,
    {
        proof {
            use_type_invariant(&*self);
        }
        if target == 0 {
            Some(&self.global_chain)
        } else {
            proof {
                lemma_layer_pos(self.layers@, target, 0);
            }
            match self.position(target) {
                Some(i) => Some(&self.layers[i].effects),
                None => None,
            }
        }
    }

    /// Appends a new effect of `kind`, with parameters `params`, to the chain
    /// addressed by `target` and selects it there. Returns its id, or `None`
    /// (changing nothing) if there is no such chain, it is full, or every
    /// effect id is used up.
    pub fn add_effect(&mut self, target: u64, kind: EffectKind, params: P) -> (r: Option<u64>)
        ensures
            r is Some <==> (old(self).chain_of(target) matches Some(c) && c.entries().len() < effect_limit(target)
                && old(self).next_effect() < u64::MAX),
            r is None ==> *final(self) == *old(self),
            r matches Some(id) ==> {
                &&& id == old(self).next_effect()
                &&& final(self).next_effect() == id + 1
                &&& final(self).chain_of(target) matches Some(c2) && old(self).chain_of(target) matches Some(c1)
                    && old(self).chain_replaced(&*final(self), target, c2) && effect_appended(c1, c2, id, kind, params)
            },
    {
        proof {
            use_type_invariant(&*self);
        }
        let limit: usize = if target == 0 {
            crate::scene::MAX_GLOBAL_EFFECTS
        } else {
            crate::scene::MAX_EFFECTS_PER_LAYER
        };
        if self.next_effect_id == u64::MAX {
            return None;
        }
        let id = self.next_effect_id;
        if target == 0 {
            if self.global_chain.len() >= limit {
                return None;
            }
            let mut g = self.take_global();
            g.add(id, kind, params);
            self.global_chain = g;
        } else {
            proof {
                lemma_layer_pos(self.layers@, target, 0);
            }
            let i = match self.position(target) {
                Some(i) => i,
                None => return None,
            };
            if self.layers[i].effects.len() >= limit {
                return None;
            }
            let ghost e0 = self.layers@;
            let sel = self.selected;
            let mut v = self.take_layers();
            v[i].effects.add(id, kind, params);
            proof {
                lemma_same_ids_wf(e0, v@, sel, self.last_id);
                assert forall|k: int| 0 <= k < e0.len() && k != i implies #[trigger] v@[k] == e0[k] by {}
            }
            self.put_layers(v, sel);
            proof {
                lemma_layer_pos(self.layers@, target, 0);
                lemma_layer_pos_same_ids(e0, self.layers@, target);
            }
        }
        self.next_effect_id = id + 1;
        Some(id)
    }

    /// Removes the effects with id `id` from the chain addressed by `target`,
    /// if there is such a chain.
    pub fn remove_effect(&mut self, target: u64, id: u64)
        ensures
            final(self).next_effect() == old(self).next_effect(),
            old(self).chain_of(target) is None ==> *final(self) == *old(self),
            old(self).chain_of(target) matches Some(c1) ==> (final(self).chain_of(target) matches Some(c2)
                && old(self).chain_replaced(&*final(self), target, c2) && effect_removed(c1, c2, id)),
    {
        proof {
            use_type_invariant(&*self);
        }
        if target == 0 {
            let mut g = self.take_global();
            g.remove(id);
            self.global_chain = g;
        } else {
            proof {
                lemma_layer_pos(self.layers@, target, 0);
            }
            let i = match self.position(target) {
                Some(i) => i,
                None => return,
            };
            let ghost e0 = self.layers@;
            let sel = self.selected;
            let mut v = self.take_layers();
            v[i].effects.remove(id);
            proof {
                lemma_same_ids_wf(e0, v@, sel, self.last_id);
                assert forall|k: int| 0 <= k < e0.len() && k != i implies #[trigger] v@[k] == e0[k] by {}
            }
            self.put_layers(v, sel);
            proof {
                lemma_layer_pos(self.layers@, target, 0);
                lemma_layer_pos_same_ids(e0, self.layers@, target);
            }
        }
    }

    /// Inserts a copy of the first effect with id `id` of the chain addressed
    /// by `target` right after it, under a new id, and selects it there.
    /// Returns the new id, or `None` (changing nothing) if there is no such
    /// chain or effect, or every effect id is used up.
    pub fn duplicate_effect(&mut self, target: u64, id: u64) -> (r: Option<u64>)
        where P: Clone,
        ensures
            r is Some <==> (old(self).chain_of(target) matches Some(c) && find_id(c.entries(), id, 0) is Some
                && old(self).next_effect() < u64::MAX),
            r is None ==> *final(self) == *old(self),
            r matches Some(n) ==> {
                &&& n == old(self).next_effect()
                &&& final(self).next_effect() == n + 1
                &&& final(self).chain_of(target) matches Some(c2) && old(self).chain_of(target) matches Some(c1)
                    && old(self).chain_replaced(&*final(self), target, c2) && effect_duplicated(c1, c2, id, n)
            },
    {
        proof {
            use_type_invariant(&*self);
        }
        if self.next_effect_id == u64::MAX {
            return None;
        }
        let n = self.next_effect_id;
        if target == 0 {
            proof {
                lemma_find_id(self.global_chain.entries(), id, 0);
            }
            if self.global_chain.find(id).is_none() {
                return None;
            }
            let mut g = self.take_global();
            g.duplicate(id, n);
            self.global_chain = g;
        } else {
            proof {
                lemma_layer_pos(self.layers@, target, 0);
            }
            let i = match self.position(target) {
                Some(i) => i,
                None => return None,
            };
            if self.layers[i].effects.find(id).is_none() {
                return None;
            }
            let ghost e0 = self.layers@;
            let sel = self.selected;
            let mut v = self.take_layers();
            v[i].effects.duplicate(id, n);
            proof {
                lemma_same_ids_wf(e0, v@, sel, self.last_id);
                assert forall|k: int| 0 <= k < e0.len() && k != i implies #[trigger] v@[k] == e0[k] by {}
            }
            self.put_layers(v, sel);
            proof {
                lemma_layer_pos(self.layers@, target, 0);
                lemma_layer_pos_same_ids(e0, self.layers@, target);
            }
        }
        self.next_effect_id = n + 1;
        Some(n)
    }

    /// Moves the first effect with id `id` of the chain addressed by `target`
    /// one place up or down (see [`EffectChain::move_effect`]).
    pub fn move_effect(&mut self, target: u64, id: u64, up: bool)
        ensures
            final(self).next_effect() == old(self).next_effect(),
            old(self).chain_of(target) is None ==> *final(self) == *old(self),
            old(self).chain_of(target) matches Some(c1) ==> (final(self).chain_of(target) matches Some(c2)
                && old(self).chain_replaced(&*final(self), target, c2) && c2.entries() == moved(c1.entries(), id, up)
                && c2.selection() == c1.selection()),
    {
        proof {
            use_type_invariant(&*self);
        }
        if target == 0 {
            let mut g = self.take_global();
            g.move_effect(id, up);
            self.global_chain = g;
        } else {
            proof {
                lemma_layer_pos(self.layers@, target, 0);
            }
            let i = match self.position(target) {
                Some(i) => i,
                None => return,
            };
            let ghost e0 = self.layers@;
            let sel = self.selected;
            let mut v = self.take_layers();
            v[i].effects.move_effect(id, up);
            proof {
                lemma_same_ids_wf(e0, v@, sel, self.last_id);
                assert forall|k: int| 0 <= k < e0.len() && k != i implies #[trigger] v@[k] == e0[k] by {}
            }
            self.put_layers(v, sel);
            proof {
                lemma_layer_pos(self.layers@, target, 0);
                lemma_layer_pos_same_ids(e0, self.layers@, target);
            }
        }
    }

    /// Switches the first effect with id `id` of the chain addressed by
    /// `target` on or off.
    pub fn set_effect_enabled(&mut self, target: u64, id: u64, enabled: bool)
        ensures
            final(self).next_effect() == old(self).next_effect(),
            old(self).chain_of(target) is None ==> *final(self) == *old(self),
            old(self).chain_of(target) matches Some(c1) ==> (final(self).chain_of(target) matches Some(c2)
                && old(self).chain_replaced(&*final(self), target, c2) && effect_switched(c1, c2, id, enabled)),
    {
        proof {
            use_type_invariant(&*self);
        }
        if target == 0 {
            let mut g = self.take_global();
            g.set_enabled(id, enabled);
            self.global_chain = g;
        } else {
            proof {
                lemma_layer_pos(self.layers@, target, 0);
            }
            let i = match self.position(target) {
                Some(i) => i,
                None => return,
            };
            let ghost e0 = self.layers@;
            let sel = self.selected;
            let mut v = self.take_layers();
            v[i].effects.set_enabled(id, enabled);
            proof {
                lemma_same_ids_wf(e0, v@, sel, self.last_id);
                assert forall|k: int| 0 <= k < e0.len() && k != i implies #[trigger] v@[k] == e0[k] by {}
            }
            self.put_layers(v, sel);
            proof {
                lemma_layer_pos(self.layers@, target, 0);
                lemma_layer_pos_same_ids(e0, self.layers@, target);
            }
        }
    }

    /// Selects the effect with id `id` in the chain addressed by `target`, if
    /// it has one.
    pub fn select_effect(&mut self, target: u64, id: u64)
        ensures
            final(self).next_effect() == old(self).next_effect(),
            old(self).chain_of(target) is None ==> *final(self) == *old(self),
            old(self).chain_of(target) matches Some(c1) ==> (final(self).chain_of(target) matches Some(c2)
                && old(self).chain_replaced(&*final(self), target, c2) && c2.entries() == c1.entries()
                && c2.selection() == (if has_id(c1.entries(), id) {
                Some(id)
            } else {
                c1.selection()
            })),
    {
        proof {
            use_type_invariant(&*self);
        }
        if target == 0 {
            let mut g = self.take_global();
            g.select(id);
            self.global_chain = g;
        } else {
            proof {
                lemma_layer_pos(self.layers@, target, 0);
            }
            let i = match self.position(target) {
                Some(i) => i,
                None => return,
            };
            let ghost e0 = self.layers@;
            let sel = self.selected;
            let mut v = self.take_layers();
            v[i].effects.select(id);
            proof {
                lemma_same_ids_wf(e0, v@, sel, self.last_id);
                assert forall|k: int| 0 <= k < e0.len() && k != i implies #[trigger] v@[k] == e0[k] by {}
            }
            self.put_layers(v, sel);
            proof {
                lemma_layer_pos(self.layers@, target, 0);
                lemma_layer_pos_same_ids(e0, self.layers@, target);
            }
        }
    }

    /// Replaces the parameters of the first effect with id `id` of the chain
    /// addressed by `target`.
    pub fn set_effect_params(&mut self, target: u64, id: u64, params: P)
        ensures
            final(self).next_effect() == old(self).next_effect(),
            old(self).chain_of(target) is None ==> *final(self) == *old(self),
            old(self).chain_of(target) matches Some(c1) ==> (final(self).chain_of(target) matches Some(c2)
                && old(self).chain_replaced(&*final(self), target, c2) && effect_params_set(c1, c2, id, params)),
    {
        proof {
            use_type_invariant(&*self);
        }
        if target == 0 {
            proof {
                lemma_find_id(self.global_chain.entries(), id, 0);
            }
            if let Some(k) = self.global_chain.find(id) {
                let mut g = self.take_global();
                g.set_params(k, params);
                self.global_chain = g;
            }
        } else {
            proof {
                lemma_layer_pos(self.layers@, target, 0);
            }
            let i = match self.position(target) {
                Some(i) => i,
                None => return,
            };
            proof {
                lemma_find_id(self.layers@[i as int].effects.entries(), id, 0);
            }
            if let Some(k) = self.layers[i].effects.find(id) {
                let ghost e0 = self.layers@;
                let sel = self.selected;
                let mut v = self.take_layers();
                v[i].effects.set_params(k, params);
                proof {
                    lemma_same_ids_wf(e0, v@, sel, self.last_id);
                    assert forall|q: int| 0 <= q < e0.len() && q != i implies #[trigger] v@[q] == e0[q] by {}
                }
                self.put_layers(v, sel);
                proof {
                    lemma_layer_pos(self.layers@, target, 0);
                    lemma_layer_pos_same_ids(e0, self.layers@, target);
                }
            }
        }
    }

    /// Replaces the stack with the layers saved in a scene, and the global
    /// chain with the scene's global effects. Each layer keeps its saved id
    /// (one that is 0 or already taken gets the least free positive id), a
    /// Milkdrop layer after the first is skipped, each effect chain is
    /// reloaded as [`EffectChain::from_data`] does, and the bottom layer
    /// becomes selected. Later effect ids start past every reloaded one.
    /// Returns, for each saved layer, the id it got, or `None` if it was
    /// skipped.
    #[verifier::spinoff_prover]
    #[verifier::rlimit(60)]
    pub fn import_scene(&mut self, layers: Vec<SavedLayer<P>>, global: Vec<EffectData<P>>) -> (r: Vec<Option<u64>>)
        ensures
            r@ == import_slots(layers@),
            imported_as(layers@, final(self).stack()),
            final(self).selection() == (if kept_layers(layers@).len() == 0 {
                None
            } else {
                Some(imported_ids(layers@)[0])
            }),
            final(self).last_layer_id() == seq_max(imported_ids(layers@)),
            reloaded_as(global@, final(self).global().entries()),
            final(self).global().selection() == reloaded_selection(global@),
            final(self).next_effect() == next_after(
                old(self).next_effect(),
                max_u64(layers_effect_max(kept_layers(layers@)), reloaded_max(global@)),
            ),
    {
        proof {
            use_type_invariant(&*self);
        }
        let ghost d0 = layers@;
        let mut saved: Vec<u64> = Vec::new();
        let mut keep: Vec<bool> = Vec::new();
        let mut milk = false;
        for j in 0..layers.len()
            invariant
                layers@ == d0,
                saved@ == saved_ids(kept_layers(d0.take(j as int))),
                keep@.len() == j,
                forall|t: int|
                    0 <= t < j ==> #[trigger] keep@[t] == !(d0[t].kind == LayerKind::Milkdrop && saved_has_milkdrop(
                        kept_layers(d0.take(t)),
                    )),
                milk == saved_has_milkdrop(kept_layers(d0.take(j as int))),
        {
            proof {
                assert(d0.take(j + 1).drop_last() =~= d0.take(j as int));
                assert(d0.take(j + 1).last() == d0[j as int]);
                lemma_has_push(kept_layers(d0.take(j as int)), d0[j as int]);
            }
            let is_m = layers[j].kind == LayerKind::Milkdrop;
            let k = !(is_m && milk);
            if k {
                saved.push(layers[j].id);
                proof {
                    assert(saved_ids(kept_layers(d0.take(j + 1))) =~= saved_ids(kept_layers(d0.take(j as int))).push(
                        d0[j as int].id,
                    ));
                }
            }
            keep.push(k);
            if is_m {
                milk = true;
            }
        }
        proof {
            assert(d0.take(d0.len() as int) =~= d0);
        }
        let ids = assign_ids(&saved);
        let n_saved = saved.len();
        let n_layers = layers.len();
        let n_ids = ids.len();
        proof {
            assert(n_saved == saved@.len());
            law_reload_ids_distinct(saved@);
            lemma_kept_layers(d0);
        }
        let mut new_layers: Vec<Layer<P>> = Vec::new();
        let mut out: Vec<Option<u64>> = Vec::new();
        let mut emax: u64 = 0;
        let mut rest = layers;
        let mut j: usize = 0;
        let mut k: usize = 0;
        while rest.len() > 0
            invariant
                j <= d0.len(),
                rest@ == d0.skip(j as int),
                keep@.len() == d0.len(),
                forall|t: int|
                    0 <= t < d0.len() ==> #[trigger] keep@[t] == !(d0[t].kind == LayerKind::Milkdrop
                        && saved_has_milkdrop(kept_layers(d0.take(t)))),
                ids@ == imported_ids(d0),
                ids@.len() == kept_layers(d0).len(),
                ids@.len() == n_ids,
                d0.len() == n_layers,
                k == kept_layers(d0.take(j as int)).len(),
                imported_prefix(d0, new_layers@),
                new_layers@.len() == k,
                out@ == import_slots(d0.take(j as int)),
                emax == layers_effect_max(kept_layers(d0.take(j as int))),
            decreases rest.len(),
        {
            proof {
                assert(j < d0.len());
                assert(rest@[0] == d0[j as int]);
                assert(d0.take(j + 1).drop_last() =~= d0.take(j as int));
                assert(d0.take(j + 1).last() == d0[j as int]);
                lemma_kept_prefix(d0, j as int);
                lemma_kept_prefix(d0, j + 1);
            }
            let d = rest.remove(0);
            if keep[j] {
                proof {
                    assert(kept_layers(d0.take(j + 1)) == kept_layers(d0.take(j as int)).push(d0[j as int]));
                    assert(kept_layers(d0)[k as int] == kept_layers(d0.take(j + 1))[k as int]);
                    lemma_assigned_prefix(saved_ids(kept_layers(d0)), k + 1);
                    assert(saved_ids(kept_layers(d0)).take(k + 1) =~= saved_ids(kept_layers(d0.take(j + 1))));
                    assert(k + 1 <= ids@.len());
                }
                let mut chain = EffectChain::new();
                let m = chain.from_data(d.effects);
                if m > emax {
                    emax = m;
                }
                let id = ids[k];
                new_layers.push(
                    Layer {
                        id,
                        name: d.name,
                        kind: d.kind,
                        enabled: d.enabled,
                        visible: d.visible,
                        blend: d.blend,
                        effects: chain,
                    },
                );
                out.push(Some(id));
                k = k + 1;
                proof {
                    assert(kept_layers(d0.take(j + 1)).drop_last() =~= kept_layers(d0.take(j as int)));
                    assert(imported_ids(d0.take(j + 1)).last() == ids@[k - 1]) by {
                        assert(assigned_ids(saved_ids(kept_layers(d0))).take(k as int)[k - 1] == ids@[k - 1]);
                    }
                }
            } else {
                out.push(None);
                proof {
                    assert(kept_layers(d0.take(j + 1)) == kept_layers(d0.take(j as int)));
                }
            }
            proof {
                assert(rest@ =~= d0.skip(j + 1));
            }
            j = j + 1;
        }
        proof {
            assert(d0.skip(j as int).len() == 0);
            assert(d0.take(j as int) =~= d0);
        }
        let _ = self.take_layers();
        let mut g = EffectChain::new();
        std::mem::swap(&mut g, &mut self.global_chain);
        let gm = g.from_data(global);
        self.global_chain = g;
        let m = if emax > gm {
            emax
        } else {
            gm
        };
        self.next_effect_id = if m < self.next_effect_id {
            self.next_effect_id
        } else if m < u64::MAX {
            m + 1
        } else {
            u64::MAX
        };
        self.last_id = max_of(&ids);
        let sel = if new_layers.len() > 0 {
            Some(new_layers[0].id)
        } else {
            None
        };
        proof {
            let st = new_layers@;
            lemma_seq_max(ids@);
            assert forall|a: int, b: int| 0 <= a < b < st.len() implies st[a].id != st[b].id by {
                assert(st[a].id == ids@[a] && st[b].id == ids@[b]);
            }
            assert forall|a: int| 0 <= a < st.len() implies 1 <= #[trigger] st[a].id <= self.last_id by {
                assert(st[a].id == ids@[a]);
            }
            assert forall|a: int, b: int|
                0 <= a < st.len() && 0 <= b < st.len() && st[a].kind == LayerKind::Milkdrop && st[b].kind
                    == LayerKind::Milkdrop implies a == b by {
                assert(st[a].kind == kept_layers(d0)[a].kind);
                assert(st[b].kind == kept_layers(d0)[b].kind);
            }
            if st.len() > 0 {
                assert(st[0].id == ids@[0]);
                assert(has_layer(st, ids@[0]));
            }
        }
        self.put_layers(new_layers, sel);
        out
    }

    /// The stack as saved in a scene, without the renderer's settings, and
    /// the global chain's effects.
    pub fn export_scene(&self) -> (r: (Vec<SavedLayer<P>>, Vec<EffectData<P>>))
        where P: Clone,
        ensures
            exported_as(self.stack(), r.0@),
            saved_as(self.global().entries(), r.1@),
    {
        proof {
            use_type_invariant(&*self);
        }
        let mut out: Vec<SavedLayer<P>> = Vec::new();
        for i in 0..self.layers.len()
            invariant
                out@.len() == i,
                forall|k: int|
                    0 <= k < i ==> {
                        let (d, l) = (out@[k], self.layers@[k]);
                        &&& (#[trigger] out@[k]).id == l.id
                        &&& d.name == l.name
                        &&& d.kind == l.kind
                        &&& d.enabled == l.enabled
                        &&& d.visible == l.visible
                        &&& d.blend == l.blend
                        &&& saved_as(l.effects.entries(), d.effects@)
                    },
        {
            let l = &self.layers[i];
            out.push(
                SavedLayer {
                    id: l.id,
                    name: l.name.clone(),
                    kind: l.kind,
                    enabled: l.enabled,
                    visible: l.visible,
                    blend: l.blend,
                    effects: l.effects.to_data(),
                },
            );
        }
        (out, self.global_chain.to_data())
    }

    /// Removes the layers with id `id`. If it was selected, the top layer
    /// that remains becomes selected (nothing, if none remains).
    pub fn remove_layer(&mut self, id: u64)
        ensures
            final(self).stack() == layers_without(old(self).stack(), id),
            final(self).selection() == (if old(self).selection() == Some(id) {
                last_layer(layers_without(old(self).stack(), id))
            } else {
                old(self).selection()
            }),
            final(self).last_layer_id() == old(self).last_layer_id(),
            final(self).global() == old(self).global(),
            final(self).next_effect() == old(self).next_effect(),
    {
        proof {
            use_type_invariant(&*self);
        }
        let ghost e0 = self.layers@;
        let sel0 = self.selected;
        let mut v = self.take_layers();
        let mut i: usize = 0;
        let ghost mut j: int = 0;
        while i < v.len()
            invariant
                0 <= j <= e0.len(),
                i <= v.len(),
                v@.take(i as int) == layers_without(e0.take(j), id),
                v@.skip(i as int) == e0.skip(j),
                v.len() - i == e0.len() - j,
                self.layers@.len() == 0,
                self.selected is None,
                self.last_id == old(self).last_id,
                self.next_effect_id == old(self).next_effect_id,
                self.global_chain == old(self).global_chain,
                e0 == old(self).layers@,
            decreases e0.len() - j,
        {
            proof {
                assert(e0.skip(j)[0] == v@[i as int]);
                assert(e0.take(j + 1).drop_last() =~= e0.take(j));
                assert(e0.take(j + 1).last() == e0[j]);
            }
            if v[i].id == id {
                let ghost before = v@;
                v.remove(i);
                proof {
                    assert(v@.take(i as int) =~= before.take(i as int));
                    assert forall|k: int| 0 <= k < v@.skip(i as int).len() implies v@.skip(
                        i as int,
                    )[k] == e0.skip(j + 1)[k] by {
                        assert(before.skip(i as int)[k + 1] == e0.skip(j)[k + 1]);
                    }
                    assert(v@.skip(i as int) =~= e0.skip(j + 1));
                    j = j + 1;
                }
            } else {
                let ghost before = v@;
                i = i + 1;
                proof {
                    assert(v@.take(i as int) =~= before.take(i - 1).push(e0[j]));
                    assert forall|k: int| 0 <= k < v@.skip(i as int).len() implies v@.skip(
                        i as int,
                    )[k] == e0.skip(j + 1)[k] by {
                        assert(before.skip(i - 1)[k + 1] == e0.skip(j)[k + 1]);
                    }
                    assert(v@.skip(i as int) =~= e0.skip(j + 1));
                    j = j + 1;
                }
            }
        }
        proof {
            assert(e0.skip(j).len() == 0);
            assert(e0.take(j) =~= e0);
            assert(v@.take(i as int) =~= v@);
        }
        let sel = if sel0 == Some(id) {
            let n = v.len();
            if n == 0 {
                None
            } else {
                Some(v[n - 1].id)
            }
        } else {
            sel0
        };
        proof {
            let w = v@;
            lemma_layers_without(e0, id);
            assert forall|a: int, b: int| 0 <= a < b < w.len() implies w[a].id != w[b].id by {
                lemma_without_distinct(e0, id, a, b);
            }
            assert forall|a: int, b: int|
                0 <= a < w.len() && 0 <= b < w.len() && w[a].kind == LayerKind::Milkdrop && w[b].kind
                    == LayerKind::Milkdrop implies a == b by {
                if a != b {
                    lemma_without_distinct(e0, id, a, b);
                    lemma_without_distinct(e0, id, b, a);
                    assert(e0.contains(w[a]));
                    assert(e0.contains(w[b]));
                    let ka = choose|k: int| 0 <= k < e0.len() && e0[k] == w[a];
                    let kb = choose|k: int| 0 <= k < e0.len() && e0[k] == w[b];
                }
            }
            assert forall|a: int| 0 <= a < w.len() implies 1 <= #[trigger] w[a].id <= self.last_id by {
                assert(e0.contains(w[a]));
            }
            match sel {
                Some(x) => {
                    if sel0 == Some(id) {
                        assert(w[w.len() - 1].id == x);
                    } else {
                        assert(has_layer(w, x));
                    }
                },
                None => {},
            }
        }
        self.put_layers(v, sel);
    }
}

} // verus!
