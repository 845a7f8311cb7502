//! Per-layer metadata (name, visibility, lock), its edits, and the texts of
//! the layer bar.
use vstd::prelude::*;

use crate::input::{layer_name_for, resolved_layer_name};
use crate::text::{chars_of, decimal, decimal_chars, string_from};

verus! {

/// What the editor keeps about one layer.
#[derive(Debug)]
pub struct LayerMeta {
    pub name: String,
    pub visible: bool,
    pub locked: bool,
}

impl View for LayerMeta {
    type V = (Seq<char>, bool, bool);

    open spec fn view(&self) -> Self::V {
        (self.name@, self.visible, self.locked)
    }
}

/// The metadata of each layer, by its view.
pub open spec fn meta_views(s: Seq<LayerMeta>) -> Seq<(Seq<char>, bool, bool)> {
    s.map_values(|m: LayerMeta| m@)
}

/// The number of layers the bar counts: the map's layers, at least one.
pub open spec fn bar_total(layers: u32) -> u32 {
    if layers == 0 {
        1
    } else {
        layers
    }
}

/// The active layer brought inside the bar's layers.
pub open spec fn shown_layer(active: u32, layers: u32) -> u32 {
    if active >= bar_total(layers) {
        (bar_total(layers) - 1) as u32
    } else {
        active
    }
}

/// The name of layer `a`: its metadata's, else `Layer`.
pub open spec fn meta_name(metas: Seq<LayerMeta>, a: int) -> Seq<char> {
    if 0 <= a < metas.len() {
        metas[a].name@
    } else {
        "Layer"@
    }
}

/// Whether layer `a` is shown: its metadata's flag, else yes.
pub open spec fn meta_visible(metas: Seq<LayerMeta>, a: int) -> bool {
    if 0 <= a < metas.len() {
        metas[a].visible
    } else {
        true
    }
}

/// Whether layer `a` is locked: its metadata's flag, else no.
pub open spec fn meta_locked(metas: Seq<LayerMeta>, a: int) -> bool {
    if 0 <= a < metas.len() {
        metas[a].locked
    } else {
        false
    }
}

/// The layer bar's main text: `n/total name`, then ` 隐藏` for a hidden
/// layer and ` 锁定` for a locked one.
pub open spec fn layer_label_text(a: u32, total: u32, name: Seq<char>, visible: bool, locked: bool) -> Seq<char> {
    decimal(a as nat + 1) + seq!['/'] + decimal(total as nat) + seq![' '] + name + (if visible {
        Seq::<char>::empty()
    } else {
        " 隐藏"@
    }) + (if locked {
        " 锁定"@
    } else {
        Seq::<char>::empty()
    })
}

/// The three texts of the layer bar: the main label, the visibility button's
/// and the lock button's.
#[derive(Debug)]
pub struct LayerBarText {
    pub label: String,
    pub visibility: String,
    pub lock: String,
}

fn append(v: &mut Vec<char>, w: &[char])
    ensures
        final(v)@ == old(v)@ + w@,
{
    let ghost start = v@;
    let mut i: usize = 0;
    while i < w.len()
        invariant
            i <= w@.len(),
            v@ == start + w@.take(i as int),
        decreases w@.len() - i,
    {
        v.push(w[i]);
        proof {
            assert(w@.take(i + 1) == w@.take(i as int).push(w@[i as int]));
        }
        i = i + 1;
    }
    proof {
        assert(w@.take(w@.len() as int) == w@);
    }
}

/// The layer bar's texts. Without a map: `-/-`, `-` and `-`, and the active
/// layer stays as it is. With a map of `layers` layers: the active layer is
/// first brought inside the map's layers (at least one), then the label
/// names it with its number, the layer count, its name and its hidden and
/// locked marks, and the buttons read `显`/`隐` and `锁`/`解`.
pub fn layer_bar_text(active: &mut u32, map_layers: Option<u32>, metas: &Vec<LayerMeta>) -> (r: LayerBarText)
    ensures
        map_layers is None ==> {
            &&& *final(active) == *old(active)
            &&& r.label@ == "-/-"@
            &&& r.visibility@ == "-"@
            &&& r.lock@ == "-"@
        },
        map_layers matches Some(n) ==> {
            let a = shown_layer(*old(active), n);
            let visible = meta_visible(metas@, a as int);
            let locked = meta_locked(metas@, a as int);
            &&& *final(active) == a
            &&& r.label@ == layer_label_text(a, bar_total(n), meta_name(metas@, a as int), visible, locked)
            &&& r.visibility@ == if visible { "显"@ } else { "隐"@ }
            &&& r.lock@ == if locked { "锁"@ } else { "解"@ }
        },
{
    let layers = match map_layers {
        None => {
            return LayerBarText {
                label: string_from(chars_of("-/-").as_slice()),
                visibility: string_from(chars_of("-").as_slice()),
                lock: string_from(chars_of("-").as_slice()),
            };
        },
        Some(n) => n,
    };
    let total: u32 = if layers == 0 { 1 } else { layers };
    if *active >= total {
        *active = total - 1;
    }
    let a = *active;
    let i = a as usize;
    let (name, visible, locked) = if i < metas.len() {
        (chars_of(metas[i].name.as_str()), metas[i].visible, metas[i].locked)
    } else {
        (chars_of("Layer"), true, false)
    };
    let mut v = decimal_chars(a + 1);
    v.push('/');
    let t = decimal_chars(total);
    append(&mut v, t.as_slice());
    v.push(' ');
    append(&mut v, name.as_slice());
    if !visible {
        let s = chars_of(" 隐藏");
        append(&mut v, s.as_slice());
    }
    if locked {
        let s = chars_of(" 锁定");
        append(&mut v, s.as_slice());
    }
    proof {
        assert(v@ =~= layer_label_text(a, total, meta_name(metas@, a as int), visible, locked));
    }
    let vis = if visible { chars_of("显") } else { chars_of("隐") };
    let lock = if locked { chars_of("锁") } else { chars_of("解") };
    LayerBarText {
        label: string_from(v.as_slice()),
        visibility: string_from(vis.as_slice()),
        lock: string_from(lock.as_slice()),
    }
}

/// Which flag of a layer a toggle flips.
#[derive(Clone, Copy, Debug, PartialEq, Eq, Structural)]
pub enum LayerFlag {
    /// Shown or hidden.
    Visible,
    /// Locked against edits or not.
    Locked,
}

/// `m` with `flag` flipped.
pub open spec fn flipped(m: LayerMeta, flag: LayerFlag) -> LayerMeta {
    match flag {
        LayerFlag::Visible => LayerMeta { visible: !m.visible, ..m },
        LayerFlag::Locked => LayerMeta { locked: !m.locked, ..m },
    }
}

/// Flips `flag` of the active layer of a map of `map_layers` layers. The
/// active layer is first brought inside the map's layers (at least one); a
/// layer without metadata is left alone.
pub fn toggle_layer_flag(metas: &mut Vec<LayerMeta>, active: &mut u32, map_layers: u32, flag: LayerFlag)
    ensures
        *final(active) == shown_layer(*old(active), map_layers),
        ({
            let a = shown_layer(*old(active), map_layers) as int;
            if a < old(metas)@.len() {
                final(metas)@ == old(metas)@.update(a, flipped(old(metas)@[a], flag))
            } else {
                final(metas)@ == old(metas)@
            }
        }),
{
    let total: u32 = if map_layers == 0 { 1 } else { map_layers };
    let a: u32 = if *active < total - 1 { *active } else { total - 1 };
    *active = a;
    let i = a as usize;
    if i < metas.len() {
        let m = metas.remove(i);
        let m2 = match flag {
            LayerFlag::Visible => LayerMeta { name: m.name, visible: !m.visible, locked: m.locked },
            LayerFlag::Locked => LayerMeta { name: m.name, visible: m.visible, locked: !m.locked },
        };
        metas.insert(i, m2);
        proof {
            assert(metas@ =~= old(metas)@.update(i as int, flipped(old(metas)@[i as int], flag)));
        }
    }
}

/// The metadata a layer gets when none was kept for it: named `Layer n`
/// (counting from 1), shown and unlocked.
pub open spec fn default_meta_view(k: int) -> (Seq<char>, bool, bool) {
    ("Layer "@ + decimal((k + 1) as nat), true, false)
}

/// Gives every one of `layers` layers metadata: the kept entries stay as they
/// are and missing ones get the default metadata.
pub fn pad_layer_metas(metas: &mut Vec<LayerMeta>, layers: u32)
    ensures
        final(metas)@.len() == if old(metas)@.len() >= layers { old(metas)@.len() } else { layers as nat },
        final(metas)@.subrange(0, old(metas)@.len() as int) == old(metas)@,
        forall|k: int|
            old(metas)@.len() <= k < final(metas)@.len() ==> #[trigger] final(metas)@[k]@ == default_meta_view(k),
{
    let ghost start = metas@;
    while metas.len() < layers as usize
        invariant
            start.len() <= metas@.len(),
            metas@.len() <= if start.len() >= layers { start.len() } else { layers as nat },
            metas@.subrange(0, start.len() as int) == start,
            forall|k: int| start.len() <= k < metas@.len() ==> #[trigger] metas@[k]@ == default_meta_view(k),
        decreases layers - metas@.len(),
    {
        let k = metas.len();
        let mut v = chars_of("Layer ");
        let d = decimal_chars((k + 1) as u32);
        append(&mut v, d.as_slice());
        metas.push(LayerMeta { name: string_from(v.as_slice()), visible: true, locked: false });
        proof {
            assert(metas@.subrange(0, start.len() as int) =~= start);
        }
    }
}

/// The name shown for the active layer of a map of `map_layers` layers (the
/// active layer brought inside them): its metadata's name, else `Layer`.
pub fn active_layer_name(active: u32, map_layers: u32, metas: &Vec<LayerMeta>) -> (r: String)
    ensures
        r@ == meta_name(metas@, shown_layer(active, map_layers) as int),
{
    let total: u32 = if map_layers == 0 { 1 } else { map_layers };
    let a: u32 = if active < total - 1 { active } else { total - 1 };
    let i = a as usize;
    if i < metas.len() {
        metas[i].name.clone()
    } else {
        string_from(chars_of("Layer").as_slice())
    }
}

/// Renames the active layer of a map of `map_layers` layers (the active
/// layer brought inside them) from the name field's text: the trimmed text,
/// or `Layer n` when it is blank. A layer without metadata is left alone.
pub fn rename_active_layer(metas: &mut Vec<LayerMeta>, active: u32, map_layers: u32, buf: &str)
    ensures
        ({
            let a = shown_layer(active, map_layers);
            if (a as int) < old(metas)@.len() {
                let m = old(metas)@[a as int];
                final(metas)@.len() == old(metas)@.len() && meta_views(final(metas)@) == meta_views(old(metas)@).update(
                    a as int,
                    (layer_name_for(buf@, a), m.visible, m.locked),
                )
            } else {
                final(metas)@ == old(metas)@
            }
        }),
{
    let total: u32 = if map_layers == 0 { 1 } else { map_layers };
    let a: u32 = if active < total - 1 { active } else { total - 1 };
    let i = a as usize;
    if i < metas.len() {
        let name = resolved_layer_name(buf, a);
        let m = metas.remove(i);
        metas.insert(i, LayerMeta { name, visible: m.visible, locked: m.locked });
        proof {
            assert(meta_views(metas@) =~= meta_views(old(metas)@).update(
                i as int,
                (layer_name_for(buf@, a), m.visible, m.locked),
            ));
        }
    }
}

} // verus!

verus! {

/// Flipping the same flag twice gives the layer back.
pub proof fn lemma_flag_toggle_twice(m: LayerMeta, flag: LayerFlag)
    ensures
        flipped(flipped(m, flag), flag) == m,
{
}

} // verus!
