//! Index of the renderer's tilemap entities: for each tileset, one entity
//! per map layer. Entities are held by their 64-bit ids; an empty slot
//! (`None`) stands for "no entity yet".
use vstd::prelude::*;

verus! {

/// The entity slots of one tileset, one per layer.
#[derive(Debug)]
pub struct TilesetSlots {
    pub tileset_id: String,
    pub layers: Vec<Option<u64>>,
}

/// Tilemap entities of a `width` by `height` map with `layers` layers.
#[derive(Debug)]
pub struct TileEntities {
    pub width: u32,
    pub height: u32,
    pub layers: u32,
    /// Slots per tileset; no tileset id occurs twice.
    pub tilemaps: Vec<TilesetSlots>,
    /// Tilesets in the order they were first drawn (gives a stable z order).
    pub tileset_order: Vec<String>,
}

/// Position of the first slot list of tileset `id`, or the length when there is none.
pub open spec fn find_slots(s: Seq<TilesetSlots>, id: Seq<char>) -> int
    decreases s.len(),
{
    if s.len() == 0 {
        0
    } else if s[0].tileset_id@ == id {
        0
    } else {
        1 + find_slots(s.drop_first(), id)
    }
}

/// `find_slots` finds the only list with that id, if any.
pub proof fn lemma_find_slots(s: Seq<TilesetSlots>, id: Seq<char>)
    ensures
        0 <= find_slots(s, id) <= s.len(),
        find_slots(s, id) < s.len() ==> s[find_slots(s, id)].tileset_id@ == id,
        forall|k: int| 0 <= k < find_slots(s, id) ==> s[k].tileset_id@ != id,
    decreases s.len(),
{
    if s.len() > 0 && s[0].tileset_id@ != id {
        lemma_find_slots(s.drop_first(), id);
        assert forall|k: int| 0 <= k < find_slots(s, id) implies s[k].tileset_id@ != id by {
            if k > 0 {
                assert(s[k] == s.drop_first()[k - 1]);
            }
        }
    }
}

/// The ids of the slot lists of `s` are all different.
pub open spec fn distinct_ids(s: Seq<TilesetSlots>) -> bool {
    forall|i: int, j: int| 0 <= i < s.len() && 0 <= j < s.len() && i != j ==> s[i].tileset_id@ != s[j].tileset_id@
}

/// A sequence of `n` empty slots.
pub open spec fn empty_slots(n: nat) -> Seq<Option<u64>> {
    Seq::new(n, |i: int| None::<u64>)
}

/// The slots of tileset `id` after setting the slot of `layer` to `entity`
/// in a map of `layers` layers (at least 1): a missing list starts empty,
/// a short list is padded with empty slots.
pub open spec fn slots_after_set(old_slots: Option<Seq<Option<u64>>>, layers: u32, layer: u32, entity: u64) -> Seq<Option<u64>> {
    let n: nat = if layers == 0 {
        1
    } else {
        layers as nat
    };
    let base = match old_slots {
        Some(l) => l,
        None => empty_slots(n),
    };
    let padded = if base.len() < n {
        base + empty_slots((n - base.len()) as nat)
    } else {
        base
    };
    if layer < padded.len() {
        padded.update(layer as int, Some(entity))
    } else {
        padded
    }
}

/// The entities in a list of slots, skipping empty ones.
pub open spec fn present(s: Seq<Option<u64>>) -> Seq<u64>
    decreases s.len(),
{
    if s.len() == 0 {
        Seq::empty()
    } else {
        match s.last() {
            Some(e) => present(s.drop_last()).push(e),
            None => present(s.drop_last()),
        }
    }
}

/// All entities of all slot lists, list by list.
pub open spec fn present_all(s: Seq<TilesetSlots>) -> Seq<u64>
    decreases s.len(),
{
    if s.len() == 0 {
        Seq::empty()
    } else {
        present_all(s.drop_last()) + present(s.last().layers@)
    }
}

/// The position of tileset `id` in the draw order, or the length when it is absent.
pub open spec fn find_in_order(s: Seq<String>, id: Seq<char>) -> int
    decreases s.len(),
{
    if s.len() == 0 {
        0
    } else if s[0]@ == id {
        0
    } else {
        1 + find_in_order(s.drop_first(), id)
    }
}

impl TileEntities {
    /// The slot lists have distinct ids.
    pub open spec fn wf(&self) -> bool {
        distinct_ids(self.tilemaps@)
    }

    /// The slots of tileset `id`, if it has any.
    pub open spec fn slots_of(&self, id: Seq<char>) -> Option<Seq<Option<u64>>> {
        let k = find_slots(self.tilemaps@, id);
        if k < self.tilemaps@.len() {
            Some(self.tilemaps@[k].layers@)
        } else {
            None
        }
    }

    /// An index for a `width` by `height` map with `max(layers, 1)` layers and no entities.
    pub fn new(width: u32, height: u32, layers: u32) -> (r: Self)
        ensures
            r.wf(),
            r.width == width,
            r.height == height,
            r.layers == if layers == 0 {
                1
            } else {
                layers
            },
            r.tilemaps@.len() == 0,
            r.tileset_order@.len() == 0,
    {
        TileEntities {
            width,
            height,
            layers: if layers == 0 { 1 } else { layers },
            tilemaps: Vec::new(),
            tileset_order: Vec::new(),
        }
    }

    fn position(&self, id: &String) -> (r: usize)
        ensures
            r == find_slots(self.tilemaps@, id@),
            r <= self.tilemaps@.len(),
    {
        let ghost s = self.tilemaps@;
        let mut i: usize = 0;
        proof {
            assert(s.subrange(0, s.len() as int) == s);
        }
        while i < self.tilemaps.len()
            invariant
                i <= s.len(),
                s == self.tilemaps@,
                find_slots(s, id@) == i + find_slots(s.subrange(i as int, s.len() as int), id@),
            decreases s.len() - i,
        {
            if self.tilemaps[i].tileset_id == *id {
                return i;
            }
            proof {
                assert(s.subrange(i as int, s.len() as int).drop_first() == s.subrange(i + 1, s.len() as int));
            }
            i = i + 1;
        }
        i
    }

    /// The entity of tileset `id` on `layer`, if one was set.
    pub fn layer_entity(&self, id: &String, layer: u32) -> (r: Option<u64>)
        ensures
            r == match self.slots_of(id@) {
                Some(l) => if layer < l.len() {
                    l[layer as int]
                } else {
                    None
                },
                None => None,
            },
    {
        let k = self.position(id);
        if k >= self.tilemaps.len() {
            return None;
        }
        let list = &self.tilemaps[k].layers;
        if (layer as usize) < list.len() {
            list[layer as usize]
        } else {
            None
        }
    }

    /// Records `entity` as the entity of tileset `id` on `layer`.
    pub fn set_layer_entity(&mut self, id: String, layer: u32, entity: u64)
        requires
            old(self).wf(),
        ensures
            final(self).wf(),
            final(self).width == old(self).width,
            final(self).height == old(self).height,
            final(self).layers == old(self).layers,
            final(self).tileset_order == old(self).tileset_order,
            final(self).slots_of(id@) == Some(slots_after_set(old(self).slots_of(id@), old(self).layers, layer, entity)),
            forall|other: Seq<char>| other != id@ ==> #[trigger] final(self).slots_of(other) == old(self).slots_of(other),
    {
        let n: usize = if self.layers == 0 { 1 } else { self.layers as usize };
        let ghost s = self.tilemaps@;
        let k = self.position(&id);
        proof {
            lemma_find_slots(s, id@);
        }
        let mut list: Vec<Option<u64>> = if k < self.tilemaps.len() {
            let mut l: Vec<Option<u64>> = Vec::new();
            let src = &self.tilemaps[k].layers;
            let mut i: usize = 0;
            while i < src.len()
                invariant
                    i <= src@.len(),
                    l@ == src@.take(i as int),
                decreases src@.len() - i,
            {
                l.push(src[i]);
                proof {
                    assert(src@.take(i + 1) == src@.take(i as int).push(src@[i as int]));
                }
                i = i + 1;
            }
            proof {
                assert(src@.take(src@.len() as int) == src@);
            }
            l
        } else {
            Vec::new()
        };
        let ghost base = match self.slots_of(id@) {
            Some(l) => l,
            None => empty_slots(n as nat),
        };
        let ghost start = list@;
        proof {
            if k >= self.tilemaps.len() {
                assert(start =~= empty_slots(0));
            }
        }
        while list.len() < n
            invariant
                list@.len() <= if start.len() > n {
                    start.len()
                } else {
                    n as nat
                },
                list@.len() >= start.len(),
                list@.subrange(0, start.len() as int) == start,
                forall|j: int| start.len() <= j < list@.len() ==> list@[j] is None,
            decreases n - list@.len(),
        {
            list.push(None);
        }
        proof {
            let target = slots_after_set(self.slots_of(id@), self.layers, layer, entity);
            if k >= self.tilemaps.len() {
                assert(list@ =~= empty_slots(n as nat));
            } else if start.len() < n {
                assert(list@ =~= start + empty_slots((n - start.len()) as nat));
            } else {
                assert(list@ =~= start);
            }
        }
        if (layer as usize) < list.len() {
            list.set(layer as usize, Some(entity));
        }
        proof {
            assert(list@ == slots_after_set(self.slots_of(id@), self.layers, layer, entity));
        }
        let ghost new_list = list@;
        if k < self.tilemaps.len() {
            let name = self.tilemaps[k].tileset_id.clone();
            self.tilemaps.set(k, TilesetSlots { tileset_id: name, layers: list });
        } else {
            self.tilemaps.push(TilesetSlots { tileset_id: id, layers: list });
        }
        proof {
            let t = self.tilemaps@;
            assert(distinct_ids(t)) by {
                assert forall|i: int, j: int| 0 <= i < t.len() && 0 <= j < t.len() && i != j implies t[i].tileset_id@
                    != t[j].tileset_id@ by {
                    if i < s.len() && j < s.len() {
                        assert(t[i].tileset_id@ == s[i].tileset_id@);
                        assert(t[j].tileset_id@ == s[j].tileset_id@);
                    } else if i >= s.len() {
                        assert(find_slots(s, id@) == s.len());
                    } else {
                        assert(find_slots(s, id@) == s.len());
                    }
                }
            }
            lemma_find_slots(t, id@);
            if k < s.len() {
                assert(t[k as int].tileset_id@ == id@);
                assert(find_slots(t, id@) == k) by {
                    if find_slots(t, id@) < k {
                        assert(t[find_slots(t, id@)].tileset_id@ == s[find_slots(t, id@)].tileset_id@);
                    }
                }
            } else {
                assert(t[s.len() as int].tileset_id@ == id@);
                assert(find_slots(t, id@) == s.len()) by {
                    if find_slots(t, id@) < s.len() {
                        assert(t[find_slots(t, id@)] == s[find_slots(t, id@)]);
                    }
                }
            }
            assert forall|other: Seq<char>| other != id@ implies #[trigger] self.slots_of(other) == old(self).slots_of(other) by {
                lemma_find_slots(s, other);
                lemma_find_slots(t, other);
                let a = find_slots(s, other);
                let b = find_slots(t, other);
                if a < b {
                    if a < s.len() {
                        assert(t[a].tileset_id@ == s[a].tileset_id@);
                    }
                } else if b < a {
                    if b < s.len() {
                        assert(t[b].tileset_id@ == s[b].tileset_id@);
                    } else {
                        assert(t[b].tileset_id@ == id@);
                    }
                }
                if a == b && a < s.len() {
                    assert(a != k) by {
                        if a == k && k < s.len() {
                            assert(s[k as int].tileset_id@ == id@);
                        }
                    }
                    assert(t[a] == s[a]);
                }
                if a == b && a == s.len() && a < t.len() {
                    assert(t[a].tileset_id@ == id@);
                }
            }
        }
    }

    /// The position of tileset `id` in the draw order; an id seen for the
    /// first time is appended.
    pub fn tileset_index(&mut self, id: &String) -> (r: usize)
        ensures
            final(self).width == old(self).width,
            final(self).height == old(self).height,
            final(self).layers == old(self).layers,
            final(self).tilemaps == old(self).tilemaps,
            r == find_in_order(old(self).tileset_order@, id@),
            r < old(self).tileset_order@.len() ==> final(self).tileset_order@ == old(self).tileset_order@,
            r == old(self).tileset_order@.len() ==> final(self).tileset_order@ == old(self).tileset_order@.push(*id),
    {
        let ghost s = self.tileset_order@;
        let mut i: usize = 0;
        proof {
            assert(s.subrange(0, s.len() as int) == s);
        }
        while i < self.tileset_order.len()
            invariant
                i <= s.len(),
                s == self.tileset_order@,
                find_in_order(s, id@) == i + find_in_order(s.subrange(i as int, s.len() as int), id@),
            decreases s.len() - i,
        {
            if self.tileset_order[i] == *id {
                return i;
            }
            proof {
                assert(s.subrange(i as int, s.len() as int).drop_first() == s.subrange(i + 1, s.len() as int));
            }
            i = i + 1;
        }
        self.tileset_order.push(id.clone());
        self.tileset_order.len() - 1
    }

    /// Every recorded entity, slot list by slot list, skipping empty slots.
    pub fn all_tilemap_entities(&self) -> (r: Vec<u64>)
        ensures
            r@ == present_all(self.tilemaps@),
    {
        let ghost s = self.tilemaps@;
        let mut out: Vec<u64> = Vec::new();
        let mut i: usize = 0;
        while i < self.tilemaps.len()
            invariant
                i <= s.len(),
                s == self.tilemaps@,
                out@ == present_all(s.take(i as int)),
            decreases s.len() - i,
        {
            proof {
                assert(s.take(i + 1).drop_last() == s.take(i as int));
            }
            let list = &self.tilemaps[i].layers;
            let ghost before = out@;
            let mut j: usize = 0;
            while j < list.len()
                invariant
                    j <= list@.len(),
                    out@ == before + present(list@.take(j as int)),
                decreases list@.len() - j,
            {
                proof {
                    assert(list@.take(j + 1).drop_last() == list@.take(j as int));
                }
                if let Some(e) = list[j] {
                    out.push(e);
                    proof {
                        assert(out@ =~= before + present(list@.take(j + 1)));
                    }
                } else {
                    proof {
                        assert(out@ =~= before + present(list@.take(j + 1)));
                    }
                }
                j = j + 1;
            }
            proof {
                assert(list@.take(list@.len() as int) == list@);
            }
            i = i + 1;
        }
        proof {
            assert(s.take(s.len() as int) == s);
        }
        out
    }
}

} // verus!
