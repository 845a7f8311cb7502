//! The layered tile grid: `layers` layers of `width` by `height` cells,
//! stored flat, layer after layer, each layer row by row.
use vstd::prelude::*;

use crate::arith::{
    lemma_block_before, lemma_block_within, lemma_cell_in_layer, lemma_mul_mono,
    lemma_mul_nonneg,
};
use crate::tile::{copy_cell, TileRef};

verus! {

/// Number of layers that a new map gets.
pub const DEFAULT_LAYER_COUNT: u32 = 2;

/// Layer count assumed for stored maps that do not say how many layers they have.
pub fn default_layers() -> (r: u32)
    ensures
        r == 1,
{
    1
}

/// A tile map: `tiles` holds layer 0, then layer 1, and so on; inside a
/// layer, the cell `(x, y)` sits at `y * width + x`.
#[derive(Debug)]
pub struct TileMapData {
    pub width: u32,
    pub height: u32,
    pub layers: u32,
    pub tiles: Vec<Option<TileRef>>,
}

/// `max(a, b)` on integers.
pub open spec fn max_int(a: int, b: int) -> int {
    if a >= b {
        a
    } else {
        b
    }
}

/// `min(a, b)` on integers.
pub open spec fn min_int(a: int, b: int) -> int {
    if a <= b {
        a
    } else {
        b
    }
}

impl TileMapData {
    /// Number of cells in one layer.
    pub open spec fn cells_per_layer(self) -> int {
        self.width * self.height
    }

    /// Flat position of cell `(x, y)` of layer `layer`.
    pub open spec fn index_of(self, layer: int, x: int, y: int) -> int {
        layer * self.cells_per_layer() + (y * self.width + x)
    }

    /// The map holds exactly `width * height * layers` cells and at least one layer.
    pub open spec fn wf(self) -> bool {
        &&& self.layers >= 1
        &&& self.tiles@.len() == self.cells_per_layer() * self.layers
    }

    /// Cell `(x, y)` of `layer` is stored and holds a tile.
    pub open spec fn occupied(self, layer: int, x: int, y: int) -> bool {
        let i = self.index_of(layer, x, y);
        0 <= i < self.tiles@.len() && self.tiles@[i] is Some
    }

    /// The index computation of `(x, y)` on every layer stays within the machine's integers.
    pub open spec fn indexable(self, x: int, y: int) -> bool {
        &&& self.cells_per_layer() <= u32::MAX
        &&& y * self.width + x <= u32::MAX
        &&& self.layers > 0 ==> self.index_of(self.layers - 1, x, y) <= usize::MAX
    }

    /// A map of `width` by `height` with the default number of layers, all empty.
    pub fn new(width: u32, height: u32) -> (m: Self)
        requires
            width * height * DEFAULT_LAYER_COUNT <= u32::MAX,
        ensures
            m.width == width,
            m.height == height,
            m.layers == DEFAULT_LAYER_COUNT,
            m.wf(),
            forall|i: int| 0 <= i < m.tiles@.len() ==> m.tiles@[i] is None,
    {
        Self::new_with_layers(width, height, DEFAULT_LAYER_COUNT)
    }

    /// A map of `width` by `height` with `max(layers, 1)` empty layers.
    pub fn new_with_layers(width: u32, height: u32, layers: u32) -> (m: Self)
        requires
            width * height * max_int(layers as int, 1) <= u32::MAX,
        ensures
            m.width == width,
            m.height == height,
            m.layers == max_int(layers as int, 1),
            m.wf(),
            forall|i: int| 0 <= i < m.tiles@.len() ==> m.tiles@[i] is None,
    {
        let layers: u32 = if layers >= 1 { layers } else { 1 };
        proof {
            lemma_mul_nonneg(width as int, height as int);
            assert(width * height <= width * height * layers) by (nonlinear_arith)
                requires
                    layers >= 1,
                    width * height >= 0,
            ;
        }
        let n: u32 = width * height * layers;
        let mut tiles: Vec<Option<TileRef>> = Vec::new();
        let mut i: u32 = 0;
        while i < n
            invariant
                i <= n,
                tiles@.len() == i,
                forall|j: int| 0 <= j < i ==> tiles@[j] is None,
            decreases n - i,
        {
            tiles.push(None);
            i = i + 1;
        }
        TileMapData { width, height, layers, tiles }
    }

    /// Number of cells in one layer.
    pub fn layer_len(&self) -> (r: usize)
        requires
            self.cells_per_layer() <= u32::MAX,
        ensures
            r == self.cells_per_layer(),
    {
        (self.width * self.height) as usize
    }

    /// Flat position of cell `(x, y)` of `layer`.
    pub fn idx_layer(&self, layer: u32, x: u32, y: u32) -> (r: usize)
        requires
            self.cells_per_layer() <= u32::MAX,
            y * self.width + x <= u32::MAX,
            self.index_of(layer as int, x as int, y as int) <= usize::MAX,
        ensures
            r == self.index_of(layer as int, x as int, y as int),
    {
        let ll = self.layer_len();
        proof {
            lemma_mul_nonneg(layer as int, ll as int);
            lemma_mul_nonneg(y as int, self.width as int);
        }
        (layer as usize) * ll + (y * self.width + x) as usize
    }

    /// Flat position of cell `(x, y)` of layer 0.
    pub fn idx(&self, x: u32, y: u32) -> (r: usize)
        requires
            self.cells_per_layer() <= u32::MAX,
            y * self.width + x <= u32::MAX,
        ensures
            r == self.index_of(0, x as int, y as int),
            r == y * self.width + x,
    {
        proof {
            lemma_mul_nonneg(y as int, self.width as int);
        }
        self.idx_layer(0, x, y)
    }

    /// Grows the map to at least `max(layers, 1)` layers: the stored cells
    /// stay where they are and the new layers are empty. A map that already
    /// has that many layers is left unchanged.
    pub fn ensure_layers(&mut self, layers: u32)
        requires
            old(self).layers < max_int(layers as int, 1) ==> {
                &&& old(self).cells_per_layer() <= u32::MAX
                &&& old(self).cells_per_layer() * max_int(layers as int, 1) <= usize::MAX
            },
        ensures
            final(self).width == old(self).width,
            final(self).height == old(self).height,
            old(self).layers >= max_int(layers as int, 1) ==> *final(self) == *old(self),
            old(self).layers < max_int(layers as int, 1) ==> {
                let n = old(self).cells_per_layer() * max_int(layers as int, 1);
                &&& final(self).layers == max_int(layers as int, 1)
                &&& final(self).tiles@.len() == n
                &&& forall|i: int|
                    0 <= i < n ==> #[trigger] final(self).tiles@[i] == if i < old(
                        self,
                    ).tiles@.len() {
                        old(self).tiles@[i]
                    } else {
                        None
                    }
            },
    {
        let layers: u32 = if layers >= 1 { layers } else { 1 };
        if self.layers >= layers {
            return;
        }
        let len = self.layer_len();
        proof {
            lemma_mul_nonneg(len as int, layers as int);
        }
        let n: usize = len * (layers as usize);
        let ghost before = self.tiles@;
        self.tiles.truncate(n);
        while self.tiles.len() < n
            invariant
                self.width == old(self).width,
                self.height == old(self).height,
                self.tiles@.len() <= n,
                n <= before.len() ==> self.tiles@ == before.subrange(0, n as int),
                n > before.len() ==> {
                    &&& self.tiles@.len() >= before.len()
                    &&& forall|i: int|
                        0 <= i < self.tiles@.len() ==> #[trigger] self.tiles@[i] == if i
                            < before.len() {
                            before[i]
                        } else {
                            None
                        }
                },
            decreases n - self.tiles@.len(),
        {
            self.tiles.push(None);
        }
        self.layers = layers;
    }

    /// The highest layer whose cell `(x, y)` is stored and holds a tile.
    pub fn topmost_layer_at(&self, x: u32, y: u32) -> (r: Option<u32>)
        requires
            self.indexable(x as int, y as int),
        ensures
            match r {
                Some(l) => {
                    &&& l < self.layers
                    &&& self.occupied(l as int, x as int, y as int)
                    &&& forall|k: int|
                        l < k < self.layers ==> !#[trigger] self.occupied(k, x as int, y as int)
                },
                None => forall|k: int|
                    0 <= k < self.layers ==> !#[trigger] self.occupied(k, x as int, y as int),
            },
    {
        if self.layers == 0 {
            return None;
        }
        let mut layer: u32 = self.layers;
        while layer > 0
            invariant
                layer <= self.layers,
                self.indexable(x as int, y as int),
                self.layers > 0,
                forall|k: int|
                    layer <= k < self.layers ==> !#[trigger] self.occupied(k, x as int, y as int),
            decreases layer,
        {
            layer = layer - 1;
            proof {
                lemma_mul_mono(layer as int, self.layers - 1, self.cells_per_layer());
            }
            let idx = self.idx_layer(layer, x, y);
            if idx < self.tiles.len() {
                if self.tiles[idx].is_some() {
                    return Some(layer);
                }
            }
        }
        None
    }

    /// Flat position of the topmost stored tile at `(x, y)`, if any.
    pub fn topmost_idx_at(&self, x: u32, y: u32) -> (r: Option<usize>)
        requires
            self.indexable(x as int, y as int),
        ensures
            match r {
                Some(i) => exists|l: u32|
                    {
                        &&& l < self.layers
                        &&& i == self.index_of(l as int, x as int, y as int)
                        &&& self.occupied(l as int, x as int, y as int)
                        &&& forall|k: int|
                            l < k < self.layers ==> !#[trigger] self.occupied(
                                k,
                                x as int,
                                y as int,
                            )
                    },
                None => forall|k: int|
                    0 <= k < self.layers ==> !#[trigger] self.occupied(k, x as int, y as int),
            },
    {
        let layer = self.topmost_layer_at(x, y)?;
        proof {
            lemma_mul_mono(layer as int, self.layers - 1, self.cells_per_layer());
        }
        Some(self.idx_layer(layer, x, y))
    }
}

} // verus!

verus! {

/// How many layers a resize carries over from `prev` to a new `width` by
/// `height` map: none when the overlap of the two sizes is empty, else the
/// smallest of the old layer count, the new one and the number of whole
/// layers that the old cell vector holds, but at least one; an old vector too
/// short for a whole layer carries nothing.
pub open spec fn carried_layers(prev: TileMapData, width: u32, height: u32) -> int {
    let copy_w = min_int(prev.width as int, width as int);
    let copy_h = min_int(prev.height as int, height as int);
    if copy_w == 0 || copy_h == 0 || prev.cells_per_layer() == 0 || width * height == 0 {
        0
    } else {
        let by_len = ((prev.tiles@.len() as int / prev.cells_per_layer()) as u32) as int;
        if by_len == 0 {
            0
        } else {
            max_int(
                min_int(min_int(min_int(prev.layers as int, DEFAULT_LAYER_COUNT as int), by_len), DEFAULT_LAYER_COUNT as int),
                1,
            )
        }
    }
}

/// The content of cell `(x, y)` of `layer` after resizing `prev` to `width` by `height`.
pub open spec fn resized_cell(
    prev: Option<TileMapData>,
    width: u32,
    height: u32,
    layer: int,
    x: int,
    y: int,
) -> Option<TileRef> {
    match prev {
        None => None,
        Some(p) => if layer < carried_layers(p, width, height) && x < p.width && y < p.height {
            p.tiles@[p.index_of(layer, x, y)]
        } else {
            None
        },
    }
}

/// The map behind an optional reference.
pub open spec fn deref_map(prev: Option<&TileMapData>) -> Option<TileMapData> {
    match prev {
        Some(p) => Some(*p),
        None => None,
    }
}

/// Resizing may run: the new map's size and the old map's layer size fit.
pub open spec fn resize_ok(prev: Option<TileMapData>, width: u32, height: u32) -> bool {
    &&& width * height * DEFAULT_LAYER_COUNT <= u32::MAX
    &&& prev matches Some(p) ==> p.cells_per_layer() <= u32::MAX
}

/// Cell `(x, y)` of `layer` in the flat sequence `s` holds what the resize puts there.
pub open spec fn placed(
    s: Seq<Option<TileRef>>,
    prev: Option<TileMapData>,
    width: u32,
    height: u32,
    layer: int,
    x: int,
    y: int,
) -> bool {
    s[layer * (width * height) + (y * width + x)] == resized_cell(prev, width, height, layer, x, y)
}

/// A new empty `width` by `height` map with the default layer count, into
/// which the overlap of `prev` is copied: cells inside both sizes, on the
/// carried-over layers, keep their tile; all others are empty.
pub fn resized_map_copy(prev: Option<&TileMapData>, width: u32, height: u32) -> (m: TileMapData)
    requires
        resize_ok(deref_map(prev), width, height),
    ensures
        m.width == width,
        m.height == height,
        m.layers == DEFAULT_LAYER_COUNT,
        m.wf(),
        forall|l: int, x: int, y: int|
            0 <= l < DEFAULT_LAYER_COUNT && 0 <= x < width && 0 <= y < height ==> #[trigger] m.tiles@[m.index_of(l, x, y)]
                == resized_cell(deref_map(prev), width, height, l, x, y),
{
    let ghost pm = deref_map(prev);
    let mut new_map = TileMapData::new(width, height);
    let new_ll = new_map.layer_len();
    let ghost nll = new_ll as int;
    // What the resize copies; zero layers when nothing is carried over.
    let mut layers_to_copy: u32 = 0;
    let mut copy_w: u32 = 0;
    let mut copy_h: u32 = 0;
    let mut old_ll: usize = 0;
    let mut old_w: usize = 0;
    if let Some(p) = prev {
        copy_w = if p.width <= width { p.width } else { width };
        copy_h = if p.height <= height { p.height } else { height };
        old_ll = p.layer_len();
        old_w = p.width as usize;
        if copy_w > 0 && copy_h > 0 {
            if old_ll > 0 && new_ll > 0 {
                let q: usize = p.tiles.len() / old_ll;
                let max_old: u32 = q as u32;
                proof {
                    assert(max_old as usize <= q) by (bit_vector)
                        requires
                            max_old == q as u32,
                    ;
                }
                let qn: usize = new_map.tiles.len() / new_ll;
                proof {
                    assert(qn == 2) by (nonlinear_arith)
                        requires
                            qn == new_map.tiles@.len() as int / (new_ll as int),
                            new_map.tiles@.len() == (new_ll as int) * 2,
                            new_ll > 0,
                    ;
                }
                let max_new: u32 = qn as u32;
                let mut lc: u32 = if p.layers <= new_map.layers { p.layers } else { new_map.layers };
                if max_old < lc {
                    lc = max_old;
                }
                if max_new < lc {
                    lc = max_new;
                }
                if lc < 1 && max_old >= 1 {
                    lc = 1;
                }
                layers_to_copy = lc;
                assert(layers_to_copy as int <= p.tiles@.len() as int / (old_ll as int));
            }
        }
    }
    assert(layers_to_copy == match pm { Some(p) => carried_layers(p, width, height), None => 0 });
    let mut tiles: Vec<Option<TileRef>> = Vec::new();
    let mut l: u32 = 0;
    while l < DEFAULT_LAYER_COUNT
        invariant
            0 <= l <= DEFAULT_LAYER_COUNT,
            nll == width * height,
            new_ll == nll,
            nll * DEFAULT_LAYER_COUNT <= u32::MAX,
            resize_ok(pm, width, height),
            pm == deref_map(prev),
            layers_to_copy == match pm { Some(p) => carried_layers(p, width, height), None => 0 },
            prev is Some ==> copy_w == min_int(pm.unwrap().width as int, width as int),
            prev is Some ==> copy_h == min_int(pm.unwrap().height as int, height as int),
            prev is Some ==> old_ll == pm.unwrap().cells_per_layer(),
            prev is Some ==> old_w == pm.unwrap().width,
            prev is Some && layers_to_copy > 0 ==> old_ll > 0 && layers_to_copy as int <= pm.unwrap().tiles@.len() as int / (old_ll as int),
            tiles@.len() == l * nll,
            forall|l2: int, x2: int, y2: int|
                0 <= l2 < l && 0 <= x2 < width && 0 <= y2 < height ==> #[trigger] placed(
                    tiles@,
                    pm,
                    width,
                    height,
                    l2,
                    x2,
                    y2,
                ),
        decreases DEFAULT_LAYER_COUNT - l,
    {
        let mut y: u32 = 0;
        while y < height
            invariant
                0 <= l < DEFAULT_LAYER_COUNT,
                0 <= y <= height,
                nll == width * height,
                new_ll == nll,
                nll * DEFAULT_LAYER_COUNT <= u32::MAX,
                resize_ok(pm, width, height),
                pm == deref_map(prev),
                layers_to_copy == match pm { Some(p) => carried_layers(p, width, height), None => 0 },
                prev is Some ==> copy_w == min_int(pm.unwrap().width as int, width as int),
                prev is Some ==> copy_h == min_int(pm.unwrap().height as int, height as int),
                prev is Some ==> old_ll == pm.unwrap().cells_per_layer(),
                prev is Some ==> old_w == pm.unwrap().width,
            prev is Some && layers_to_copy > 0 ==> old_ll > 0 && layers_to_copy as int <= pm.unwrap().tiles@.len() as int / (old_ll as int),
                tiles@.len() == l * nll + y * width,
                forall|l2: int, x2: int, y2: int|
                    0 <= l2 < l && 0 <= x2 < width && 0 <= y2 < height ==> #[trigger] placed(
                        tiles@,
                        pm,
                        width,
                        height,
                        l2,
                        x2,
                        y2,
                    ),
                forall|x2: int, y2: int|
                    0 <= x2 < width && 0 <= y2 < y ==> #[trigger] placed(
                        tiles@,
                        pm,
                        width,
                        height,
                        l as int,
                        x2,
                        y2,
                    ),
            decreases height - y,
        {
            let mut x: u32 = 0;
            while x < width
                invariant
                    0 <= l < DEFAULT_LAYER_COUNT,
                    0 <= y < height,
                    0 <= x <= width,
                    nll == width * height,
                    new_ll == nll,
                    nll * DEFAULT_LAYER_COUNT <= u32::MAX,
                    resize_ok(pm, width, height),
                    pm == deref_map(prev),
                    layers_to_copy == match pm { Some(p) => carried_layers(p, width, height), None => 0 },
                    prev is Some ==> copy_w == min_int(pm.unwrap().width as int, width as int),
                    prev is Some ==> copy_h == min_int(pm.unwrap().height as int, height as int),
                    prev is Some ==> old_ll == pm.unwrap().cells_per_layer(),
                    prev is Some ==> old_w == pm.unwrap().width,
            prev is Some && layers_to_copy > 0 ==> old_ll > 0 && layers_to_copy as int <= pm.unwrap().tiles@.len() as int / (old_ll as int),
                    tiles@.len() == l * nll + y * width + x,
                    forall|l2: int, x2: int, y2: int|
                        0 <= l2 < l && 0 <= x2 < width && 0 <= y2 < height ==> #[trigger] placed(
                            tiles@,
                            pm,
                            width,
                            height,
                            l2,
                            x2,
                            y2,
                        ),
                    forall|x2: int, y2: int|
                        0 <= x2 < width && 0 <= y2 < y ==> #[trigger] placed(
                            tiles@,
                            pm,
                            width,
                            height,
                            l as int,
                            x2,
                            y2,
                        ),
                    forall|x2: int|
                        0 <= x2 < x ==> #[trigger] placed(
                            tiles@,
                            pm,
                            width,
                            height,
                            l as int,
                            x2,
                            y as int,
                        ),
                decreases width - x,
            {
                let cell: Option<TileRef> = match prev {
                    Some(p) => {
                        if l < layers_to_copy && x < copy_w && y < copy_h {
                            proof {
                                let pp = pm.unwrap();
                                lemma_block_within(l as int, old_ll as int, pp.tiles@.len() as int);
                                lemma_cell_in_layer(x as int, y as int, pp.width as int, pp.height as int);
                                lemma_mul_nonneg(l as int, old_ll as int);
                                lemma_mul_nonneg(y as int, old_w as int);
                                assert(l * old_ll + old_ll <= pp.tiles@.len());
                                assert(y * old_w + x < old_ll);
                                assert(pp.tiles@.len() == p.tiles.len());
                            }
                            let k: usize = (l as usize) * old_ll + (y as usize) * old_w + (x as usize);
                            copy_cell(&p.tiles[k])
                        } else {
                            None
                        }
                    },
                    None => None,
                };
                let ghost before = tiles@;
                proof {
                    lemma_cell_in_layer(x as int, y as int, width as int, height as int);
                    lemma_mul_nonneg(l as int, nll);
                }
                tiles.push(cell);
                proof {
                    assert(placed(tiles@, pm, width, height, l as int, x as int, y as int));
                    assert forall|l2: int, x2: int, y2: int|
                        0 <= l2 < l && 0 <= x2 < width && 0 <= y2 < height implies #[trigger] placed(
                            tiles@,
                            pm,
                            width,
                            height,
                            l2,
                            x2,
                            y2,
                        ) by {
                        assert(placed(before, pm, width, height, l2, x2, y2));
                        lemma_cell_in_layer(x2, y2, width as int, height as int);
                        lemma_block_before(l2, l as int, nll, y2 * width + x2);
                    }
                    assert forall|x2: int, y2: int|
                        0 <= x2 < width && 0 <= y2 < y implies #[trigger] placed(
                            tiles@,
                            pm,
                            width,
                            height,
                            l as int,
                            x2,
                            y2,
                        ) by {
                        assert(placed(before, pm, width, height, l as int, x2, y2));
                        lemma_block_before(y2, y as int, width as int, x2);
                    }
                    assert forall|x2: int|
                        0 <= x2 < x + 1 implies #[trigger] placed(
                            tiles@,
                            pm,
                            width,
                            height,
                            l as int,
                            x2,
                            y as int,
                        ) by {
                        if x2 < x {
                            assert(placed(before, pm, width, height, l as int, x2, y as int));
                        }
                    }
                }
                x = x + 1;
            }
            proof {
                assert forall|x2: int, y2: int|
                    0 <= x2 < width && 0 <= y2 < y + 1 implies #[trigger] placed(
                        tiles@,
                        pm,
                        width,
                        height,
                        l as int,
                        x2,
                        y2,
                    ) by {
                    if y2 == y {
                        assert(placed(tiles@, pm, width, height, l as int, x2, y as int));
                    }
                }
                assert((y + 1) * width == y * width + width) by (nonlinear_arith);
            }
            y = y + 1;
        }
        proof {
            assert forall|l2: int, x2: int, y2: int|
                0 <= l2 < l + 1 && 0 <= x2 < width && 0 <= y2 < height implies #[trigger] placed(
                    tiles@,
                    pm,
                    width,
                    height,
                    l2,
                    x2,
                    y2,
                ) by {
                if l2 == l {
                    assert(placed(tiles@, pm, width, height, l as int, x2, y2));
                }
            }
            assert(height * width == width * height) by (nonlinear_arith);
            assert((l + 1) * nll == l * nll + nll) by (nonlinear_arith);
        }
        l = l + 1;
    }
    new_map.tiles = tiles;
    proof {
        assert(2 * nll == nll * 2) by (nonlinear_arith);
        assert forall|l2: int, x2: int, y2: int|
            0 <= l2 < DEFAULT_LAYER_COUNT && 0 <= x2 < width && 0 <= y2 < height implies #[trigger] new_map.tiles@[new_map.index_of(l2, x2, y2)]
                == resized_cell(pm, width, height, l2, x2, y2) by {
            assert(placed(tiles@, pm, width, height, l2, x2, y2));
        }
    }
    new_map
}

} // verus!

verus! {

/// Inside a well-formed map, every cell of every layer has its own position
/// in the tile vector: positions stay inside the vector, and different
/// cells get different positions.
pub proof fn lemma_cell_positions(m: TileMapData, l1: int, x1: int, y1: int, l2: int, x2: int, y2: int)
    requires
        m.wf(),
        0 <= l1 < m.layers && 0 <= x1 < m.width && 0 <= y1 < m.height,
        0 <= l2 < m.layers && 0 <= x2 < m.width && 0 <= y2 < m.height,
    ensures
        0 <= m.index_of(l1, x1, y1) < m.tiles@.len(),
        (l1, x1, y1) != (l2, x2, y2) ==> m.index_of(l1, x1, y1) != m.index_of(l2, x2, y2),
{
    let n = m.cells_per_layer();
    let w = m.width as int;
    lemma_cell_in_layer(x1, y1, w, m.height as int);
    lemma_cell_in_layer(x2, y2, w, m.height as int);
    lemma_block_before(l1, m.layers as int, n, y1 * w + x1);
    assert(n * m.layers == m.layers * n) by (nonlinear_arith);
    if l1 < l2 {
        lemma_block_before(l1, l2, n, y1 * w + x1);
        lemma_mul_nonneg(l2, n);
        lemma_mul_nonneg(y2, w);
    } else if l2 < l1 {
        lemma_block_before(l2, l1, n, y2 * w + x2);
        lemma_mul_nonneg(l1, n);
        lemma_mul_nonneg(y1, w);
    } else if y1 < y2 {
        lemma_block_before(y1, y2, w, x1);
    } else if y2 < y1 {
        lemma_block_before(y2, y1, w, x2);
    }
}

/// The map that a size change asks for: nothing for a zero width or
/// height, else `prev` resized to the new size (see `resized_map_copy`).
pub fn map_for_size(prev: Option<&TileMapData>, width: u32, height: u32) -> (r: Option<TileMapData>)
    requires
        width > 0 && height > 0 ==> resize_ok(deref_map(prev), width, height),
    ensures
        width == 0 || height == 0 ==> r is None,
        width > 0 && height > 0 ==> (r matches Some(m) && {
            &&& m.width == width
            &&& m.height == height
            &&& m.layers == DEFAULT_LAYER_COUNT
            &&& m.wf()
            &&& forall|l: int, x: int, y: int|
                0 <= l < DEFAULT_LAYER_COUNT && 0 <= x < width && 0 <= y < height ==> #[trigger] m.tiles@[m.index_of(l, x, y)]
                    == resized_cell(deref_map(prev), width, height, l, x, y)
        }),
{
    if width == 0 || height == 0 {
        return None;
    }
    Some(resized_map_copy(prev, width, height))
}

} // verus!

verus! {

impl Clone for TileMapData {
    fn clone(&self) -> (r: Self)
        ensures
            r.width == self.width,
            r.height == self.height,
            r.layers == self.layers,
            r.tiles@ == self.tiles@,
    {
        let mut tiles: Vec<Option<TileRef>> = Vec::new();
        let mut i: usize = 0;
        while i < self.tiles.len()
            invariant
                i <= self.tiles@.len(),
                tiles@ == self.tiles@.take(i as int),
            decreases self.tiles@.len() - i,
        {
            tiles.push(copy_cell(&self.tiles[i]));
            proof {
                assert(self.tiles@.take(i + 1) == self.tiles@.take(i as int).push(self.tiles@[i as int]));
            }
            i = i + 1;
        }
        proof {
            assert(self.tiles@.take(self.tiles@.len() as int) == self.tiles@);
        }
        TileMapData { width: self.width, height: self.height, layers: self.layers, tiles }
    }
}

} // verus!
