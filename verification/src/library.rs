//! The tileset library: which tileset images the editor knows, under which
//! stable id, name and category, and which one is active.
use vstd::prelude::*;

use crate::text::{
    blank, chars_eq, chars_lt, chars_of, is_blank, lemma_seq_lt_strict, lemma_seq_lt_total,
    lemma_seq_lt_transitive, lemma_trimmed_idempotent, seq_lt, string_from, trim_chars, trimmed,
};
use crate::tile::TileRef;
use crate::tilemap::TileMapData;

verus! {

/// One known tileset. `asset_path` is relative to the asset root, e.g.
/// `tilesets/foo.png`; an empty path means the image is not known here.
#[derive(Debug)]
pub struct TilesetEntry {
    pub id: String,
    pub name: String,
    pub category: String,
    pub asset_path: String,
}

/// The content of a library entry.
pub struct EntryModel {
    pub id: Seq<char>,
    pub name: Seq<char>,
    pub category: Seq<char>,
    pub asset_path: Seq<char>,
}

impl View for TilesetEntry {
    type V = EntryModel;

    open spec fn view(&self) -> EntryModel {
        EntryModel {
            id: self.id@,
            name: self.name@,
            category: self.category@,
            asset_path: self.asset_path@,
        }
    }
}

impl Clone for TilesetEntry {
    fn clone(&self) -> (r: Self)
        ensures
            r == *self,
    {
        TilesetEntry {
            id: self.id.clone(),
            name: self.name.clone(),
            category: self.category.clone(),
            asset_path: self.asset_path.clone(),
        }
    }
}

/// All known tilesets, the active one, and the category the menu shows
/// (empty for all categories).
#[derive(Debug)]
pub struct TilesetLibrary {
    pub entries: Vec<TilesetEntry>,
    pub active_id: Option<String>,
    pub active_category: String,
}

/// The content of a library.
pub struct LibraryModel {
    pub entries: Seq<EntryModel>,
    pub active_id: Option<Seq<char>>,
    pub active_category: Seq<char>,
}

/// The content of an optional string.
pub open spec fn opt_view(s: Option<String>) -> Option<Seq<char>> {
    match s {
        Some(x) => Some(x@),
        None => None,
    }
}

/// The contents of a sequence of entries.
pub open spec fn entry_models(s: Seq<TilesetEntry>) -> Seq<EntryModel> {
    Seq::new(s.len(), |i: int| s[i]@)
}

impl View for TilesetLibrary {
    type V = LibraryModel;

    open spec fn view(&self) -> LibraryModel {
        LibraryModel {
            entries: entry_models(self.entries@),
            active_id: opt_view(self.active_id),
            active_category: self.active_category@,
        }
    }
}

impl TilesetLibrary {
    /// An empty library with nothing active.
    pub fn new() -> (r: Self)
        ensures
            r@.entries.len() == 0,
            r@.active_id is None,
            r@.active_category.len() == 0,
    {
        TilesetLibrary { entries: Vec::new(), active_id: None, active_category: String::new() }
    }
}

/// A tileset image to load: its id and its asset path.
#[derive(Debug)]
pub struct PendingLoad {
    pub id: String,
    pub asset_path: String,
}

impl View for PendingLoad {
    type V = (Seq<char>, Seq<char>);

    open spec fn view(&self) -> (Seq<char>, Seq<char>) {
        (self.id@, self.asset_path@)
    }
}

/// The contents of a sequence of loads.
pub open spec fn load_models(s: Seq<PendingLoad>) -> Seq<(Seq<char>, Seq<char>)> {
    Seq::new(s.len(), |i: int| s[i]@)
}

/// Position of the first entry with id `id`, or the number of entries when there is none.
pub open spec fn find_entry(entries: Seq<EntryModel>, id: Seq<char>) -> int
    decreases entries.len(),
{
    if entries.len() == 0 {
        0
    } else if entries[0].id == id {
        0
    } else {
        1 + find_entry(entries.drop_first(), id)
    }
}

/// Position of the first entry of `entries` with id `id`, or its length.
pub fn position_of(entries: &Vec<TilesetEntry>, id: &String) -> (r: usize)
    ensures
        r == find_entry(entry_models(entries@), id@),
        r <= entries@.len(),
{
    let ghost m = entry_models(entries@);
    let mut i: usize = 0;
    proof {
        assert(m.subrange(0, m.len() as int) == m);
    }
    while i < entries.len()
        invariant
            i <= entries@.len(),
            m == entry_models(entries@),
            find_entry(m, id@) == i + find_entry(m.subrange(i as int, m.len() as int), id@),
        decreases entries@.len() - i,
    {
        if entries[i].id == *id {
            return i;
        }
        proof {
            assert(m.subrange(i as int, m.len() as int).drop_first() == m.subrange(i + 1, m.len() as int));
        }
        i = i + 1;
    }
    i
}

/// The library after merging in one entry carried by a map file. Entries
/// with a blank id are ignored. A known id gets the missing parts filled in
/// (asset path when empty, name and category when blank); an unknown id is
/// added. With no active tileset, the merged one becomes active.
pub open spec fn merge_one(m: LibraryModel, inc: EntryModel) -> LibraryModel {
    if blank(inc.id) {
        m
    } else {
        let k = find_entry(m.entries, inc.id);
        let entries = if k < m.entries.len() {
            let e = m.entries[k];
            m.entries.update(
                k,
                EntryModel {
                    id: e.id,
                    name: if blank(e.name) && !blank(inc.name) {
                        inc.name
                    } else {
                        e.name
                    },
                    category: if blank(e.category) && !blank(inc.category) {
                        inc.category
                    } else {
                        e.category
                    },
                    asset_path: if e.asset_path.len() == 0 && inc.asset_path.len() > 0 {
                        inc.asset_path
                    } else {
                        e.asset_path
                    },
                },
            )
        } else {
            m.entries.push(inc)
        };
        LibraryModel {
            entries,
            active_id: if m.active_id is None {
                Some(inc.id)
            } else {
                m.active_id
            },
            active_category: m.active_category,
        }
    }
}

/// The library after merging in `incs`, in order.
pub open spec fn merge_all(m: LibraryModel, incs: Seq<EntryModel>) -> LibraryModel
    decreases incs.len(),
{
    if incs.len() == 0 {
        m
    } else {
        merge_one(merge_all(m, incs.drop_last()), incs.last())
    }
}

/// The images that merging `incs` asks to load: each merged entry with an asset path.
pub open spec fn merge_loads(incs: Seq<EntryModel>) -> Seq<(Seq<char>, Seq<char>)>
    decreases incs.len(),
{
    if incs.len() == 0 {
        Seq::empty()
    } else {
        let r = merge_loads(incs.drop_last());
        let e = incs.last();
        if !blank(e.id) && e.asset_path.len() > 0 {
            r.push((e.id, e.asset_path))
        } else {
            r
        }
    }
}

/// Merges the tileset entries that a map file carries into the library, so
/// that a map copied from elsewhere shows its tilesets; returns the images
/// to load.
pub fn merge_tilesets_from_map(lib: &mut TilesetLibrary, tilesets: Vec<TilesetEntry>) -> (loads: Vec<PendingLoad>)
    ensures
        final(lib)@ == merge_all(old(lib)@, entry_models(tilesets@)),
        load_models(loads@) == merge_loads(entry_models(tilesets@)),
        forall|k: int|
            0 <= k < tilesets@.len() && !blank(tilesets@[k]@.id) && (forall|j: int|
                0 <= j < old(lib)@.entries.len() ==> old(lib)@.entries[j].id != tilesets@[k]@.id) && (forall|j: int|
                0 <= j < tilesets@.len() && j != k ==> tilesets@[j]@.id != tilesets@[k]@.id) ==> exists|p: int|
                0 <= p < final(lib)@.entries.len() && final(lib)@.entries[p] == (#[trigger] tilesets@[k])@,
        old(lib)@.active_id is Some ==> final(lib)@.active_id == old(lib)@.active_id,
        forall|p: int|
            0 <= p < old(lib)@.entries.len() ==> {
                let e = old(lib)@.entries[p];
                let f = #[trigger] final(lib)@.entries[p];
                &&& f.id == e.id
                &&& !blank(e.name) ==> f.name == e.name
                &&& !blank(e.category) ==> f.category == e.category
                &&& e.asset_path.len() > 0 ==> f.asset_path == e.asset_path
            },
{
    let ghost incs = entry_models(tilesets@);
    let ghost start = lib@;
    let mut loads: Vec<PendingLoad> = Vec::new();
    let mut i: usize = 0;
    while i < tilesets.len()
        invariant
            i <= tilesets@.len(),
            incs == entry_models(tilesets@),
            lib@ == merge_all(start, incs.take(i as int)),
            load_models(loads@) == merge_loads(incs.take(i as int)),
        decreases tilesets@.len() - i,
    {
        proof {
            assert(incs.take(i + 1).drop_last() == incs.take(i as int));
            assert(incs.take(i + 1).last() == tilesets@[i as int]@);
        }
        let incoming = &tilesets[i];
        if !is_blank(incoming.id.as_str()) {
            let ghost m = lib@;
            let k = position_of(&lib.entries, &incoming.id);
            if k < lib.entries.len() {
                let mut e = lib.entries[k].clone();
                if e.asset_path.as_str().is_empty() && !incoming.asset_path.as_str().is_empty() {
                    e.asset_path = incoming.asset_path.clone();
                }
                if is_blank(e.name.as_str()) && !is_blank(incoming.name.as_str()) {
                    e.name = incoming.name.clone();
                }
                if is_blank(e.category.as_str()) && !is_blank(incoming.category.as_str()) {
                    e.category = incoming.category.clone();
                }
                lib.entries.set(k, e);
            } else {
                lib.entries.push(incoming.clone());
            }
            if lib.active_id.is_none() {
                lib.active_id = Some(incoming.id.clone());
            }
            proof {
                assert(lib@.entries =~= merge_one(m, incs[i as int]).entries);
            }
            if !incoming.asset_path.as_str().is_empty() {
                loads.push(PendingLoad { id: incoming.id.clone(), asset_path: incoming.asset_path.clone() });
                proof {
                    assert(load_models(loads@) =~= merge_loads(incs.take(i as int)).push(
                        (incs[i as int].id, incs[i as int].asset_path),
                    ));
                }
            }
        }
        i = i + 1;
    }
    proof {
        assert(incs.take(tilesets@.len() as int) == incs);
        assert forall|k: int|
            0 <= k < tilesets@.len() && !blank(tilesets@[k]@.id) && (forall|j: int|
                0 <= j < start.entries.len() ==> start.entries[j].id != tilesets@[k]@.id) && (forall|j: int|
                0 <= j < tilesets@.len() && j != k ==> tilesets@[j]@.id != tilesets@[k]@.id) implies exists|p: int|
                0 <= p < lib@.entries.len() && lib@.entries[p] == (#[trigger] tilesets@[k])@ by {
            assert(incs[k] == tilesets@[k]@);
            assert forall|j: int| 0 <= j < incs.len() && j != k implies incs[j].id != incs[k].id by {
                assert(incs[j] == tilesets@[j]@);
            }
            lemma_merge_adds_new_entry(start, incs, k);
        }
        lemma_merge_keeps_known(start, incs);
    }
    loads
}

} // verus!

verus! {

/// The library after importing the image with id `id`, shown as `name`, at
/// asset path `rel`: a known id gets the new path (and the name when its
/// name is blank); an unknown id is added in category `default`. The
/// imported tileset becomes active.
pub open spec fn import_one(m: LibraryModel, id: Seq<char>, name: Seq<char>, rel: Seq<char>) -> LibraryModel {
    let k = find_entry(m.entries, id);
    let entries = if k < m.entries.len() {
        let e = m.entries[k];
        m.entries.update(
            k,
            EntryModel {
                id: e.id,
                name: if blank(e.name) {
                    name
                } else {
                    e.name
                },
                category: e.category,
                asset_path: rel,
            },
        )
    } else {
        m.entries.push(EntryModel { id, name, category: "default"@, asset_path: rel })
    };
    LibraryModel { entries, active_id: Some(id), active_category: m.active_category }
}

/// Records an imported tileset image: its id is the hex BLAKE3 digest of
/// `image`, its asset path is `file_name` inside `import_dir`, and `name`
/// names it. Returns the image to load.
pub fn import_tileset(
    lib: &mut TilesetLibrary,
    image: &[u8],
    import_dir: &str,
    file_name: &str,
    name: String,
) -> (load: PendingLoad)
    ensures
        load@.0 == crate::hash::tileset_id_of(image@),
        load@.1 == crate::paths::joined_asset_path(import_dir@, file_name@),
        final(lib)@ == import_one(old(lib)@, load@.0, name@, load@.1),
        final(lib)@.active_id == Some(load@.0),
        exists|p: int|
            0 <= p < final(lib)@.entries.len() && (#[trigger] final(lib)@.entries[p]).id == load@.0
                && final(lib)@.entries[p].asset_path == load@.1,
        forall|p: int|
            0 <= p < old(lib)@.entries.len() && old(lib)@.entries[p].id != load@.0 ==> #[trigger] final(lib)@.entries[p]
                == old(lib)@.entries[p],
{
    let id = crate::hash::tileset_id_for(image);
    let rel = crate::paths::path_join_asset(import_dir, file_name);
    let ghost m = lib@;
    let k = position_of(&lib.entries, &id);
    if k < lib.entries.len() {
        let mut e = lib.entries[k].clone();
        e.asset_path = rel.clone();
        if is_blank(e.name.as_str()) {
            e.name = name;
        }
        lib.entries.set(k, e);
    } else {
        lib.entries.push(
            TilesetEntry { id: id.clone(), name, category: "default".to_owned(), asset_path: rel.clone() },
        );
    }
    lib.active_id = Some(id.clone());
    proof {
        reveal_strlit("default");
        assert(lib@.entries =~= import_one(m, id@, name@, rel@).entries);
        lemma_import_activates(m, id@, name@, rel@);
        lemma_import_touches_one(m, id@, name@, rel@);
    }
    PendingLoad { id, asset_path: rel }
}

/// The images to load for a library read at startup: every entry with an
/// asset path, in order.
pub open spec fn startup_loads(entries: Seq<EntryModel>) -> Seq<(Seq<char>, Seq<char>)>
    decreases entries.len(),
{
    if entries.len() == 0 {
        Seq::empty()
    } else {
        let r = startup_loads(entries.drop_last());
        let e = entries.last();
        if e.asset_path.len() > 0 {
            r.push((e.id, e.asset_path))
        } else {
            r
        }
    }
}

/// Prepares a library just read from disk: returns the images to load and,
/// when nothing is active, makes the first entry active.
pub fn library_after_load(lib: &mut TilesetLibrary) -> (loads: Vec<PendingLoad>)
    ensures
        load_models(loads@) == startup_loads(old(lib)@.entries),
        final(lib)@.entries == old(lib)@.entries,
        final(lib)@.active_category == old(lib)@.active_category,
        final(lib)@.active_id == if old(lib)@.active_id is None && old(lib)@.entries.len() > 0 {
            Some(old(lib)@.entries[0].id)
        } else {
            old(lib)@.active_id
        },
{
    let ghost m = lib@.entries;
    let mut loads: Vec<PendingLoad> = Vec::new();
    let mut i: usize = 0;
    while i < lib.entries.len()
        invariant
            i <= lib.entries@.len(),
            m == lib@.entries,
            load_models(loads@) == startup_loads(m.take(i as int)),
        decreases lib.entries@.len() - i,
    {
        proof {
            assert(m.take(i + 1).drop_last() == m.take(i as int));
            assert(m.take(i + 1).last() == lib.entries@[i as int]@);
        }
        let e = &lib.entries[i];
        if !e.asset_path.as_str().is_empty() {
            loads.push(PendingLoad { id: e.id.clone(), asset_path: e.asset_path.clone() });
            proof {
                assert(load_models(loads@) =~= startup_loads(m.take(i as int)).push((m[i as int].id, m[i as int].asset_path)));
            }
        }
        i = i + 1;
    }
    proof {
        assert(m.take(m.len() as int) == m);
    }
    if lib.active_id.is_none() && lib.entries.len() > 0 {
        lib.active_id = Some(lib.entries[0].id.clone());
    }
    loads
}

} // verus!

verus! {

/// The contents of a sequence of strings.
pub open spec fn string_models(s: Seq<String>) -> Seq<Seq<char>> {
    Seq::new(s.len(), |i: int| s[i]@)
}

/// Whether `v` holds a string with the content of `s`.
pub fn holds_string(v: &Vec<String>, s: &String) -> (b: bool)
    ensures
        b == string_models(v@).contains(s@),
{
    let mut i: usize = 0;
    while i < v.len()
        invariant
            i <= v@.len(),
            forall|k: int| 0 <= k < i ==> v@[k]@ != s@,
        decreases v@.len() - i,
    {
        if v[i] == *s {
            proof {
                assert(string_models(v@)[i as int] == s@);
            }
            return true;
        }
        i = i + 1;
    }
    proof {
        if string_models(v@).contains(s@) {
            let k = choose|k: int| 0 <= k < string_models(v@).len() && string_models(v@)[k] == s@;
            assert(v@[k]@ == s@);
        }
    }
    false
}

/// The distinct non-empty tileset ids that `tiles` uses, in order of first use.
pub open spec fn used_ids(tiles: Seq<Option<TileRef>>) -> Seq<Seq<char>>
    decreases tiles.len(),
{
    if tiles.len() == 0 {
        Seq::empty()
    } else {
        let r = used_ids(tiles.drop_last());
        match tiles.last() {
            Some(t) => if t.tileset_id@.len() > 0 && !r.contains(t.tileset_id@) {
                r.push(t.tileset_id@)
            } else {
                r
            },
            None => r,
        }
    }
}

/// The entry stored for a map's tileset `id`: the library's first entry with
/// that id, or, for an unknown id, an entry named after the id in category
/// `default` without an asset path.
pub open spec fn entry_for(entries: Seq<EntryModel>, id: Seq<char>) -> EntryModel {
    let k = find_entry(entries, id);
    if k < entries.len() {
        entries[k]
    } else {
        EntryModel { id, name: id, category: "default"@, asset_path: Seq::empty() }
    }
}

/// `used_ids` lists each used id exactly once, and nothing else.
pub proof fn lemma_used_ids(tiles: Seq<Option<TileRef>>)
    ensures
        forall|i: int, j: int|
            0 <= i < j < used_ids(tiles).len() ==> used_ids(tiles)[i] != used_ids(tiles)[j],
        forall|k: int|
            0 <= k < used_ids(tiles).len() ==> used_ids(tiles)[k].len() > 0 && exists|i: int|
                0 <= i < tiles.len() && (#[trigger] tiles[i]) is Some && tiles[i].unwrap().tileset_id@
                    == used_ids(tiles)[k],
        forall|i: int|
            0 <= i < tiles.len() && (#[trigger] tiles[i]) is Some && tiles[i].unwrap().tileset_id@.len()
                > 0 ==> used_ids(tiles).contains(tiles[i].unwrap().tileset_id@),
    decreases tiles.len(),
{
    if tiles.len() > 0 {
        let p = tiles.drop_last();
        lemma_used_ids(p);
        let r = used_ids(p);
        let u = used_ids(tiles);
        assert forall|k: int| 0 <= k < u.len() implies u[k].len() > 0 && exists|i: int|
            0 <= i < tiles.len() && (#[trigger] tiles[i]) is Some && tiles[i].unwrap().tileset_id@ == u[k] by {
            if k < r.len() {
                let i = choose|i: int|
                    0 <= i < p.len() && (#[trigger] p[i]) is Some && p[i].unwrap().tileset_id@ == r[k];
                assert(tiles[i] == p[i]);
            } else {
                assert(tiles[tiles.len() - 1] == tiles.last());
            }
        }
        assert forall|i: int|
            0 <= i < tiles.len() && (#[trigger] tiles[i]) is Some && tiles[i].unwrap().tileset_id@.len() > 0 implies u.contains(
            tiles[i].unwrap().tileset_id@) by {
            if i < p.len() {
                assert(tiles[i] == p[i]);
                assert(r.contains(p[i].unwrap().tileset_id@));
                let k = choose|k: int| 0 <= k < r.len() && r[k] == p[i].unwrap().tileset_id@;
                assert(u[k] == r[k]);
            } else {
                assert(tiles[i] == tiles.last());
                if r.contains(tiles.last().unwrap().tileset_id@) {
                    let k = choose|k: int| 0 <= k < r.len() && r[k] == tiles.last().unwrap().tileset_id@;
                    assert(u[k] == r[k]);
                } else {
                    assert(u[u.len() - 1] == tiles.last().unwrap().tileset_id@);
                }
            }
        }
    }
}

/// The tileset entries to store with a map: one per distinct non-empty
/// tileset id that its cells use, in order of first use, each as the
/// library knows it (see `entry_for`).
pub fn tilesets_for_map(map: &TileMapData, lib: &TilesetLibrary) -> (r: Vec<TilesetEntry>)
    ensures
        entry_models(r@) == Seq::new(
            used_ids(map.tiles@).len(),
            |k: int| entry_for(lib@.entries, used_ids(map.tiles@)[k]),
        ),
        forall|i: int, j: int| 0 <= i < j < r@.len() ==> r@[i].id@ != r@[j].id@,
        forall|i: int|
            0 <= i < map.tiles@.len() && (#[trigger] map.tiles@[i]) is Some
                && map.tiles@[i].unwrap().tileset_id@.len() > 0 ==> exists|k: int|
                0 <= k < r@.len() && r@[k].id@ == map.tiles@[i].unwrap().tileset_id@,
{
    let ghost tiles = map.tiles@;
    let mut used: Vec<String> = Vec::new();
    let mut i: usize = 0;
    while i < map.tiles.len()
        invariant
            i <= tiles.len(),
            tiles == map.tiles@,
            string_models(used@) == used_ids(tiles.take(i as int)),
        decreases tiles.len() - i,
    {
        proof {
            assert(tiles.take(i + 1).drop_last() == tiles.take(i as int));
            assert(tiles.take(i + 1).last() == tiles[i as int]);
        }
        if let Some(t) = &map.tiles[i] {
            if !t.tileset_id.as_str().is_empty() && !holds_string(&used, &t.tileset_id) {
                used.push(t.tileset_id.clone());
                proof {
                    assert(string_models(used@) =~= used_ids(tiles.take(i as int)).push(t.tileset_id@));
                }
            }
        }
        i = i + 1;
    }
    proof {
        assert(tiles.take(tiles.len() as int) == tiles);
        lemma_used_ids(tiles);
    }
    let ghost ids = used_ids(tiles);
    let mut out: Vec<TilesetEntry> = Vec::new();
    let mut k: usize = 0;
    while k < used.len()
        invariant
            k <= used@.len(),
            string_models(used@) == ids,
            ids == used_ids(tiles),
            out@.len() == k,
            entry_models(out@) == Seq::new(k as nat, |j: int| entry_for(lib@.entries, ids[j])),
        decreases used@.len() - k,
    {
        let id = &used[k];
        let p = position_of(&lib.entries, id);
        let ghost before = out@;
        proof {
            assert(string_models(used@)[k as int] == id@);
        }
        if p < lib.entries.len() {
            out.push(lib.entries[p].clone());
            proof {
                assert(lib@.entries[p as int] == lib.entries@[p as int]@);
                assert(out@.last()@ == entry_for(lib@.entries, ids[k as int]));
            }
        } else {
            out.push(TilesetEntry { id: id.clone(), name: id.clone(), category: "default".to_owned(), asset_path: String::new() });
            proof {
                reveal_strlit("default");
                assert(out@.last()@ == entry_for(lib@.entries, ids[k as int]));
            }
        }
        proof {
            assert(out@ == before.push(out@.last()));
            assert forall|j: int| 0 <= j < k + 1 implies #[trigger] entry_models(out@)[j] == entry_for(lib@.entries, ids[j]) by {
                if j < k {
                    assert(out@[j] == before[j]);
                    assert(entry_models(before)[j] == entry_for(lib@.entries, ids[j]));
                }
            }
            assert(entry_models(out@) =~= Seq::new((k + 1) as nat, |j: int| entry_for(lib@.entries, ids[j])));
        }
        k = k + 1;
    }
    proof {
        assert forall|a: int, b: int| 0 <= a < b < out@.len() implies out@[a].id@ != out@[b].id@ by {
            assert(entry_models(out@)[a] == entry_for(lib@.entries, ids[a]));
            assert(entry_models(out@)[b] == entry_for(lib@.entries, ids[b]));
            lemma_entry_for_id(lib@.entries, ids[a]);
            lemma_entry_for_id(lib@.entries, ids[b]);
        }
        assert forall|i: int|
            0 <= i < tiles.len() && (#[trigger] tiles[i]) is Some && tiles[i].unwrap().tileset_id@.len() > 0 implies exists|k: int|
            0 <= k < out@.len() && out@[k].id@ == tiles[i].unwrap().tileset_id@ by {
            let k = choose|k: int| 0 <= k < ids.len() && ids[k] == tiles[i].unwrap().tileset_id@;
            assert(entry_models(out@)[k] == entry_for(lib@.entries, ids[k]));
            lemma_entry_for_id(lib@.entries, ids[k]);
        }
    }
    out
}

/// The first entry with a given id has that id.
pub proof fn lemma_find_entry(entries: Seq<EntryModel>, id: Seq<char>)
    ensures
        0 <= find_entry(entries, id) <= entries.len(),
        find_entry(entries, id) < entries.len() ==> entries[find_entry(entries, id)].id == id,
        forall|k: int| 0 <= k < find_entry(entries, id) ==> entries[k].id != id,
    decreases entries.len(),
{
    if entries.len() > 0 && entries[0].id != id {
        lemma_find_entry(entries.drop_first(), id);
        assert forall|k: int| 0 <= k < find_entry(entries, id) implies entries[k].id != id by {
            if k > 0 {
                assert(entries[k] == entries.drop_first()[k - 1]);
            }
        }
    }
}

/// `entry_for` gives an entry with the asked id.
pub proof fn lemma_entry_for_id(entries: Seq<EntryModel>, id: Seq<char>)
    ensures
        entry_for(entries, id).id == id,
{
    lemma_find_entry(entries, id);
}

} // verus!

verus! {

/// `c` is the (trimmed, non-empty) category of some entry.
pub open spec fn is_category(entries: Seq<EntryModel>, c: Seq<char>) -> bool {
    c.len() > 0 && exists|i: int| 0 <= i < entries.len() && trimmed(#[trigger] entries[i].category) == c
}

/// `c` may follow the current category `cur` when cycling: any category
/// when `cur` is empty, else a category after `cur`, and only when `cur` is
/// itself a category.
pub open spec fn may_follow(entries: Seq<EntryModel>, cur: Seq<char>, c: Seq<char>) -> bool {
    is_category(entries, c) && (cur.len() == 0 || (is_category(entries, cur) && seq_lt(cur, c)))
}

/// The category after `current` in the sorted list of distinct categories:
/// the first one when `current` is blank, and empty (all categories) after
/// the last one or when `current` is no category.
pub open spec fn is_next_category(entries: Seq<EntryModel>, current: Seq<char>, r: Seq<char>) -> bool {
    let cur = trimmed(current);
    if exists|c: Seq<char>| #[trigger] may_follow(entries, cur, c) {
        may_follow(entries, cur, r) && forall|c: Seq<char>| #[trigger] may_follow(entries, cur, c) ==> !seq_lt(c, r)
    } else {
        r.len() == 0
    }
}

/// The distinct (trimmed, non-empty) categories of the entries.
pub open spec fn category_set(entries: Seq<EntryModel>) -> Set<Seq<char>> {
    Set::new(|c: Seq<char>| is_category(entries, c))
}

/// The categories at or before `c`.
pub open spec fn categories_up_to(entries: Seq<EntryModel>, c: Seq<char>) -> Set<Seq<char>> {
    category_set(entries).filter(|d: Seq<char>| !seq_lt(c, d))
}

proof fn lemma_category_set_finite(entries: Seq<EntryModel>)
    ensures
        category_set(entries).finite(),
        forall|c: Seq<char>| #[trigger] categories_up_to(entries, c).subset_of(category_set(entries)),
        forall|c: Seq<char>| #[trigger] categories_up_to(entries, c).finite(),
{
    let names = entries.map_values(|e: EntryModel| trimmed(e.category));
    vstd::seq_lib::seq_to_set_is_finite(names);
    assert forall|c: Seq<char>| #[trigger] category_set(entries).contains(c) implies names.to_set().contains(c) by {
        let i = choose|i: int| 0 <= i < entries.len() && trimmed(#[trigger] entries[i].category) == c;
        assert(names[i] == c);
    }
    vstd::set_lib::lemma_set_subset_finite(names.to_set(), category_set(entries));
    assert forall|c: Seq<char>| #[trigger] categories_up_to(entries, c).finite() by {
        vstd::set_lib::lemma_set_subset_finite(category_set(entries), categories_up_to(entries, c));
    }
}

/// From a category `c` whose run of categories up to it has `k` members:
/// when `k` is short of all categories, the next press goes to a category
/// whose run has `k + 1` members; otherwise it goes back to "all categories".
proof fn lemma_cycle_step(entries: Seq<EntryModel>, c: Seq<char>, n: Seq<char>)
    requires
        is_category(entries, c),
        is_next_category(entries, c, n),
    ensures
        categories_up_to(entries, c).len() < category_set(entries).len() ==> {
            &&& is_category(entries, n)
            &&& categories_up_to(entries, n).len() == categories_up_to(entries, c).len() + 1
        },
        categories_up_to(entries, c).len() >= category_set(entries).len() ==> n.len() == 0,
{
    lemma_category_set_finite(entries);
    let cats = category_set(entries);
    let a = categories_up_to(entries, c);
    let i = choose|i: int| 0 <= i < entries.len() && trimmed(#[trigger] entries[i].category) == c;
    lemma_trimmed_idempotent(entries[i].category);
    assert(trimmed(c) == c);
    if exists|d: Seq<char>| #[trigger] may_follow(entries, c, d) {
        let d = choose|d: Seq<char>| #[trigger] may_follow(entries, c, d);
        lemma_seq_lt_strict(c, d);
        assert(cats.contains(d) && !a.contains(d));
        a.lemma_subset_not_in_lt(cats, d);
        assert(may_follow(entries, c, n));
        lemma_seq_lt_strict(c, n);
        lemma_seq_lt_strict(n, n);
        assert(!a.contains(n));
        assert forall|e: Seq<char>| #[trigger] categories_up_to(entries, n).contains(e) <==> a.insert(n).contains(e) by {
            if cats.contains(e) {
                lemma_seq_lt_total(e, n);
                lemma_seq_lt_total(c, e);
                if seq_lt(n, e) && !seq_lt(c, e) {
                    lemma_seq_lt_transitive(c, n, e);
                }
                if !seq_lt(n, e) && seq_lt(c, e) && e != n {
                    assert(may_follow(entries, c, e));
                }
            }
        }
        assert(categories_up_to(entries, n) =~= a.insert(n));
    } else {
        if a.len() < cats.len() {
            assert(!cats.subset_of(a)) by {
                if cats.subset_of(a) {
                    vstd::set_lib::lemma_len_subset(cats, a);
                }
            }
            let d = choose|d: Seq<char>| cats.contains(d) && !a.contains(d);
            assert(may_follow(entries, c, d));
        }
    }
}

proof fn lemma_cycle_from(entries: Seq<EntryModel>, states: Seq<Seq<char>>, k: int)
    requires
        1 <= k <= category_set(entries).len(),
        states.len() == category_set(entries).len() + 2,
        forall|j: int| 0 <= j < states.len() - 1 ==> is_next_category(entries, states[j], #[trigger] states[j + 1]),
        is_category(entries, states[k]),
        categories_up_to(entries, states[k]).len() == k,
    ensures
        forall|j: int| k <= j <= category_set(entries).len() ==> is_category(entries, #[trigger] states[j]),
        states[states.len() - 1].len() == 0,
    decreases category_set(entries).len() - k,
{
    assert(is_next_category(entries, states[k], states[k + 1]));
    lemma_cycle_step(entries, states[k], states[k + 1]);
    if k < category_set(entries).len() {
        lemma_cycle_from(entries, states, k + 1);
    }
}

/// Pressing the category button from "all categories" walks through every
/// category, one per press, and comes back to "all categories" on the press
/// after the last one: with `n` distinct categories, the states after presses
/// `1` to `n` are categories and the state after press `n + 1` is "all".
pub proof fn lemma_category_cycle_exact(entries: Seq<EntryModel>, states: Seq<Seq<char>>)
    requires
        states.len() == category_set(entries).len() + 2,
        trimmed(states[0]).len() == 0,
        forall|k: int| 0 <= k < states.len() - 1 ==> is_next_category(entries, states[k], #[trigger] states[k + 1]),
    ensures
        forall|k: int| 1 <= k <= category_set(entries).len() ==> (#[trigger] states[k]).len() > 0 && is_category(entries, states[k]),
        states[states.len() - 1].len() == 0,
{
    lemma_category_set_finite(entries);
    let cats = category_set(entries);
    let z: int = 0;
    assert(is_next_category(entries, states[z], states[z + 1]));
    let n1 = states[1];
    if cats.len() == 0 {
        if exists|d: Seq<char>| #[trigger] may_follow(entries, trimmed(states[0]), d) {
            let d = choose|d: Seq<char>| #[trigger] may_follow(entries, trimmed(states[0]), d);
            assert(cats.contains(d));
        }
    } else {
        vstd::set_lib::lemma_set_empty_equivalency_len(cats);
        let d0 = choose|d: Seq<char>| cats.contains(d);
        assert(may_follow(entries, trimmed(states[0]), d0));
        assert(may_follow(entries, trimmed(states[0]), n1));
        lemma_seq_lt_strict(n1, n1);
        assert forall|e: Seq<char>| #[trigger] categories_up_to(entries, n1).contains(e) <==> set![n1].contains(e) by {
            if cats.contains(e) {
                assert(may_follow(entries, trimmed(states[0]), e));
                lemma_seq_lt_total(e, n1);
            }
        }
        assert(categories_up_to(entries, n1) =~= set![n1]);
        lemma_cycle_from(entries, states, 1);
    }
}

/// The category that the category button moves to next.
pub fn next_category(lib: &TilesetLibrary) -> (r: String)
    ensures
        is_next_category(lib@.entries, lib@.active_category, r@),
{
    let ghost es = lib@.entries;
    let cv = chars_of(lib.active_category.as_str());
    let cur = trim_chars(cv.as_slice());
    // Whether the current category is one of the library's.
    let mut cur_known = false;
    let mut i: usize = 0;
    while i < lib.entries.len()
        invariant
            i <= lib.entries@.len(),
            es == lib@.entries,
            cur@ == trimmed(lib@.active_category),
            cur_known ==> is_category(es, cur@),
            !cur_known ==> forall|k: int| 0 <= k < i ==> trimmed(#[trigger] es[k].category) != cur@ || cur@.len() == 0,
        decreases lib.entries@.len() - i,
    {
        let v = chars_of(lib.entries[i].category.as_str());
        let c = trim_chars(v.as_slice());
        if c.len() > 0 && chars_eq(c.as_slice(), cur.as_slice()) {
            proof {
                assert(es[i as int].category == lib.entries@[i as int].category@);
            }
            cur_known = true;
        }
        i = i + 1;
    }
    proof {
        if !cur_known && cur@.len() > 0 {
            assert(!is_category(es, cur@));
        }
    }
    let mut best: Option<Vec<char>> = None;
    let mut i: usize = 0;
    while i < lib.entries.len()
        invariant
            i <= lib.entries@.len(),
            es == lib@.entries,
            cur@ == trimmed(lib@.active_category),
            cur@.len() > 0 ==> (cur_known <==> is_category(es, cur@)),
            best matches Some(b) ==> may_follow(es, cur@, b@),
            forall|k: int|
                0 <= k < i && #[trigger] may_follow(es, cur@, trimmed(es[k].category)) ==> (best matches Some(b)
                    && !seq_lt(trimmed(es[k].category), b@)),
        decreases lib.entries@.len() - i,
    {
        let v = chars_of(lib.entries[i].category.as_str());
        let c = trim_chars(v.as_slice());
        proof {
            assert(es[i as int].category == lib.entries@[i as int].category@);
        }
        let eligible = c.len() > 0 && (cur.len() == 0 || (cur_known && chars_lt(cur.as_slice(), c.as_slice())));
        proof {
            if c@.len() > 0 {
                assert(is_category(es, c@));
            }
            assert(eligible == may_follow(es, cur@, c@));
        }
        if eligible {
            let better = match &best {
                None => true,
                Some(b) => chars_lt(c.as_slice(), b.as_slice()),
            };
            if better {
                let ghost old_best = best;
                proof {
                    assert forall|k: int|
                        0 <= k < i && #[trigger] may_follow(es, cur@, trimmed(es[k].category)) implies !seq_lt(
                        trimmed(es[k].category),
                        c@,
                    ) by {
                        let ck = trimmed(es[k].category);
                        let b = old_best.unwrap();
                        if seq_lt(ck, c@) {
                            lemma_seq_lt_transitive(ck, c@, b@);
                        }
                    }
                    lemma_seq_lt_strict(c@, c@);
                }
                best = Some(c);
            } else {
                proof {
                    let b = best.unwrap();
                    lemma_seq_lt_total(c@, b@);
                }
            }
        }
        i = i + 1;
    }
    proof {
        let cur_s = trimmed(lib@.active_category);
        if exists|c: Seq<char>| #[trigger] may_follow(es, cur_s, c) {
            let c = choose|c: Seq<char>| #[trigger] may_follow(es, cur_s, c);
            let k = choose|k: int| 0 <= k < es.len() && trimmed(#[trigger] es[k].category) == c;
            assert(may_follow(es, cur@, trimmed(es[k].category)));
            assert forall|c2: Seq<char>| #[trigger] may_follow(es, cur_s, c2) implies !seq_lt(c2, best.unwrap()@) by {
                let k2 = choose|k2: int| 0 <= k2 < es.len() && trimmed(#[trigger] es[k2].category) == c2;
                assert(may_follow(es, cur@, trimmed(es[k2].category)));
            }
        } else {
            if best is Some {
                assert(may_follow(es, cur_s, best.unwrap()@));
            }
        }
    }
    match best {
        Some(b) => string_from(b.as_slice()),
        None => String::new(),
    }
}

/// Moves the library's category filter to the next category.
pub fn cycle_category(lib: &mut TilesetLibrary)
    ensures
        final(lib)@.entries == old(lib)@.entries,
        final(lib)@.active_id == old(lib)@.active_id,
        is_next_category(old(lib)@.entries, old(lib)@.active_category, final(lib)@.active_category),
{
    let next = next_category(lib);
    lib.active_category = next;
}

} // verus!

verus! {

/// How an entry is shown: its name, else its asset path, else its id
/// (blank texts are skipped).
pub open spec fn entry_label(e: EntryModel) -> Seq<char> {
    if !blank(e.name) {
        e.name
    } else if !blank(e.asset_path) {
        e.asset_path
    } else {
        e.id
    }
}

/// How an entry is shown.
pub fn entry_label_of(e: &TilesetEntry) -> (r: String)
    ensures
        r@ == entry_label(e@),
{
    if !is_blank(e.name.as_str()) {
        e.name.clone()
    } else if !is_blank(e.asset_path.as_str()) {
        e.asset_path.clone()
    } else {
        e.id.clone()
    }
}

/// The text naming the active tileset: the label of the first entry with
/// the active id, or the id itself when no entry has it; `None` when no
/// tileset is active.
pub fn active_tileset_label(lib: &TilesetLibrary) -> (r: Option<String>)
    ensures
        match lib@.active_id {
            None => r is None,
            Some(id) => r is Some && r.unwrap()@ == {
                let k = find_entry(lib@.entries, id);
                if k < lib@.entries.len() {
                    entry_label(lib@.entries[k])
                } else {
                    id
                }
            },
        },
{
    match &lib.active_id {
        None => None,
        Some(id) => {
            let k = position_of(&lib.entries, id);
            if k < lib.entries.len() {
                proof {
                    assert(lib@.entries[k as int] == lib.entries@[k as int]@);
                }
                Some(entry_label_of(&lib.entries[k]))
            } else {
                Some(id.clone())
            }
        },
    }
}

/// One line of the tileset menu.
#[derive(Debug)]
pub struct TilesetMenuItem {
    pub id: String,
    pub label: String,
    pub active: bool,
}

impl View for TilesetMenuItem {
    type V = (Seq<char>, Seq<char>, bool);

    open spec fn view(&self) -> (Seq<char>, Seq<char>, bool) {
        (self.id@, self.label@, self.active)
    }
}

/// The menu line text of an entry: its label, followed by `  [category]`
/// when it has a category.
pub open spec fn menu_label(e: EntryModel) -> Seq<char> {
    if !blank(e.category) {
        entry_label(e) + seq![' ', ' ', '['] + e.category + seq![']']
    } else {
        entry_label(e)
    }
}

/// The lines of the tileset menu: the entries of category `cat` (all entries
/// when `cat` is empty), in order, each with its text and whether it is the
/// active tileset.
pub open spec fn menu_items(entries: Seq<EntryModel>, active: Option<Seq<char>>, cat: Seq<char>) -> Seq<
    (Seq<char>, Seq<char>, bool),
>
    decreases entries.len(),
{
    if entries.len() == 0 {
        Seq::empty()
    } else {
        let r = menu_items(entries.drop_last(), active, cat);
        let e = entries.last();
        if cat.len() == 0 || trimmed(e.category) == cat {
            r.push((e.id, menu_label(e), active == Some(e.id)))
        } else {
            r
        }
    }
}

/// The contents of a sequence of menu lines.
pub open spec fn item_models(s: Seq<TilesetMenuItem>) -> Seq<(Seq<char>, Seq<char>, bool)> {
    Seq::new(s.len(), |i: int| s[i]@)
}

fn append_chars(s: &mut Vec<char>, t: &str)
    ensures
        final(s)@ == old(s)@ + t@,
{
    let v = chars_of(t);
    let ghost start = s@;
    let mut i: usize = 0;
    while i < v.len()
        invariant
            i <= v@.len(),
            v@ == t@,
            s@ == start + v@.take(i as int),
        decreases v@.len() - i,
    {
        s.push(v[i]);
        proof {
            assert(v@.take(i + 1) == v@.take(i as int).push(v@[i as int]));
        }
        i = i + 1;
    }
    proof {
        assert(v@.take(v@.len() as int) == v@);
    }
}

/// The lines of the tileset menu for the library's category filter.
pub fn tileset_menu_items(lib: &TilesetLibrary) -> (r: Vec<TilesetMenuItem>)
    ensures
        item_models(r@) == menu_items(lib@.entries, lib@.active_id, trimmed(lib@.active_category)),
        forall|i: int| 0 <= i < r@.len() ==> (#[trigger] r@[i]).active == (lib@.active_id == Some(r@[i].id@)),
{
    let ghost es = lib@.entries;
    let cv = chars_of(lib.active_category.as_str());
    let cat = trim_chars(cv.as_slice());
    let mut out: Vec<TilesetMenuItem> = Vec::new();
    let mut i: usize = 0;
    while i < lib.entries.len()
        invariant
            i <= lib.entries@.len(),
            es == lib@.entries,
            cat@ == trimmed(lib@.active_category),
            item_models(out@) == menu_items(es.take(i as int), lib@.active_id, cat@),
        decreases lib.entries@.len() - i,
    {
        let e = &lib.entries[i];
        proof {
            assert(es.take(i + 1).drop_last() == es.take(i as int));
            assert(es.take(i + 1).last() == e@);
        }
        let ev = chars_of(e.category.as_str());
        let ec = trim_chars(ev.as_slice());
        if cat.len() == 0 || chars_eq(ec.as_slice(), cat.as_slice()) {
            let base = entry_label_of(e);
            let label = if !is_blank(e.category.as_str()) {
                let mut v = chars_of(base.as_str());
                v.push(' ');
                v.push(' ');
                v.push('[');
                append_chars(&mut v, e.category.as_str());
                v.push(']');
                proof {
                    assert(v@ =~= entry_label(e@) + seq![' ', ' ', '['] + e@.category + seq![']']);
                }
                string_from(v.as_slice())
            } else {
                base
            };
            let active = match &lib.active_id {
                Some(id) => *id == e.id,
                None => false,
            };
            out.push(TilesetMenuItem { id: e.id.clone(), label, active });
            proof {
                assert(item_models(out@) =~= menu_items(es.take(i as int), lib@.active_id, cat@).push(
                    (e@.id, menu_label(e@), lib@.active_id == Some(e@.id)),
                ));
            }
        }
        i = i + 1;
    }
    proof {
        assert(es.take(es.len() as int) == es);
        let cat_s = trimmed(lib@.active_category);
        lemma_menu_items_active(es, lib@.active_id, cat_s);
        assert forall|i: int| 0 <= i < out@.len() implies (#[trigger] out@[i]).active == (lib@.active_id == Some(
            out@[i].id@,
        )) by {
            assert(item_models(out@)[i] == out@[i]@);
        }
    }
    out
}

} // verus!

verus! {

/// Makes tileset `id` the active one.
pub fn select_tileset(lib: &mut TilesetLibrary, id: String)
    ensures
        final(lib)@.entries == old(lib)@.entries,
        final(lib)@.active_category == old(lib)@.active_category,
        final(lib)@.active_id == Some(id@),
{
    lib.active_id = Some(id);
}

} // verus!

verus! {

impl Default for TilesetLibrary {
    fn default() -> (r: Self)
        ensures
            r@.entries.len() == 0,
            r@.active_id is None,
            r@.active_category.len() == 0,
    {
        TilesetLibrary::new()
    }
}

impl Clone for TilesetLibrary {
    fn clone(&self) -> (r: Self)
        ensures
            r@ == self@,
    {
        let mut entries: Vec<TilesetEntry> = Vec::new();
        let mut i: usize = 0;
        while i < self.entries.len()
            invariant
                i <= self.entries@.len(),
                entries@ == self.entries@.take(i as int),
            decreases self.entries@.len() - i,
        {
            entries.push(self.entries[i].clone());
            proof {
                assert(self.entries@.take(i + 1) == self.entries@.take(i as int).push(self.entries@[i as int]));
            }
            i = i + 1;
        }
        proof {
            assert(self.entries@.take(self.entries@.len() as int) == self.entries@);
        }
        let active_id = match &self.active_id {
            Some(s) => Some(s.clone()),
            None => None,
        };
        TilesetLibrary { entries, active_id, active_category: self.active_category.clone() }
    }
}

} // verus!

verus! {

/// Some entry of the library or some incoming entry has id `id`.
spec fn id_known(m: LibraryModel, incs: Seq<EntryModel>, id: Seq<char>) -> bool {
    (exists|j: int| 0 <= j < m.entries.len() && m.entries[j].id == id) || (exists|j: int|
        0 <= j < incs.len() && incs[j].id == id)
}

/// Every entry after a merge carries an id that the library or one of the
/// incoming entries had.
proof fn lemma_merge_ids(m: LibraryModel, incs: Seq<EntryModel>)
    ensures
        forall|p: int|
            0 <= p < merge_all(m, incs).entries.len() ==> id_known(m, incs, #[trigger] merge_all(m, incs).entries[p].id),
    decreases incs.len(),
{
    if incs.len() > 0 {
        let prev = incs.drop_last();
        lemma_merge_ids(m, prev);
        let m1 = merge_all(m, prev);
        let inc = incs.last();
        let m2 = merge_all(m, incs);
        lemma_find_entry(m1.entries, inc.id);
        assert forall|p: int| 0 <= p < m2.entries.len() implies id_known(m, incs, #[trigger] m2.entries[p].id) by {
            if p < m1.entries.len() {
                assert(m2.entries[p].id == m1.entries[p].id);
                assert(id_known(m, prev, m1.entries[p].id));
                if exists|j: int| 0 <= j < prev.len() && prev[j].id == m1.entries[p].id {
                    let j = choose|j: int| 0 <= j < prev.len() && prev[j].id == m1.entries[p].id;
                    assert(incs[j] == prev[j]);
                }
            } else {
                assert(m2.entries[p] == inc);
                assert(incs[incs.len() - 1] == inc);
            }
        }
    } else {
        assert forall|p: int| 0 <= p < m.entries.len() implies id_known(m, incs, #[trigger] merge_all(m, incs).entries[p].id) by {
            assert(merge_all(m, incs).entries[p] == m.entries[p]);
        }
    }
}

/// Merging keeps an incoming tileset whose id is new: when an incoming entry
/// has a non-blank id that neither the library nor any other incoming entry
/// has, the merged library holds exactly that entry (its id, name, category
/// and asset path).
pub proof fn lemma_merge_adds_new_entry(m: LibraryModel, incs: Seq<EntryModel>, k: int)
    requires
        0 <= k < incs.len(),
        !blank(incs[k].id),
        forall|j: int| 0 <= j < m.entries.len() ==> m.entries[j].id != incs[k].id,
        forall|j: int| 0 <= j < incs.len() && j != k ==> incs[j].id != incs[k].id,
    ensures
        exists|p: int| 0 <= p < merge_all(m, incs).entries.len() && merge_all(m, incs).entries[p] == incs[k],
    decreases incs.len(),
{
    let prev = incs.drop_last();
    let inc = incs.last();
    let m1 = merge_all(m, prev);
    let m2 = merge_all(m, incs);
    if k == incs.len() - 1 {
        lemma_merge_ids(m, prev);
        lemma_find_entry(m1.entries, inc.id);
        if find_entry(m1.entries, inc.id) < m1.entries.len() {
            let p = find_entry(m1.entries, inc.id);
            assert(id_known(m, prev, m1.entries[p].id));
            if exists|j: int| 0 <= j < m.entries.len() && m.entries[j].id == m1.entries[p].id {
                let j = choose|j: int| 0 <= j < m.entries.len() && m.entries[j].id == m1.entries[p].id;
                assert(m.entries[j].id != incs[k].id);
            } else {
                let j = choose|j: int| 0 <= j < prev.len() && prev[j].id == m1.entries[p].id;
                assert(incs[j] == prev[j]);
            }
        }
        assert(m2.entries[m2.entries.len() - 1] == incs[k]);
    } else {
        assert forall|j: int| 0 <= j < prev.len() && j != k implies prev[j].id != prev[k].id by {
            assert(prev[j] == incs[j]);
        }
        lemma_merge_adds_new_entry(m, prev, k);
        let p = choose|p: int| 0 <= p < m1.entries.len() && m1.entries[p] == incs[k];
        assert(inc.id != incs[k].id);
        lemma_find_entry(m1.entries, inc.id);
        if !blank(inc.id) && find_entry(m1.entries, inc.id) < m1.entries.len() {
            assert(find_entry(m1.entries, inc.id) != p);
        }
        assert(m2.entries[p] == incs[k]);
    }
}

/// Importing makes the imported tileset the active one, known or not, and
/// leaves an entry with its id and the new asset path.
pub proof fn lemma_import_activates(m: LibraryModel, id: Seq<char>, name: Seq<char>, rel: Seq<char>)
    ensures
        import_one(m, id, name, rel).active_id == Some(id),
        import_one(m, id, name, rel).active_category == m.active_category,
        exists|p: int|
            0 <= p < import_one(m, id, name, rel).entries.len() && (#[trigger] import_one(m, id, name, rel).entries[p]).id
                == id && import_one(m, id, name, rel).entries[p].asset_path == rel,
{
    lemma_find_entry(m.entries, id);
    let r = import_one(m, id, name, rel);
    let k = find_entry(m.entries, id);
    if k < m.entries.len() {
        assert(r.entries[k].id == id && r.entries[k].asset_path == rel);
    } else {
        assert(r.entries[r.entries.len() - 1].id == id && r.entries[r.entries.len() - 1].asset_path == rel);
    }
}

/// A tileset menu line is marked active exactly when its id is the active
/// id, whatever the category filter; every line belongs to an entry of the
/// filtered category.
pub proof fn lemma_menu_items_active(entries: Seq<EntryModel>, active: Option<Seq<char>>, cat: Seq<char>)
    ensures
        menu_items(entries, active, cat).len() <= entries.len(),
        forall|i: int|
            0 <= i < menu_items(entries, active, cat).len() ==> (#[trigger] menu_items(entries, active, cat)[i]).2 == (
            active == Some(menu_items(entries, active, cat)[i].0)),
        forall|i: int|
            0 <= i < menu_items(entries, active, cat).len() ==> exists|j: int|
                0 <= j < entries.len() && entries[j].id == (#[trigger] menu_items(entries, active, cat)[i]).0 && (cat.len()
                    == 0 || trimmed(entries[j].category) == cat),
    decreases entries.len(),
{
    if entries.len() > 0 {
        let prev = entries.drop_last();
        lemma_menu_items_active(prev, active, cat);
        let r = menu_items(entries, active, cat);
        let r1 = menu_items(prev, active, cat);
        assert forall|i: int| 0 <= i < r.len() implies exists|j: int|
            0 <= j < entries.len() && entries[j].id == (#[trigger] r[i]).0 && (cat.len() == 0 || trimmed(
                entries[j].category,
            ) == cat) by {
            if i < r1.len() {
                assert(r[i] == r1[i]);
                let j = choose|j: int|
                    0 <= j < prev.len() && prev[j].id == r1[i].0 && (cat.len() == 0 || trimmed(prev[j].category) == cat);
                assert(entries[j] == prev[j]);
            } else {
                assert(entries[entries.len() - 1] == entries.last());
            }
        }
    }
}

} // verus!

verus! {

/// Merging only fills gaps: every entry the library had stays at its place
/// with its id, and keeps its name and category when they are not blank and
/// its asset path when it is not empty; an active tileset stays active.
pub proof fn lemma_merge_keeps_known(m: LibraryModel, incs: Seq<EntryModel>)
    ensures
        merge_all(m, incs).entries.len() >= m.entries.len(),
        m.active_id is Some ==> merge_all(m, incs).active_id == m.active_id,
        merge_all(m, incs).active_category == m.active_category,
        forall|p: int|
            0 <= p < m.entries.len() ==> {
                let e = m.entries[p];
                let f = #[trigger] merge_all(m, incs).entries[p];
                &&& f.id == e.id
                &&& !blank(e.name) ==> f.name == e.name
                &&& !blank(e.category) ==> f.category == e.category
                &&& e.asset_path.len() > 0 ==> f.asset_path == e.asset_path
            },
    decreases incs.len(),
{
    if incs.len() > 0 {
        let prev = incs.drop_last();
        lemma_merge_keeps_known(m, prev);
        let m1 = merge_all(m, prev);
        lemma_find_entry(m1.entries, incs.last().id);
        let m2 = merge_all(m, incs);
        assert forall|p: int| 0 <= p < m.entries.len() implies {
            let e = m.entries[p];
            let f = #[trigger] m2.entries[p];
            &&& f.id == e.id
            &&& !blank(e.name) ==> f.name == e.name
            &&& !blank(e.category) ==> f.category == e.category
            &&& e.asset_path.len() > 0 ==> f.asset_path == e.asset_path
        } by {
            assert(m1.entries[p].id == m.entries[p].id);
        }
    }
}

/// Importing touches only the tileset with the imported id: every other
/// entry stays as it was, and the library grows by one entry exactly when
/// the id was new.
pub proof fn lemma_import_touches_one(m: LibraryModel, id: Seq<char>, name: Seq<char>, rel: Seq<char>)
    ensures
        forall|p: int|
            0 <= p < m.entries.len() && m.entries[p].id != id ==> #[trigger] import_one(m, id, name, rel).entries[p]
                == m.entries[p],
        (exists|p: int| 0 <= p < m.entries.len() && m.entries[p].id == id) ==> import_one(m, id, name, rel).entries.len()
            == m.entries.len(),
        !(exists|p: int| 0 <= p < m.entries.len() && m.entries[p].id == id) ==> import_one(m, id, name, rel).entries.len()
            == m.entries.len() + 1,
{
    lemma_find_entry(m.entries, id);
    if exists|p: int| 0 <= p < m.entries.len() && m.entries[p].id == id {
        let p = choose|p: int| 0 <= p < m.entries.len() && m.entries[p].id == id;
        if find_entry(m.entries, id) == m.entries.len() {
            assert(m.entries[p].id != id);
        }
    }
}

} // verus!
