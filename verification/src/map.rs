use std::collections::HashMap;
use std::hash::Hash;
use vstd::prelude::*;
use vstd::std_specs::hash::obeys_key_model;
use vstd::std_specs::iter::IteratorSpec;
use vstd::string::StringExecFns;
use crate::coord::Coord;
use crate::entity::EntityId;
use crate::error::WorldError;
use crate::terrain::{Terrain, TerrainKind, TERRAIN};

verus! {

broadcast use {vstd::std_specs::hash::group_hash_axioms, vstd::string::group_string_axioms};

/// Whether some key of `m` is bound to `value`.
pub open spec fn holds<K, V>(m: Map<K, V>, value: V) -> bool {
    exists|k: K| m.contains_key(k) && #[trigger] m[k] == value
}

/// A key of `m` that is bound to `value`, where there is one.
pub open spec fn key_of<K, V>(m: Map<K, V>, value: V) -> K {
    choose|k: K| m.contains_key(k) && #[trigger] m[k] == value
}

/// No value is bound to two keys.
pub open spec fn one_to_one<K, V>(m: Map<K, V>) -> bool {
    forall|j: K, k: K|
        m.contains_key(j) && m.contains_key(k) && #[trigger] m[j] == #[trigger] m[k] ==> j == k
}

/// `m` without the pair that binds `value`.
pub open spec fn without_value<K, V>(m: Map<K, V>, value: V) -> Map<K, V> {
    Map::new(|k: K| m.contains_key(k) && m[k] != value, |k: K| m[k])
}

/// `m` after `key` is bound to `value`: the pair that bound `value` before and the
/// pair that bound `key` before are gone, every other pair stays.
pub open spec fn bound<K, V>(m: Map<K, V>, key: K, value: V) -> Map<K, V> {
    without_value(m, value).insert(key, value)
}

/// Binding a pair and dropping a pair keep a map one-to-one: whatever is placed,
/// moved or removed, and in whatever order, no value comes to have two keys.
pub proof fn lemma_one_to_one_kept<K, V>(m: Map<K, V>, key: K, value: V)
    requires
        one_to_one(m),
    ensures
        one_to_one(bound(m, key, value)),
        one_to_one(without_value(m, value)),
        bound(m, key, value)[key] == value,
        !holds(without_value(m, value), value),
{
    let placed = bound(m, key, value);
    assert forall|j: K, k: K|
        placed.contains_key(j) && placed.contains_key(k) && #[trigger] placed[j]
            == #[trigger] placed[k] implies j == k by {
        if j != key && k != key {
            assert(m[j] == m[k]);
        }
    }
    let dropped = without_value(m, value);
    assert forall|j: K, k: K|
        dropped.contains_key(j) && dropped.contains_key(k) && #[trigger] dropped[j]
            == #[trigger] dropped[k] implies j == k by {
        assert(m[j] == m[k]);
    }
}

/// A map that is read in both directions: from a key to its value and from a
/// value back to its key. No key has two values and no value has two keys.
pub struct MutualHashMap<K, V> {
    vmap: HashMap<K, V>,
    kmap: HashMap<V, K>,
}

impl<K, V> View for MutualHashMap<K, V> {
    type V = Map<K, V>;

    /// The pairs, read from key to value.
    closed spec fn view(&self) -> Map<K, V> {
        self.vmap@
    }
}

impl<K: Hash + Eq + Copy + Clone, V: Hash + Eq + Copy + Clone> MutualHashMap<K, V> {
    /// The pairs, read from value to key.
    pub closed spec fn inverse(&self) -> Map<V, K> {
        self.kmap@
    }

    /// The two directions hold the same pairs.
    pub closed spec fn wf(&self) -> bool {
        &&& obeys_key_model::<K>()
        &&& obeys_key_model::<V>()
        &&& forall|k: K| #[trigger]
            self.vmap@.contains_key(k) ==> self.kmap@.contains_key(self.vmap@[k])
                && self.kmap@[self.vmap@[k]] == k
        &&& forall|v: V| #[trigger]
            self.kmap@.contains_key(v) ==> self.vmap@.contains_key(self.kmap@[v])
                && self.vmap@[self.kmap@[v]] == v
    }

    /// In a well-formed map no value has two keys, the inverse reading holds
    /// exactly the values that are bound, and each of them leads back to its key.
    pub proof fn lemma_mutual(&self)
        requires
            self.wf(),
        ensures
            one_to_one(self@),
            forall|v: V| #[trigger] self.inverse().contains_key(v) <==> holds(self@, v),
            forall|v: V| #[trigger]
                self.inverse().contains_key(v) ==> self.inverse()[v] == key_of(self@, v),
            forall|k: K| #[trigger]
                self@.contains_key(k) ==> self.inverse().contains_key(self@[k])
                    && self.inverse()[self@[k]] == k,
            forall|v: V| #[trigger]
                self.inverse().contains_key(v) ==> self@.contains_key(self.inverse()[v])
                    && self@[self.inverse()[v]] == v,
    {
        assert forall|j: K, k: K|
            self@.contains_key(j) && self@.contains_key(k) && #[trigger] self@[j]
                == #[trigger] self@[k] implies j == k by {
            assert(self.kmap@[self.vmap@[j]] == j);
            assert(self.kmap@[self.vmap@[k]] == k);
        }
        assert forall|v: V| #[trigger] self.inverse().contains_key(v) implies holds(self@, v)
            && self.inverse()[v] == key_of(self@, v) by {
            let k = self.kmap@[v];
            assert(self.vmap@.contains_key(k) && self.vmap@[k] == v);
            let c = key_of(self@, v);
            assert(self.vmap@.contains_key(c) && self.vmap@[c] == v);
            assert(self.kmap@[self.vmap@[c]] == c);
        }
        assert forall|v: V| holds(self@, v) implies #[trigger] self.inverse().contains_key(v) by {
            let c = key_of(self@, v);
            assert(self.vmap@.contains_key(c) && self.vmap@[c] == v);
        }
    }

    /// A map without pairs.
    pub fn new() -> (m: Self)
        requires
            obeys_key_model::<K>(),
            obeys_key_model::<V>(),
        ensures
            m.wf(),
            m@ == Map::<K, V>::empty(),
    {
        MutualHashMap { vmap: HashMap::new(), kmap: HashMap::new() }
    }

    /// Binds `key` to `value`. A pair that held `key` or `value` before is dropped
    /// from both directions first.
    pub fn insert(&mut self, key: K, value: V)
        requires
            old(self).wf(),
        ensures
            final(self).wf(),
            final(self)@ == bound(old(self)@, key, value),
    {
        let stale_value = match self.vmap.get(&key) {
            Some(v) => Some(*v),
            None => None,
        };
        if let Some(v) = stale_value {
            self.kmap.remove(&v);
        }
        let stale_key = match self.kmap.get(&value) {
            Some(k) => Some(*k),
            None => None,
        };
        if let Some(k) = stale_key {
            self.vmap.remove(&k);
        }
        self.vmap.insert(key, value);
        self.kmap.insert(value, key);
        assert(self.vmap@ =~= bound(old(self).vmap@, key, value));
    }

    /// The value that `key` is bound to, if it is bound.
    pub fn value(&self, key: K) -> (value: Option<&V>)
        requires
            self.wf(),
        ensures
            match value {
                Some(v) => self@.contains_key(key) && *v == self@[key],
                None => !self@.contains_key(key),
            },
    {
        self.vmap.get(&key)
    }

    /// Whether `value` is bound to a key.
    pub fn has_value(&self, value: V) -> (found: bool)
        requires
            self.wf(),
        ensures
            found == holds(self@, value),
    {
        proof {
            self.lemma_mutual();
        }
        self.kmap.contains_key(&value)
    }

    /// The key that is bound to the value `key`.
    pub fn key(&self, key: V) -> (k: K)
        requires
            self.wf(),
            holds(self@, key),
        ensures
            self@.contains_key(k),
            self@[k] == key,
            k == key_of(self@, key),
    {
        proof {
            self.lemma_mutual();
        }
        match self.kmap.get(&key) {
            Some(k) => *k,
            None => vstd::pervasive::unreached(),
        }
    }

    /// Every pair once, in no particular order.
    pub fn entries(&self) -> (entries: Vec<(K, V)>)
        requires
            self.wf(),
        ensures
            entries@.no_duplicates(),
            entries@.to_set() == self@.kv_pairs(),
    {
        let mut entries: Vec<(K, V)> = Vec::new();
        let ghost pairs = self.vmap.iter().remaining();
        for pair in it: self.vmap.iter()
            invariant
                it.seq() == pairs,
                entries@ == pairs.unref().take(it.index()),
        {
            let (k, v) = pair;
            entries.push((*k, *v));
        }
        assert(entries@ =~= pairs.unref());
        entries
    }

    /// Drops the pair that binds `value`, if there is one.
    pub fn remove_by_value(&mut self, value: V)
        requires
            old(self).wf(),
        ensures
            final(self).wf(),
            final(self)@ == without_value(old(self)@, value),
    {
        proof {
            self.lemma_mutual();
        }
        let bound_key = match self.kmap.get(&value) {
            Some(k) => Some(*k),
            None => None,
        };
        if let Some(k) = bound_key {
            self.vmap.remove(&k);
            self.kmap.remove(&value);
        }
        assert(self.vmap@ =~= without_value(old(self).vmap@, value));
    }
}

/// The kinds that the glyphs of one row of a design stand for.
pub open spec fn kinds_of(glyphs: Seq<char>) -> Seq<TerrainKind> {
    Seq::new(glyphs.len(), |j: int| TerrainKind::of_glyph(glyphs[j]))
}

/// The rows of kinds that a design stands for: cell for cell, rows as long as given.
pub open spec fn design_rows(design: Seq<&'static str>) -> Seq<Seq<TerrainKind>> {
    Seq::new(design.len(), |i: int| kinds_of(design[i]@))
}

/// What ends every row of the drawn grid.
pub open spec fn line_end() -> Seq<char> {
    seq!['\r', '\n']
}

/// One row as painted: the image of each cell in turn, colour and glyph.
pub open spec fn render_row(row: Seq<TerrainKind>) -> Seq<char>
    decreases row.len(),
{
    if row.len() == 0 {
        Seq::empty()
    } else {
        render_row(row.drop_last()) + row.last().image()
    }
}

/// The grid as painted: each row in turn, each followed by the line end.
pub open spec fn render(rows: Seq<Seq<TerrainKind>>) -> Seq<char>
    decreases rows.len(),
{
    if rows.len() == 0 {
        Seq::empty()
    } else {
        render(rows.drop_last()) + render_row(rows.last()) + line_end()
    }
}

/// Whether `coord` names a cell of `rows`.
pub open spec fn in_bounds(rows: Seq<Seq<TerrainKind>>, coord: Coord) -> bool {
    &&& 0 <= coord.y < rows.len()
    &&& 0 <= coord.x < rows[coord.y as int].len()
}

/// The glyphs that show the cells of one row, cell for cell.
pub open spec fn glyphs_of(row: Seq<TerrainKind>) -> Seq<char> {
    Seq::new(row.len(), |j: int| row[j].glyph())
}

/// The glyphs that show the cells of `rows`, row for row.
pub open spec fn glyph_rows(rows: Seq<Seq<TerrainKind>>) -> Seq<Seq<char>> {
    Seq::new(rows.len(), |i: int| glyphs_of(rows[i]))
}

/// The lines as one text: each line in turn, each followed by the line end.
pub open spec fn written(lines: Seq<Seq<char>>) -> Seq<char>
    decreases lines.len(),
{
    if lines.len() == 0 {
        Seq::empty()
    } else {
        written(lines.drop_last()) + lines.last() + line_end()
    }
}

/// The grid as text: the glyph of every cell, row by row, and the line end after
/// each row. Nothing else: no colour, and nobody who stands on the grid.
pub open spec fn plain(rows: Seq<Seq<TerrainKind>>) -> Seq<char> {
    written(glyph_rows(rows))
}

/// The rows of a design as sequences of characters.
pub open spec fn texts(design: Seq<&'static str>) -> Seq<Seq<char>> {
    Seq::new(design.len(), |i: int| design[i]@)
}

/// Whether the glyphs are all among those that show a cell: `.`, `#` and the
/// blank.
pub open spec fn is_plain(glyphs: Seq<char>) -> bool {
    forall|j: int|
        0 <= j < glyphs.len() ==> #[trigger] glyphs[j] == '.' || glyphs[j] == '#' || glyphs[j]
            == ' '
}

/// Whether the line holds neither of the two characters of the line end.
pub open spec fn is_one_line(line: Seq<char>) -> bool {
    forall|j: int| 0 <= j < line.len() ==> #[trigger] line[j] != '\r' && line[j] != '\n'
}

/// A text of at least one line ends with the line end.
proof fn lemma_written_ends(lines: Seq<Seq<char>>)
    requires
        lines.len() > 0,
    ensures
        written(lines).len() == written(lines.drop_last()).len() + lines.last().len() + 2,
        written(lines)[written(lines).len() - 1] == '\n',
        written(lines)[written(lines).len() - 2] == '\r',
{
}

/// A text is written in one way only: two sequences of lines, none of which
/// holds a character of the line end, are the same sequence if they are written
/// as the same text.
pub proof fn lemma_written_once(a: Seq<Seq<char>>, b: Seq<Seq<char>>)
    requires
        written(a) == written(b),
        forall|i: int| 0 <= i < a.len() ==> is_one_line(#[trigger] a[i]),
        forall|i: int| 0 <= i < b.len() ==> is_one_line(#[trigger] b[i]),
    ensures
        a == b,
    decreases a.len(),
{
    if a.len() == 0 || b.len() == 0 {
        if a.len() > 0 {
            lemma_written_ends(a);
        }
        if b.len() > 0 {
            lemma_written_ends(b);
        }
        assert(a =~= b);
    } else {
        lemma_written_ends(a);
        lemma_written_ends(b);
        let text = written(a);
        let pa = written(a.drop_last());
        let pb = written(b.drop_last());
        let la = a.last();
        let lb = b.last();
        assert(is_one_line(la) && is_one_line(lb));
        assert(text =~= pa + la + line_end());
        assert(text =~= pb + lb + line_end());
        if la.len() < lb.len() {
            assert(a.drop_last().len() > 0);
            lemma_written_ends(a.drop_last());
            assert(text[pa.len() - 1] == pa[pa.len() - 1]);
            assert(text[pa.len() - 1] == lb[pa.len() - 1 - pb.len()]);
        }
        if lb.len() < la.len() {
            assert(b.drop_last().len() > 0);
            lemma_written_ends(b.drop_last());
            assert(text[pb.len() - 1] == pb[pb.len() - 1]);
            assert(text[pb.len() - 1] == la[pb.len() - 1 - pa.len()]);
        }
        assert(la.len() == lb.len());
        assert forall|j: int| 0 <= j < la.len() implies la[j] == lb[j] by {
            assert(text[pa.len() + j] == la[j]);
            assert(text[pb.len() + j] == lb[j]);
        }
        assert(la =~= lb);
        assert forall|j: int| 0 <= j < pa.len() implies pa[j] == pb[j] by {
            assert(text[j] == pa[j]);
            assert(text[j] == pb[j]);
        }
        assert(pa =~= pb);
        lemma_written_once(a.drop_last(), b.drop_last());
        assert(a =~= a.drop_last().push(la));
        assert(b =~= b.drop_last().push(lb));
    }
}

/// A grid drawn as text gives its design back. Cell for cell the text holds the
/// glyph of the kind that the design's glyph stands for, so a design of `.`, `#`
/// and blanks is drawn as the design's own rows, each followed by the line end;
/// any other glyph is drawn as a blank. And the rows of glyphs stand for the
/// same kinds as the design.
pub proof fn lemma_round_trip(design: Seq<&'static str>)
    ensures
        glyph_rows(design_rows(design)).len() == design.len(),
        forall|i: int|
            0 <= i < design.len() ==> {
                let shown = #[trigger] glyph_rows(design_rows(design))[i];
                &&& shown.len() == design[i]@.len()
                &&& forall|j: int|
                    0 <= j < shown.len() ==> #[trigger] shown[j] == TerrainKind::of_glyph(
                        design[i]@[j],
                    ).glyph()
                &&& is_plain(shown)
                &&& is_one_line(shown)
                &&& kinds_of(shown) == design_rows(design)[i]
                &&& is_plain(design[i]@) ==> shown == design[i]@
            },
        (forall|i: int| 0 <= i < design.len() ==> is_plain(#[trigger] design[i]@)) ==> plain(
            design_rows(design),
        ) == written(texts(design)),
{
    assert forall|i: int| 0 <= i < design.len() implies {
        let shown = #[trigger] glyph_rows(design_rows(design))[i];
        &&& shown.len() == design[i]@.len()
        &&& forall|j: int|
            0 <= j < shown.len() ==> #[trigger] shown[j] == TerrainKind::of_glyph(
                design[i]@[j],
            ).glyph()
        &&& is_plain(shown)
        &&& is_one_line(shown)
        &&& kinds_of(shown) == design_rows(design)[i]
        &&& is_plain(design[i]@) ==> shown == design[i]@
    } by {
        let shown = glyph_rows(design_rows(design))[i];
        assert forall|j: int| 0 <= j < shown.len() implies TerrainKind::of_glyph(shown[j])
            == design_rows(design)[i][j] by {
            TerrainKind::lemma_glyph_round_trip(design_rows(design)[i][j], design[i]@[j]);
        }
        assert(kinds_of(shown) =~= design_rows(design)[i]);
        if is_plain(design[i]@) {
            assert forall|j: int| 0 <= j < shown.len() implies shown[j] == design[i]@[j] by {
                assert(design[i]@[j] == '.' || design[i]@[j] == '#' || design[i]@[j] == ' ');
            }
            assert(shown =~= design[i]@);
        }
    }
    if forall|i: int| 0 <= i < design.len() ==> is_plain(#[trigger] design[i]@) {
        assert(glyph_rows(design_rows(design)) =~= texts(design));
    }
}

/// Drawing is idempotent: whatever lines are read back from the text of a grid,
/// they are the grid's rows of glyphs, they stand for the same grid, and the
/// grid built from them is drawn as the same text.
pub proof fn lemma_redraw(design: Seq<&'static str>, lines: Seq<&'static str>)
    requires
        written(texts(lines)) == plain(design_rows(design)),
        forall|i: int| 0 <= i < lines.len() ==> is_one_line(#[trigger] lines[i]@),
    ensures
        texts(lines) == glyph_rows(design_rows(design)),
        design_rows(lines) == design_rows(design),
        plain(design_rows(lines)) == plain(design_rows(design)),
{
    lemma_round_trip(design);
    let shown = glyph_rows(design_rows(design));
    assert forall|i: int| 0 <= i < texts(lines).len() implies is_one_line(
        #[trigger] texts(lines)[i],
    ) by {
        assert(is_one_line(lines[i]@));
    }
    lemma_written_once(texts(lines), shown);
    assert forall|i: int| 0 <= i < lines.len() implies #[trigger] design_rows(lines)[i]
        == design_rows(design)[i] by {
        assert(texts(lines)[i] == shown[i]);
    }
    assert(design_rows(lines) =~= design_rows(design));
}

/// Whether the entries stand in the order of their entities' ids, lowest first,
/// no id twice.
pub open spec fn in_id_order(entries: Seq<(Coord, EntityId)>) -> bool {
    forall|i: int, j: int| 0 <= i < j < entries.len() ==> entries[i].1 < entries[j].1
}

/// Whether `entries` lists the occupants: every occupied coordinate once, with
/// its entity, in the order of the entities' ids.
pub open spec fn lists(entries: Seq<(Coord, EntityId)>, occupants: Map<Coord, EntityId>) -> bool {
    &&& in_id_order(entries)
    &&& forall|pair: (Coord, EntityId)|
        entries.contains(pair) <==> occupants.contains_key(pair.0) && occupants[pair.0] == pair.1
}

/// There is one way to list the occupants: two listings of the same occupants
/// are the same sequence.
pub proof fn lemma_lists_once(
    a: Seq<(Coord, EntityId)>,
    b: Seq<(Coord, EntityId)>,
    occupants: Map<Coord, EntityId>,
)
    requires
        lists(a, occupants),
        lists(b, occupants),
    ensures
        a == b,
    decreases a.len(),
{
    if a.len() == 0 {
        if b.len() > 0 {
            assert(b.contains(b[0]));
            assert(a.contains(b[0]));
        }
        assert(a =~= b);
    } else {
        let x = a.last();
        assert(a.contains(x));
        assert(b.contains(x));
        let y = b.last();
        assert(b.contains(y));
        assert(a.contains(y));
        let i = choose|i: int| 0 <= i < a.len() && a[i] == y;
        let j = choose|j: int| 0 <= j < b.len() && b[j] == x;
        assert(i == a.len() - 1 && j == b.len() - 1);
        let rest = occupants.remove(x.0);
        assert forall|pair: (Coord, EntityId)|
            a.drop_last().contains(pair) <==> rest.contains_key(pair.0) && rest[pair.0]
                == pair.1 by {
            if a.drop_last().contains(pair) {
                let k = choose|k: int| 0 <= k < a.drop_last().len() && a.drop_last()[k] == pair;
                assert(a[k] == pair);
                assert(a.contains(pair));
                assert(a[k].1 < a[a.len() - 1].1);
            }
            if rest.contains_key(pair.0) && rest[pair.0] == pair.1 {
                assert(a.contains(pair));
                let k = choose|k: int| 0 <= k < a.len() && a[k] == pair;
                assert(a.drop_last()[k] == pair);
            }
        }
        assert forall|pair: (Coord, EntityId)|
            b.drop_last().contains(pair) <==> rest.contains_key(pair.0) && rest[pair.0]
                == pair.1 by {
            if b.drop_last().contains(pair) {
                let k = choose|k: int| 0 <= k < b.drop_last().len() && b.drop_last()[k] == pair;
                assert(b[k] == pair);
                assert(b.contains(pair));
                assert(b[k].1 < b[b.len() - 1].1);
            }
            if rest.contains_key(pair.0) && rest[pair.0] == pair.1 {
                assert(b.contains(pair));
                let k = choose|k: int| 0 <= k < b.len() && b[k] == pair;
                assert(b.drop_last()[k] == pair);
            }
        }
        lemma_lists_once(a.drop_last(), b.drop_last(), rest);
        assert(a =~= a.drop_last().push(x));
        assert(b =~= b.drop_last().push(y));
    }
}

/// The terrain of a level and the entities that stand on it. No cell holds two
/// entities and no entity stands on two cells.
pub struct GridMap {
    map: Vec<Vec<TerrainKind>>,
    terrain: TERRAIN,
    character: MutualHashMap<u64, EntityId>,
}

impl GridMap {
    /// The rows of the grid, from the top; a row's cells from the left.
    pub closed spec fn rows(&self) -> Seq<Seq<TerrainKind>> {
        Seq::new(self.map@.len(), |i: int| self.map@[i]@)
    }

    /// Who stands where: the occupied coordinates, each with its entity.
    pub closed spec fn occupants(&self) -> Map<Coord, EntityId> {
        Map::new(
            |c: Coord| self.character@.contains_key(c.key_spec()),
            |c: Coord| self.character@[c.key_spec()],
        )
    }

    /// The table shows every kind as defined, and the index of occupants reads the
    /// same in both directions.
    pub closed spec fn wf(&self) -> bool {
        &&& self.terrain.wf()
        &&& self.character.wf()
    }

    /// The kind of the cell at `coord`; outside the grid there is only void.
    pub open spec fn kind_at(&self, coord: Coord) -> TerrainKind {
        if in_bounds(self.rows(), coord) {
            self.rows()[coord.y as int][coord.x as int]
        } else {
            TerrainKind::Void
        }
    }

    /// Whether an entity can enter the cell at `coord`.
    pub open spec fn walkable(&self, coord: Coord) -> bool {
        self.kind_at(coord).walkable()
    }

    /// The entity that stands at `coord`, if any.
    pub open spec fn occupant(&self, coord: Coord) -> Option<EntityId> {
        if self.occupants().contains_key(coord) {
            Some(self.occupants()[coord])
        } else {
            None
        }
    }

    /// The coordinate at which `id` stands, if it stands on the grid.
    pub open spec fn position(&self, id: EntityId) -> Option<Coord> {
        if holds(self.occupants(), id) {
            Some(key_of(self.occupants(), id))
        } else {
            None
        }
    }

    /// Builds the grid that `design` describes, one row for each string and one
    /// cell for each glyph: `.` is floor, `#` is wall, any other glyph is void.
    /// Nobody stands on the new grid.
    pub fn new(design: Vec<&'static str>) -> (grid: GridMap)
        ensures
            grid.wf(),
            grid.rows() == design_rows(design@),
            grid.occupants() == Map::<Coord, EntityId>::empty(),
    {
        GridMap::with_terrain(design, TERRAIN::new())
    }

    /// As `new`, with the table of terrains handed in.
    pub fn with_terrain(design: Vec<&'static str>, terrain: TERRAIN) -> (grid: GridMap)
        requires
            terrain.wf(),
        ensures
            grid.wf(),
            grid.rows() == design_rows(design@),
            grid.occupants() == Map::<Coord, EntityId>::empty(),
    {
        let mut map_data: Vec<Vec<TerrainKind>> = Vec::new();
        for i in 0..design.len()
            invariant
                map_data@.len() == i,
                forall|r: int| 0 <= r < i ==> (#[trigger] map_data@[r])@ == kinds_of(design@[r]@),
        {
            let line: &str = design[i];
            let mut terrain_line: Vec<TerrainKind> = Vec::new();
            for ch in it: line.chars()
                invariant
                    it.seq() == line@,
                    terrain_line@ == kinds_of(line@.take(it.index())),
            {
                terrain_line.push(TerrainKind::from_glyph(ch));
                assert(terrain_line@ =~= kinds_of(line@.take(it.index() + 1)));
            }
            assert(line@.take(line@.len() as int) =~= line@);
            map_data.push(terrain_line);
        }
        let grid = GridMap { map: map_data, terrain, character: MutualHashMap::new() };
        assert(grid.rows() =~= design_rows(design@));
        assert(grid.occupants() =~= Map::<Coord, EntityId>::empty());
        grid
    }

    /// Takes `id` off the grid. Where `id` does not stand on it, nothing changes.
    pub fn remove_character(&mut self, id: EntityId)
        requires
            old(self).wf(),
        ensures
            final(self).wf(),
            final(self).rows() == old(self).rows(),
            final(self).occupants() == without_value(old(self).occupants(), id),
    {
        self.character.remove_by_value(id);
        assert(self.occupants() =~= without_value(old(self).occupants(), id));
    }

    /// Takes `id` from where it stands and puts it at `to`, whoever stood there.
    pub fn move_character(&mut self, id: EntityId, to: Coord)
        requires
            old(self).wf(),
        ensures
            final(self).wf(),
            final(self).rows() == old(self).rows(),
            final(self).occupants() == bound(without_value(old(self).occupants(), id), to, id),
            final(self).occupants() == bound(old(self).occupants(), to, id),
    {
        self.remove_character(id);
        self.add_character(id, to);
        assert(self.occupants() =~= bound(old(self).occupants(), to, id));
    }

    /// Puts `id` at `coord` without asking who stands there: an entity that stood
    /// at `coord` leaves the grid, and `id` leaves the cell where it stood.
    pub fn add_character(&mut self, id: EntityId, coord: Coord)
        requires
            old(self).wf(),
        ensures
            final(self).wf(),
            final(self).rows() == old(self).rows(),
            final(self).occupants() == bound(old(self).occupants(), coord, id),
    {
        self.character.insert(coord.key(), id);
        assert(self.occupants() =~= bound(old(self).occupants(), coord, id)) by {
            assert forall|c: Coord| c.key_spec() == coord.key_spec() implies c == coord by {
                Coord::lemma_key_injective(c, coord);
            }
        }
    }

    /// Puts `id` at `coord` if no other entity stands there, and refuses with
    /// `Occupied` if one does.
    pub fn place_character(&mut self, id: EntityId, coord: Coord) -> (placed: Result<(), WorldError>)
        requires
            old(self).wf(),
        ensures
            final(self).wf(),
            final(self).rows() == old(self).rows(),
            match old(self).occupant(coord) {
                Some(other) if other != id => placed == Err::<(), WorldError>(WorldError::Occupied)
                    && *final(self) == *old(self),
                _ => placed == Ok::<(), WorldError>(()) && final(self).occupants() == bound(
                    old(self).occupants(),
                    coord,
                    id,
                ),
            },
    {
        match self.character_at(coord) {
            Some(other) if other != id => Err(WorldError::Occupied),
            _ => {
                self.add_character(id, coord);
                Ok(())
            },
        }
    }

    /// The entity that stands at `coord`, if any.
    pub fn character_at(&self, coord: Coord) -> (found: Option<EntityId>)
        requires
            self.wf(),
        ensures
            found == self.occupant(coord),
    {
        if let Some(e) = self.character.value(coord.key()) {
            return Some(*e);
        }
        None
    }

    /// Every occupied coordinate once, with its entity, in no particular order.
    pub fn characters(&self) -> (all: Vec<(Coord, EntityId)>)
        requires
            self.wf(),
        ensures
            all@.no_duplicates(),
            all@.to_set() == self.occupants().kv_pairs(),
    {
        let entries = self.character.entries();
        let mut all: Vec<(Coord, EntityId)> = Vec::new();
        for i in 0..entries.len()
            invariant
                all@.len() == i,
                forall|j: int|
                    0 <= j < i ==> #[trigger] all@[j] == (
                        Coord::from_key_spec(entries@[j].0),
                        entries@[j].1,
                    ),
        {
            let (key, id) = entries[i];
            all.push((Coord::from_key(key), id));
        }
        proof {
            assert forall|i: int, j: int| 0 <= i < j < all@.len() implies all@[i] != all@[j] by {
                Coord::lemma_key_round_trip(all@[i].0, entries@[i].0);
                Coord::lemma_key_round_trip(all@[j].0, entries@[j].0);
                assert(entries@[i] != entries@[j]);
            }
            assert forall|pair: (Coord, EntityId)|
                all@.to_set().contains(pair) <==> self.occupants().kv_pairs().contains(pair) by {
                if all@.to_set().contains(pair) {
                    let j = choose|j: int| 0 <= j < all@.len() && all@[j] == pair;
                    Coord::lemma_key_round_trip(pair.0, entries@[j].0);
                    assert(entries@.to_set().contains(entries@[j]));
                }
                if self.occupants().kv_pairs().contains(pair) {
                    let entry = (pair.0.key_spec(), pair.1);
                    assert(self.character@.kv_pairs().contains(entry));
                    assert(entries@.to_set().contains(entry));
                    let j = choose|j: int| 0 <= j < entries@.len() && entries@[j] == entry;
                    Coord::lemma_key_round_trip(pair.0, entry.0);
                    assert(all@[j] == pair);
                }
            }
            assert(all@.to_set() =~= self.occupants().kv_pairs());
        }
        all
    }

    /// Every occupied coordinate once, with its entity, in the order of the
    /// entities' ids: the order in which the entities take their turns.
    pub fn roster(&self) -> (all: Vec<(Coord, EntityId)>)
        requires
            self.wf(),
        ensures
            lists(all@, self.occupants()),
    {
        let entries = self.characters();
        let mut all: Vec<(Coord, EntityId)> = Vec::new();
        proof {
            self.lemma_bijection();
        }
        for n in 0..entries.len()
            invariant
                self.wf(),
                one_to_one(self.occupants()),
                entries@.no_duplicates(),
                entries@.to_set() == self.occupants().kv_pairs(),
                in_id_order(all@),
                forall|pair: (Coord, EntityId)|
                    all@.contains(pair) <==> entries@.take(n as int).contains(pair),
        {
            let entry = entries[n];
            let mut at: usize = 0;
            while at < all.len() && all[at].1 < entry.1
                invariant
                    at <= all.len(),
                    forall|i: int| 0 <= i < at ==> all@[i].1 < entry.1,
                decreases all.len() - at,
            {
                at = at + 1;
            }
            let ghost before = all@;
            let ghost shorter = entries@.take(n as int);
            let ghost longer = entries@.take(n + 1);
            proof {
                assert(entries@.to_set().contains(entry));
                if at < all@.len() {
                    let held = all@[at as int];
                    assert(all@.contains(held));
                    assert(shorter.contains(held));
                    let m = choose|m: int| 0 <= m < shorter.len() && shorter[m] == held;
                    assert(entries@[m] == held && m != n);
                    assert(entries@.to_set().contains(held));
                    assert(held.1 != entry.1);
                }
            }
            all.insert(at, entry);
            proof {
                assert forall|i: int, j: int| 0 <= i < j < all@.len() implies all@[i].1
                    < all@[j].1 by {
                    let a = if i < at {
                        i
                    } else {
                        i - 1
                    };
                    let b = if j < at {
                        j
                    } else {
                        j - 1
                    };
                    if i != at && j != at {
                        assert(before[a].1 < before[b].1);
                    } else if i == at {
                        assert(before[b].1 >= entry.1);
                        assert(before[at as int].1 <= before[b].1);
                    }
                }
                assert forall|pair: (Coord, EntityId)|
                    all@.contains(pair) <==> longer.contains(pair) by {
                    if all@.contains(pair) {
                        let i = choose|i: int| 0 <= i < all@.len() && all@[i] == pair;
                        if i != at {
                            let a = if i < at {
                                i
                            } else {
                                i - 1
                            };
                            assert(before[a] == pair);
                            assert(before.contains(pair));
                            assert(shorter.contains(pair));
                            let m = choose|m: int| 0 <= m < shorter.len() && shorter[m] == pair;
                            assert(longer[m] == pair);
                        } else {
                            assert(longer[n as int] == pair);
                        }
                    }
                    if longer.contains(pair) {
                        let m = choose|m: int| 0 <= m < longer.len() && longer[m] == pair;
                        if m == n {
                            assert(all@[at as int] == pair);
                        } else {
                            assert(shorter[m] == pair);
                            assert(before.contains(pair));
                            let a = choose|a: int| 0 <= a < before.len() && before[a] == pair;
                            let i = if a < at {
                                a
                            } else {
                                a + 1
                            };
                            assert(all@[i] == pair);
                        }
                    }
                }
            }
        }
        proof {
            assert(entries@.take(entries@.len() as int) =~= entries@);
            assert forall|pair: (Coord, EntityId)|
                all@.contains(pair) <==> self.occupants().contains_key(pair.0)
                    && self.occupants()[pair.0] == pair.1 by {
                assert(entries@.contains(pair) <==> entries@.to_set().contains(pair));
            }
        }
        all
    }

    /// Where `id` stands, or `NotPlaced` where it does not stand on the grid.
    pub fn coord_of(&self, id: EntityId) -> (found: Result<Coord, WorldError>)
        requires
            self.wf(),
        ensures
            found == match self.position(id) {
                Some(coord) => Ok::<Coord, WorldError>(coord),
                None => Err::<Coord, WorldError>(WorldError::NotPlaced),
            },
    {
        proof {
            self.lemma_index();
        }
        if self.character.has_value(id) {
            let key = self.character.key(id);
            proof {
                let c = key_of(self.occupants(), id);
                Coord::lemma_key_round_trip(c, key);
            }
            Ok(Coord::from_key(key))
        } else {
            Err(WorldError::NotPlaced)
        }
    }

    /// The grid as text: the glyph of every cell, row by row, and a line end after
    /// each row. Who stands on the grid does not show.
    pub fn image(&self) -> (data: String)
        requires
            self.wf(),
        ensures
            data@ == plain(self.rows()),
    {
        let mut data = String::new();
        let ghost lines = glyph_rows(self.rows());
        for i in 0..self.map.len()
            invariant
                self.wf(),
                lines == glyph_rows(self.rows()),
                data@ == written(lines.take(i as int)),
        {
            let line = &self.map[i];
            let ghost before = data@;
            for j in 0..line.len()
                invariant
                    self.wf(),
                    0 <= i < self.map@.len(),
                    line@ == self.rows()[i as int],
                    data@ == before + glyphs_of(line@).take(j as int),
            {
                let t = self.terrain.of(line[j]);
                assert(self.terrain.entry(line@[j as int]).shows(line@[j as int]));
                data.push(t.glyph());
                assert(data@ =~= before + glyphs_of(line@).take(j + 1));
            }
            proof {
                reveal_strlit("\r\n");
            }
            data.append("\r\n");
            assert(glyphs_of(line@).take(line@.len() as int) =~= glyphs_of(line@));
            assert(lines.take(i + 1).drop_last() =~= lines.take(i as int));
            assert(lines.take(i + 1).last() == glyphs_of(line@));
            assert(data@ =~= written(lines.take(i + 1)));
        }
        assert(lines.take(lines.len() as int) =~= lines);
        data
    }

    /// The grid as it is painted on a terminal: the image of every cell, which is
    /// its colour and then its glyph, row by row, and a line end after each row.
    pub fn painted(&self) -> (data: String)
        requires
            self.wf(),
        ensures
            data@ == render(self.rows()),
    {
        let mut data = String::new();
        for i in 0..self.map.len()
            invariant
                self.wf(),
                data@ == render(self.rows().take(i as int)),
        {
            let line = &self.map[i];
            let ghost before = data@;
            for j in 0..line.len()
                invariant
                    self.wf(),
                    0 <= i < self.map@.len(),
                    line@ == self.rows()[i as int],
                    data@ == before + render_row(line@.take(j as int)),
            {
                let t = self.terrain.of(line[j]);
                assert(self.terrain.entry(line@[j as int]).shows(line@[j as int]));
                let picture = t.image();
                data.append(picture.as_str());
                assert(line@.take(j + 1).drop_last() =~= line@.take(j as int));
                assert(line@.take(j + 1).last() == line@[j as int]);
            }
            proof {
                reveal_strlit("\r\n");
            }
            data.append("\r\n");
            assert(line@.take(line@.len() as int) =~= line@);
            assert(self.rows().take(i + 1).drop_last() =~= self.rows().take(i as int));
            assert(data@ =~= render(self.rows().take(i + 1)));
        }
        assert(self.rows().take(self.rows().len() as int) =~= self.rows());
        data
    }

    /// The terrain of the cell at `coord`, or `OutOfBounds` where the grid has no
    /// such cell.
    pub fn terrain_at(&self, coord: Coord) -> (found: Result<&Terrain, WorldError>)
        requires
            self.wf(),
        ensures
            match found {
                Ok(t) => in_bounds(self.rows(), coord) && t.shows(self.kind_at(coord)),
                Err(e) => !in_bounds(self.rows(), coord) && e == WorldError::OutOfBounds,
            },
    {
        if coord.y < 0 || coord.x < 0 {
            return Err(WorldError::OutOfBounds);
        }
        let row = coord.y as usize;
        let column = coord.x as usize;
        if row < self.map.len() && column < self.map[row].len() {
            Ok(self.terrain.of(self.map[row][column]))
        } else {
            Err(WorldError::OutOfBounds)
        }
    }

    /// Whether an entity can enter the cell at `coord`. Only floor can be entered;
    /// a coordinate outside the grid cannot.
    pub fn can_walk(&self, coord: Coord) -> (b: bool)
        requires
            self.wf(),
        ensures
            b == self.walkable(coord),
    {
        match self.terrain_at(coord) {
            Ok(t) => t.can_walk(),
            Err(_) => false,
        }
    }

    /// How the index of occupants, which is keyed by numbers, reads as a map of
    /// coordinates.
    proof fn lemma_index(&self)
        requires
            self.wf(),
        ensures
            one_to_one(self.occupants()),
            forall|id: EntityId| holds(self.character@, id) <==> holds(self.occupants(), id),
            forall|id: EntityId|
                holds(self.occupants(), id) ==> #[trigger] key_of(self.character@, id) == key_of(
                    self.occupants(),
                    id,
                ).key_spec(),
    {
        self.character.lemma_mutual();
        assert forall|a: Coord, b: Coord|
            self.occupants().contains_key(a) && self.occupants().contains_key(b)
                && #[trigger] self.occupants()[a] == #[trigger] self.occupants()[b] implies a
            == b by {
            Coord::lemma_key_injective(a, b);
        }
        assert forall|id: EntityId| holds(self.character@, id) implies holds(
            self.occupants(),
            id,
        ) by {
            let k = key_of(self.character@, id);
            Coord::lemma_key_round_trip(Coord::from_key_spec(k), k);
            assert(self.occupants()[Coord::from_key_spec(k)] == id);
        }
        assert forall|id: EntityId| holds(self.occupants(), id) implies holds(
            self.character@,
            id,
        ) && #[trigger] key_of(self.character@, id) == key_of(self.occupants(), id).key_spec() by {
            let c = key_of(self.occupants(), id);
            assert(self.character@[c.key_spec()] == id);
        }
    }

    /// At every moment the two readings of the grid agree: the entity found at an
    /// occupied coordinate stands at that coordinate, and at the coordinate of a
    /// placed entity that entity is found.
    pub proof fn lemma_bijection(&self)
        requires
            self.wf(),
        ensures
            one_to_one(self.occupants()),
            forall|c: Coord| #[trigger]
                self.occupant(c) matches Some(id) ==> self.position(id) == Some(c),
            forall|id: EntityId| #[trigger]
                self.position(id) matches Some(c) ==> self.occupant(c) == Some(id),
    {
        self.lemma_index();
        assert forall|c: Coord| self.occupant(c) is Some implies #[trigger] self.position(
            self.occupants()[c],
        ) == Some(c) by {
            let id = self.occupants()[c];
            let d = key_of(self.occupants(), id);
            assert(self.occupants().contains_key(d) && self.occupants()[d] == id);
        }
    }
}

} // verus!
