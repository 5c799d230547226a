//! The running game: a level of terrain read from a text map, the player's position and
//! the messages shown to the player, all recorded in a [`Store`].
use crate::oid::Oid;
use crate::point::{spec_distance2, Point};
use crate::random::{seeded_rng, shuffle};
use crate::shared::{Character, Command, Item, Message, MessageKind, SnapshotArgs, Species, Terrain, Tile};
use crate::store::{slot, store_read, written, Store};
use crate::text::push_char;
use crate::type_id::StoreValue;
use fnv::FnvHashMap;
use rand::rngs::SmallRng;
use std::collections::VecDeque;
use vstd::prelude::*;

verus! {

/// The most messages that the game keeps.
pub const MAX_MESSAGES: usize = 10;

/// The last of the reserved object ids (the player's and the default cell's).
pub const LAST_ID: u32 = 1;

/// The player's object id.
pub fn player_id() -> (oid: Oid)
    ensures
        oid.value == 0,
{
    Oid::without_tag(0)
}

/// The object id of the cell that stands for every location outside the level.
pub fn default_cell_id() -> (oid: Oid)
    ensures
        oid.value == 1,
{
    Oid::without_tag(1)
}

// ---------------------------------------------------------------------------------------
// The cells of the level, by location.

/// The object id of each cell of the level, by location, in a hash map with the FNV
/// hasher. The map is held privately so that the wrappers below are the only access to
/// it: vstd's `HashMap` contracts hold only for hashers that it knows to be
/// deterministic, and the FNV hasher is not among them.
#[verifier::external_body]
pub struct CellIds {
    map: FnvHashMap<Point, Oid>,
}

/// What the map holds: the object id of the cell at each (x, y).
pub uninterp spec fn cell_ids_contents(m: CellIds) -> Map<(i32, i32), u32>;

impl CellIds {
    /// Calls `FnvHashMap::default`. Trusted: the map starts empty.
    #[verifier::external_body]
    fn new() -> (m: CellIds)
        ensures
            cell_ids_contents(m).is_empty(),
    {
        CellIds { map: FnvHashMap::default() }
    }

    /// Calls `HashMap::insert`. Trusted: the location now maps to the id.
    #[verifier::external_body]
    fn insert(&mut self, loc: Point, oid: Oid)
        ensures
            cell_ids_contents(*final(self)) == cell_ids_contents(*old(self)).insert(
                (loc.x, loc.y),
                oid.value,
            ),
    {
        self.map.insert(loc, oid);
    }

    /// Calls `HashMap::get`. Trusted: the id of the location if it is present.
    #[verifier::external_body]
    fn get(&self, loc: Point) -> (r: Option<Oid>)
        ensures
            match r {
                Some(oid) => cell_ids_contents(*self).contains_key((loc.x, loc.y)) && oid.value
                    == cell_ids_contents(*self)[(loc.x, loc.y)],
                None => !cell_ids_contents(*self).contains_key((loc.x, loc.y)),
            },
    {
        self.map.get(&loc).copied()
    }
}

// ---------------------------------------------------------------------------------------
// Levels as text: one character per cell, rows separated by newlines.

/// The characters a level map may hold: walls, the player, (not yet used) characters and
/// items, and the three kinds of open terrain.
pub open spec fn level_char(c: char) -> bool {
    c == '\n' || c == '#' || c == '@' || c == 'A' || c == 'a' || c == 's' || c == ' ' || c
        == '~' || c == '_'
}

/// The terrain of the cell that a character of the map makes, if it makes one.
pub open spec fn char_terrain(c: char) -> Option<Terrain> {
    if c == ' ' || c == '@' || c == 'A' {
        Some(Terrain::Dirt)
    } else if c == '~' {
        Some(Terrain::ShallowWater)
    } else if c == '_' {
        Some(Terrain::DeepWater)
    } else {
        None
    }
}

/// The species of the character that a character of the map puts in its cell, if any: the
/// player, a human, or an Ay.
pub open spec fn char_species(c: char) -> Option<Species> {
    if c == '@' {
        Some(Species::Human)
    } else if c == 'A' {
        Some(Species::Ay)
    } else {
        None
    }
}

/// The location of the n-th character of the map: rows start at x = 0 and the first row,
/// before the first newline, is y = -1.
pub open spec fn char_loc(chars: Seq<char>, n: nat) -> (int, int)
    decreases n,
{
    if n == 0 {
        (0, -1)
    } else {
        let prev = char_loc(chars, (n - 1) as nat);
        if chars[n - 1] == '\n' {
            (0, prev.1 + 1)
        } else {
            (prev.0 + 1, prev.1)
        }
    }
}

/// The cells that the first n characters of the map make.
pub open spec fn level_cells(chars: Seq<char>, n: nat) -> Map<(int, int), Terrain>
    decreases n,
{
    if n == 0 {
        Map::empty()
    } else {
        let cells = level_cells(chars, (n - 1) as nat);
        match char_terrain(chars[n - 1]) {
            Some(t) => cells.insert(char_loc(chars, (n - 1) as nat), t),
            None => cells,
        }
    }
}

/// The species of the characters in the cells that the first n characters of the map
/// make.
pub open spec fn level_species(chars: Seq<char>, n: nat) -> Map<(int, int), Species>
    decreases n,
{
    if n == 0 {
        Map::empty()
    } else {
        let species = level_species(chars, (n - 1) as nat);
        let loc = char_loc(chars, (n - 1) as nat);
        match char_terrain(chars[n - 1]) {
            Some(_) => match char_species(chars[n - 1]) {
                Some(s) => species.insert(loc, s),
                None => species.remove(loc),
            },
            None => species,
        }
    }
}

/// How many of the first n characters of the map are the player.
pub open spec fn player_count(chars: Seq<char>, n: nat) -> nat
    decreases n,
{
    if n == 0 {
        0
    } else {
        player_count(chars, (n - 1) as nat) + if chars[n - 1] == '@' {
            1nat
        } else {
            0nat
        }
    }
}

/// Where the player is among the first n characters of the map, if there.
pub open spec fn player_start(chars: Seq<char>, n: nat) -> Option<(int, int)>
    decreases n,
{
    if n == 0 {
        None
    } else if chars[n - 1] == '@' {
        Some(char_loc(chars, (n - 1) as nat))
    } else {
        player_start(chars, (n - 1) as nat)
    }
}

/// A map the game can be built from: only known characters, exactly one player, and
/// short enough that every location and object id fits its integer type.
pub open spec fn valid_level(chars: Seq<char>) -> bool {
    &&& chars.len() < 0x7fff_0000
    &&& forall|i: int| 0 <= i < chars.len() ==> level_char(#[trigger] chars[i])
    &&& player_count(chars, chars.len()) == 1
}

/// The terrain at a location of the level built from the map: the cell's terrain, or
/// rock outside the cells.
pub open spec fn level_terrain(chars: Seq<char>, x: int, y: int) -> Terrain {
    let cells = level_cells(chars, chars.len());
    if cells.contains_key((x, y)) {
        cells[(x, y)]
    } else {
        Terrain::RockWall
    }
}

/// The species of the character at a location of the level built from the map, if one
/// stands there.
pub open spec fn level_character(chars: Seq<char>, x: int, y: int) -> Option<Species> {
    let species = level_species(chars, chars.len());
    if species.contains_key((x, y)) {
        Some(species[(x, y)])
    } else {
        None
    }
}

/// Later characters of the map are on a later row, or further along the same row.
proof fn lemma_char_loc_order(chars: Seq<char>, i: nat, j: nat)
    requires
        i <= j <= chars.len(),
    ensures
        char_loc(chars, j).1 > char_loc(chars, i).1 || (char_loc(chars, j).1 == char_loc(chars, i).1
            && char_loc(chars, j).0 == char_loc(chars, i).0 + (j - i)),
    decreases j - i,
{
    if j > i {
        lemma_char_loc_order(chars, i, (j - 1) as nat);
    }
}

/// A character of the map that is not a newline is at no other character's location.
proof fn lemma_char_locs_distinct(chars: Seq<char>, i: nat, j: nat)
    requires
        i < j < chars.len(),
        chars[i as int] != '\n',
    ensures
        char_loc(chars, i) != char_loc(chars, j),
{
    lemma_char_loc_order(chars, i + 1, j);
}

/// The player's start is the location of an `'@'` among the first n characters.
proof fn lemma_player_start_index(chars: Seq<char>, n: nat)
    requires
        n <= chars.len(),
    ensures
        player_start(chars, n) matches Some(p) ==> exists|i: int|
            0 <= i < n && chars[i] == '@' && #[trigger] char_loc(chars, i as nat) == p,
    decreases n,
{
    if n > 0 {
        lemma_player_start_index(chars, (n - 1) as nat);
        if chars[n - 1] == '@' {
            assert(char_loc(chars, (n - 1) as nat) == char_loc(chars, (n - 1) as nat));
        }
    }
}

proof fn lemma_char_loc_bounds(chars: Seq<char>, n: nat)
    requires
        n <= chars.len(),
    ensures
        0 <= char_loc(chars, n).0 <= n,
        -1 <= char_loc(chars, n).1 < n,
    decreases n,
{
    if n > 0 {
        lemma_char_loc_bounds(chars, (n - 1) as nat);
    }
}

proof fn lemma_player_start(chars: Seq<char>, n: nat)
    requires
        n <= chars.len(),
    ensures
        player_count(chars, n) == 0 <==> player_start(chars, n) is None,
    decreases n,
{
    if n > 0 {
        lemma_player_start(chars, (n - 1) as nat);
    }
}

proof fn lemma_player_count_mono(chars: Seq<char>, m: nat, n: nat)
    requires
        m <= n <= chars.len(),
    ensures
        player_count(chars, m) <= player_count(chars, n),
    decreases n,
{
    if m < n {
        lemma_player_count_mono(chars, m, (n - 1) as nat);
    }
}

/// The eight steps to the neighbours of a location.
pub open spec fn neighbor_steps() -> Seq<(i32, i32)> {
    seq![(-1i32, -1i32), (-1i32, 1i32), (-1i32, 0i32), (1i32, -1i32), (1i32, 1i32), (1i32, 0i32), (0i32, -1i32), (0i32, 1i32)]
}

/// The location one step away.
pub open spec fn stepped(loc: Point, step: (i32, i32)) -> Point {
    Point { x: (loc.x + step.0) as i32, y: (loc.y + step.1) as i32 }
}

// ---------------------------------------------------------------------------------------
// The game.

pub struct Game {
    pub messages: VecDeque<Message>,
    pub cell_ids: CellIds,
    pub store: Store,
    rng: SmallRng,
    next_oid: u32,
}

/// Every value of the type that the store holds reads back as a value of the type.
pub open spec fn readable<V: StoreValue>(contents: Map<(u32, u16), Seq<u8>>) -> bool {
    forall|k: u32| #[trigger]
        contents.contains_key(slot::<V>(Oid { value: k })) ==> V::decoding(
            contents[slot::<V>(Oid { value: k })],
        ) is Some
}

impl Game {
    pub closed spec fn spec_cells(&self) -> Map<(i32, i32), u32> {
        cell_ids_contents(self.cell_ids)
    }

    pub closed spec fn spec_store(&self) -> Map<(u32, u16), Seq<u8>> {
        self.store@
    }

    pub closed spec fn spec_messages(&self) -> Seq<Message> {
        self.messages@
    }

    pub closed spec fn spec_next_oid(&self) -> u32 {
        self.next_oid
    }

    /// The object id of the cell at the location.
    pub open spec fn cell_of(&self, loc: Point) -> Oid {
        if self.spec_cells().contains_key((loc.x, loc.y)) {
            Oid { value: self.spec_cells()[(loc.x, loc.y)] }
        } else {
            Oid { value: 1 }
        }
    }

    /// The terrain at a location.
    pub open spec fn terrain_at(&self, loc: Point) -> Terrain {
        match store_read::<Terrain>(self.spec_store(), self.cell_of(loc)) {
            Some(t) => t,
            None => Terrain::RockWall,
        }
    }

    /// Where the player is.
    pub open spec fn spec_player_loc(&self) -> Point {
        match store_read::<Point>(self.spec_store(), Oid { value: 0 }) {
            Some(p) => p,
            None => Point { x: 0, y: 0 },
        }
    }

    /// The species of the character standing in the cell with the id, if one does: the
    /// cell's character refers to the object that holds its species.
    pub open spec fn cell_species(&self, cell: Oid) -> Option<Species> {
        match store_read::<Character>(self.spec_store(), cell) {
            Some(c) => store_read::<Species>(self.spec_store(), c.oid),
            None => None,
        }
    }

    /// The species of the character standing at the location, if one does.
    pub open spec fn character_species(&self, loc: Point) -> Option<Species> {
        self.cell_species(self.cell_of(loc))
    }

    /// The cell at the location holds a character.
    pub open spec fn occupied(&self, loc: Point) -> bool {
        self.spec_store().contains_key(slot::<Character>(self.cell_of(loc)))
    }

    /// The game's rules: the store holds readable terrains, locations, characters and
    /// species; the default cell is rock and every cell of the level has a terrain; the
    /// player has a location, which is a cell where the player (a human) stands; and at
    /// most the most recent messages are kept.
    pub open spec fn wf(&self) -> bool {
        &&& readable::<Terrain>(self.spec_store())
        &&& readable::<Point>(self.spec_store())
        &&& readable::<Character>(self.spec_store())
        &&& readable::<Species>(self.spec_store())
        &&& store_read::<Terrain>(self.spec_store(), Oid { value: 1 }) == Some(Terrain::RockWall)
        &&& forall|k: (i32, i32)| #[trigger]
            self.spec_cells().contains_key(k) ==> store_read::<Terrain>(
                self.spec_store(),
                Oid { value: self.spec_cells()[k] },
            ) is Some
        &&& store_read::<Point>(self.spec_store(), Oid { value: 0 }) is Some
        &&& self.spec_cells().contains_key((self.spec_player_loc().x, self.spec_player_loc().y))
        &&& self.character_species(self.spec_player_loc()) == Some(Species::Human)
        &&& self.spec_messages().len() <= MAX_MESSAGES
    }

    /// A new object id.
    fn new_oid(&mut self) -> (oid: Oid)
        requires
            old(self).spec_next_oid() < u32::MAX,
        ensures
            oid.value == old(self).spec_next_oid(),
            final(self).spec_next_oid() == old(self).spec_next_oid() + 1,
            final(self).store@ == old(self).store@,
            final(self).spec_cells() == old(self).spec_cells(),
            final(self).messages@ == old(self).messages@,
    {
        let oid = Oid::new("cell", self.next_oid);
        self.next_oid = self.next_oid + 1;
        oid
    }
}

/// The last `n` entries of the sequence (all of them when there are fewer).
pub open spec fn newest<T>(s: Seq<T>, n: nat) -> Seq<T> {
    if s.len() <= n {
        s
    } else {
        s.subrange(s.len() - n, s.len() as int)
    }
}

/// Why the player cannot move onto the terrain, if it cannot.
pub open spec fn blocked_reason(t: Terrain) -> Option<Seq<char>> {
    match t {
        Terrain::DeepWater => Some("The water is too deep."@),
        Terrain::Dirt => None,
        Terrain::RockWall => Some("A wall is in the way."@),
        Terrain::ShallowWater => None,
    }
}

/// How a terrain is drawn in a snapshot.
pub open spec fn terrain_char(t: Terrain) -> char {
    match t {
        Terrain::DeepWater => '_',
        Terrain::Dirt => '.',
        Terrain::RockWall => '#',
        Terrain::ShallowWater => '~',
    }
}

/// The snapshot and the level map agree on terrain: water is drawn with the character
/// that builds it from the map ('~' shallow, '_' deep), rock wall with the map's wall
/// character '#' (which builds no cell, so the cell reads as rock wall), and dirt with
/// '.'; no two terrains are drawn alike, and none is drawn blank, which is kept for what
/// lies outside the radius.
pub proof fn law_terrain_drawn_as_mapped(t: Terrain, u: Terrain)
    ensures
        (t == Terrain::ShallowWater || t == Terrain::DeepWater) ==> char_terrain(terrain_char(t))
            == Some(t),
        terrain_char(t) == '#' <==> t == Terrain::RockWall,
        char_terrain('#') is None,
        t == Terrain::Dirt ==> terrain_char(t) == '.' && char_terrain(' ') == Some(t),
        terrain_char(t) == terrain_char(u) ==> t == u,
        terrain_char(t) != ' ',
{
}

fn terrain_to_char(terrain: Terrain) -> (c: char)
    ensures
        c == terrain_char(terrain),
        terrain == Terrain::ShallowWater ==> char_terrain(c) == Some(Terrain::ShallowWater),
        terrain == Terrain::DeepWater ==> char_terrain(c) == Some(Terrain::DeepWater),
{
    match terrain {
        Terrain::DeepWater => '_',
        Terrain::Dirt => '.',
        Terrain::RockWall => '#',
        Terrain::ShallowWater => '~',
    }
}

/// How a character is drawn in a snapshot.
pub open spec fn species_char(s: Species) -> char {
    match s {
        Species::Ay => 'A',
        Species::Bhederin => 'B',
        Species::Human => '@',
    }
}

/// Characters are drawn with the character the level map places them with ('@' the
/// player, 'A' an Ay); no two species are drawn alike, and none looks like terrain or
/// blank.
pub proof fn law_species_drawn_as_mapped(s: Species, o: Species, t: Terrain)
    ensures
        (s == Species::Human || s == Species::Ay) ==> char_species(species_char(s)) == Some(s),
        species_char(s) == species_char(o) ==> s == o,
        species_char(s) != terrain_char(t),
        species_char(s) != ' ',
{
}

fn species_to_char(species: Species) -> (c: char)
    ensures
        c == species_char(species),
{
    match species {
        Species::Ay => 'A',
        Species::Bhederin => 'B',
        Species::Human => '@',
    }
}

impl Game {
    /// The character drawn at the offset from the player in a snapshot of the radius:
    /// within the radius the character standing there (the player among them), or else
    /// the terrain; blanks outside it.
    pub open spec fn snapshot_char(&self, radius: int, dx: int, dy: int) -> char {
        let p = self.spec_player_loc();
        let loc = Point { x: (p.x + dx) as i32, y: (p.y + dy) as i32 };
        if dx * dx + dy * dy <= radius * radius {
            match self.character_species(loc) {
                Some(s) => species_char(s),
                None => terrain_char(self.terrain_at(loc)),
            }
        } else {
            ' '
        }
    }

    /// The row of the snapshot at the vertical offset: the cells from -radius to radius
    /// and a newline.
    pub open spec fn snapshot_row(&self, radius: int, dy: int) -> Seq<char> {
        Seq::new((2 * radius + 1) as nat, |i: int| self.snapshot_char(radius, i - radius, dy)).push(
            '\n',
        )
    }

    /// The first k rows of the snapshot, starting at the vertical offset -radius.
    pub open spec fn snapshot_rows(&self, radius: int, k: nat) -> Seq<char>
        decreases k,
    {
        if k == 0 {
            Seq::empty()
        } else {
            self.snapshot_rows(radius, (k - 1) as nat) + self.snapshot_row(radius, k - 1 - radius)
        }
    }

    /// The map part of a snapshot: its rows, from -radius to radius, and an empty line.
    pub open spec fn snapshot_map(&self, radius: int) -> Seq<char> {
        self.snapshot_rows(radius, (2 * radius + 1) as nat).push('\n')
    }

    /// The messages part of a snapshot: the last `count` messages, oldest first, a line
    /// each, and an empty line.
    pub open spec fn snapshot_messages(&self, count: int) -> Seq<char> {
        let msgs = self.spec_messages();
        let start = if msgs.len() >= count {
            msgs.len() - count
        } else {
            0
        };
        message_lines(msgs, start, msgs.len() as int).push('\n')
    }

    /// The whole snapshot for the arguments.
    pub open spec fn spec_snapshot(&self, radius: int, num_messages: int) -> Seq<char> {
        (if radius > 0 {
            self.snapshot_map(radius)
        } else {
            Seq::empty()
        }) + (if num_messages > 0 {
            self.snapshot_messages(num_messages)
        } else {
            Seq::empty()
        })
    }

    /// Where the player is.
    pub fn player_loc(&self) -> (loc: Point)
        requires
            self.wf(),
        ensures
            loc == self.spec_player_loc(),
    {
        self.store.find::<Point>(player_id()).unwrap()
    }

    /// The terrain at the location; outside the level it is the default cell's.
    pub fn get_terrain(&self, loc: Point) -> (t: Terrain)
        requires
            self.wf(),
        ensures
            t == self.terrain_at(loc),
    {
        match self.cell_ids.get(loc) {
            Some(cell_oid) => self.store.find::<Terrain>(cell_oid).unwrap(),
            None => self.store.find::<Terrain>(default_cell_id()).unwrap(),
        }
    }

    /// Why the player cannot move to the location, or `None` when it can.
    fn can_move_to(&self, loc: Point) -> (err: Option<String>)
        requires
            self.wf(),
        ensures
            match blocked_reason(self.terrain_at(loc)) {
                Some(reason) => err matches Some(s) && s@ == reason,
                None => err is None,
            },
    {
        match self.get_terrain(loc) {
            Terrain::DeepWater => Some(String::from_str("The water is too deep.")),
            Terrain::Dirt => None,
            Terrain::RockWall => Some(String::from_str("A wall is in the way.")),
            Terrain::ShallowWater => None,
        }
    }

    /// Appends a message, dropping the oldest ones beyond the most that are kept.
    fn add_message(&mut self, kind: MessageKind, text: String)
        requires
            old(self).wf(),
        ensures
            final(self).wf(),
            final(self).spec_messages() == newest(
                old(self).spec_messages().push(Message { kind, text }),
                MAX_MESSAGES as nat,
            ),
            final(self).store@ == old(self).store@,
            final(self).spec_cells() == old(self).spec_cells(),
    {
        let ghost pushed = self.messages@.push(Message { kind, text });
        self.messages.push_back(Message { kind, text });
        while self.messages.len() > MAX_MESSAGES
            invariant
                self.messages@.len() <= pushed.len(),
                self.messages@ == pushed.subrange(pushed.len() - self.messages@.len(), pushed.len() as int),
                pushed.len() <= MAX_MESSAGES + 1,
                pushed.len() == MAX_MESSAGES + 1 ==> self.messages@.len() >= MAX_MESSAGES,
                pushed.len() <= MAX_MESSAGES ==> self.messages@.len() == pushed.len(),
                self.store@ == old(self).store@,
                self.spec_cells() == old(self).spec_cells(),
            decreases self.messages@.len(),
        {
            let _ = self.messages.pop_front();
        }
        assert(self.messages@ =~= newest(pushed, MAX_MESSAGES as nat));
    }

    /// The species of the character standing at the location, if one does.
    pub fn character_at(&self, loc: Point) -> (r: Option<Species>)
        requires
            self.wf(),
        ensures
            r == self.character_species(loc),
    {
        let cell = match self.cell_ids.get(loc) {
            Some(cell) => cell,
            None => default_cell_id(),
        };
        match self.store.find::<Character>(cell) {
            Some(c) => self.store.find::<Species>(c.oid),
            None => None,
        }
    }

    /// Whether a character stands at the location.
    pub fn has_character(&self, loc: Point) -> (r: bool)
        requires
            self.wf(),
        ensures
            r == self.occupied(loc),
    {
        let cell = match self.cell_ids.get(loc) {
            Some(cell) => cell,
            None => default_cell_id(),
        };
        self.store.find::<Character>(cell).is_some()
    }

    /// What is at the location: its terrain, and the species of the character standing
    /// there, if any.
    pub fn tile(&self, loc: Point) -> (tile: Option<Tile>)
        requires
            self.wf(),
        ensures
            tile matches Some(t) && t.terrain == self.terrain_at(loc) && t.items@.len() == 0
                && t.character == self.character_species(loc),
    {
        let terrain = self.get_terrain(loc);
        let character = self.character_at(loc);
        Some(Tile { terrain, items: Vec::new(), character })
    }

    /// The tile of every location outside the level.
    pub fn default(&self) -> (tile: Tile)
        requires
            self.wf(),
        ensures
            Some(tile.terrain) == store_read::<Terrain>(self.spec_store(), Oid { value: 1 }),
            tile.items@.len() == 0,
            tile.character is None,
    {
        Tile {
            terrain: self.store.find::<Terrain>(default_cell_id()).unwrap(),
            items: Vec::new(),
            character: None,
        }
    }

    /// The kept messages, oldest first.
    pub fn messages(&self) -> (msgs: &VecDeque<Message>)
        ensures
            msgs@ == self.spec_messages(),
    {
        &self.messages
    }

    /// A text picture of the game: the map around the player within the radius, then the
    /// most recent messages.
    pub fn snapshot(&self, args: SnapshotArgs) -> (text: String)
        requires
            self.wf(),
            args.radius > 0 ==> {
                &&& args.radius <= 0x7fff
                &&& i32::MIN <= self.spec_player_loc().x - args.radius
                &&& self.spec_player_loc().x + args.radius <= i32::MAX
                &&& i32::MIN <= self.spec_player_loc().y - args.radius
                &&& self.spec_player_loc().y + args.radius <= i32::MAX
            },
        ensures
            text@ == self.spec_snapshot(args.radius as int, args.num_messages as int),
    {
        let mut result = String::new();
        if args.radius > 0 {
            self.snapshot_map_into(&mut result, args.radius);
        }
        let ghost map_part = result@;
        if args.num_messages > 0 {
            self.snapshot_messages_into(&mut result, args.num_messages as usize);
        }
        assert(result@ =~= self.spec_snapshot(args.radius as int, args.num_messages as int));
        result
    }

    fn snapshot_map_into(&self, result: &mut String, radius: i32)
        requires
            self.wf(),
            0 < radius <= 0x7fff,
            i32::MIN <= self.spec_player_loc().x - radius,
            self.spec_player_loc().x + radius <= i32::MAX,
            i32::MIN <= self.spec_player_loc().y - radius,
            self.spec_player_loc().y + radius <= i32::MAX,
        ensures
            final(result)@ == old(result)@ + self.snapshot_map(radius as int),
    {
        let player_loc = self.player_loc();
        let ghost start = result@;
        let mut dy: i32 = -radius;
        while dy <= radius
            invariant
                self.wf(),
                0 < radius <= 0x7fff,
                -radius <= dy <= radius + 1,
                player_loc == self.spec_player_loc(),
                i32::MIN <= player_loc.x - radius,
                player_loc.x + radius <= i32::MAX,
                i32::MIN <= player_loc.y - radius,
                player_loc.y + radius <= i32::MAX,
                result@ == start + self.snapshot_rows(radius as int, (dy + radius) as nat),
            decreases radius + 1 - dy,
        {
            let ghost row_start = result@;
            let mut dx: i32 = -radius;
            while dx <= radius
                invariant
                    self.wf(),
                    0 < radius <= 0x7fff,
                    -radius <= dy <= radius,
                    -radius <= dx <= radius + 1,
                    player_loc == self.spec_player_loc(),
                    i32::MIN <= player_loc.x - radius,
                    player_loc.x + radius <= i32::MAX,
                    i32::MIN <= player_loc.y - radius,
                    player_loc.y + radius <= i32::MAX,
                    result@ == row_start + Seq::new(
                        (dx + radius) as nat,
                        |i: int| self.snapshot_char(radius as int, i - radius, dy as int),
                    ),
                decreases radius + 1 - dx,
            {
                let loc = Point::new(player_loc.x + dx, player_loc.y + dy);
                assert(dx * dx <= 0x7fff * 0x7fff) by (nonlinear_arith)
                    requires
                        -0x7fff <= dx <= 0x7fff,
                ;
                assert(dy * dy <= 0x7fff * 0x7fff) by (nonlinear_arith)
                    requires
                        -0x7fff <= dy <= 0x7fff,
                ;
                assert(radius * radius <= 0x7fff * 0x7fff) by (nonlinear_arith)
                    requires
                        0 < radius <= 0x7fff,
                ;
                let ch = if loc.distance2(&player_loc) <= radius * radius {
                    match self.character_at(loc) {
                        Some(species) => species_to_char(species),
                        None => terrain_to_char(self.get_terrain(loc)),
                    }
                } else {
                    ' '
                };
                push_char(result, ch);
                proof {
                    assert(result@ =~= row_start + Seq::new(
                        (dx + 1 + radius) as nat,
                        |i: int| self.snapshot_char(radius as int, i - radius, dy as int),
                    ));
                }
                dx = dx + 1;
            }
            push_char(result, '\n');
            proof {
                assert(result@ =~= start + self.snapshot_rows(radius as int, (dy + 1 + radius) as nat));
            }
            dy = dy + 1;
        }
        push_char(result, '\n');
    }

    fn snapshot_messages_into(&self, result: &mut String, count: usize)
        requires
            self.wf(),
            0 < count,
        ensures
            final(result)@ == old(result)@ + self.snapshot_messages(count as int),
    {
        let ghost start = result@;
        let len = self.messages.len();
        let n = if len >= count {
            len - count
        } else {
            0
        };
        let mut i = n;
        while i < len
            invariant
                len == self.messages@.len(),
                n <= i <= len,
                n == (if len >= count { len - count } else { 0 }),
                result@ == start + message_lines(self.messages@, n as int, i as int),
            decreases len - i,
        {
            let m = &self.messages[i];
            result.append(m.text.as_str());
            push_char(result, '\n');
            proof {
                assert(result@ =~= start + message_lines(self.messages@, n as int, i + 1));
            }
            i = i + 1;
        }
        push_char(result, '\n');
    }

    /// A neighbour of the location, tried in a random order, that the predicate accepts;
    /// `None` when the predicate refused each of the eight.
    pub fn find_neighbor<F>(&mut self, loc: Point, predicate: F) -> (r: Option<Point>)
        where
            F: Fn(&Point) -> bool,
        requires
            i32::MIN < loc.x < i32::MAX,
            i32::MIN < loc.y < i32::MAX,
            forall|p: Point| predicate.requires((&p,)),
        ensures
            r matches Some(p) ==> (exists|i: int| 0 <= i < 8 && p == stepped(loc, #[trigger] neighbor_steps()[i]))
                && predicate.ensures((&p,), true),
            r is None ==> forall|i: int| 0 <= i < 8 ==> predicate.ensures((&stepped(loc, #[trigger] neighbor_steps()[i]),), false),
            final(self).spec_store() == old(self).spec_store(),
            final(self).spec_cells() == old(self).spec_cells(),
            final(self).spec_messages() == old(self).spec_messages(),
            final(self).spec_next_oid() == old(self).spec_next_oid(),
    {
        let mut deltas: Vec<(i32, i32)> = vec![(-1, -1), (-1, 1), (-1, 0), (1, -1), (1, 1), (1, 0), (0, -1), (0, 1)];
        proof {
            assert(deltas@ =~= neighbor_steps());
        }
        let ghost all = deltas@;
        shuffle(&mut deltas, &mut self.rng);
        proof {
            broadcast use vstd::seq_lib::group_to_multiset_ensures;

            assert forall|i: int| 0 <= i < deltas@.len() implies all.contains(#[trigger] deltas@[i]) by {
                assert(deltas@.contains(deltas@[i]));
                assert(deltas@.to_multiset().count(deltas@[i]) > 0);
            }
            assert forall|i: int| 0 <= i < all.len() implies deltas@.contains(#[trigger] all[i]) by {
                assert(all.contains(all[i]));
                assert(all.to_multiset().count(all[i]) > 0);
            }
        }
        let mut k: usize = 0;
        while k < deltas.len()
            invariant
                all == neighbor_steps(),
                k <= deltas@.len(),
                self.spec_store() == old(self).spec_store(),
                self.spec_cells() == old(self).spec_cells(),
                self.spec_messages() == old(self).spec_messages(),
                self.spec_next_oid() == old(self).spec_next_oid(),
                i32::MIN < loc.x < i32::MAX,
                i32::MIN < loc.y < i32::MAX,
                forall|p: Point| predicate.requires((&p,)),
                forall|i: int| 0 <= i < deltas@.len() ==> all.contains(#[trigger] deltas@[i]),
                forall|i: int| 0 <= i < all.len() ==> deltas@.contains(#[trigger] all[i]),
                forall|j: int| 0 <= j < k ==> predicate.ensures((&stepped(loc, #[trigger] deltas@[j]),), false),
            decreases deltas@.len() - k,
        {
            let delta = deltas[k];
            proof {
                assert(all.contains(delta));
            }
            let new_loc = Point::new(loc.x + delta.0, loc.y + delta.1);
            if predicate(&new_loc) {
                proof {
                    let i = choose|i: int| 0 <= i < all.len() && all[i] == delta;
                    assert(new_loc == stepped(loc, neighbor_steps()[i]));
                }
                return Some(new_loc);
            }
            k = k + 1;
        }
        proof {
            assert forall|i: int| 0 <= i < 8 implies predicate.ensures((&stepped(loc, #[trigger] neighbor_steps()[i]),), false) by {
                assert(deltas@.contains(all[i]));
                let j = choose|j: int| 0 <= j < deltas@.len() && deltas@[j] == all[i];
                assert(predicate.ensures((&stepped(loc, deltas@[j]),), false));
            }
        }
        None
    }

    /// Where a move by the step takes the player.
    pub open spec fn moved_to(&self, delta: Point) -> Point {
        let p = self.spec_player_loc();
        Point { x: (p.x + delta.x) as i32, y: (p.y + delta.y) as i32 }
    }

    /// Carries out the player's command: a move onto open terrain moves the player (the
    /// player's character goes from the old cell to the new one), and a blocked move
    /// leaves a message saying why. Moving onto another character is not allowed.
    pub fn execute(&mut self, command: Command)
        requires
            old(self).wf(),
            match command {
                Command::Move(delta) => {
                    &&& i32::MIN <= old(self).spec_player_loc().x + delta.x <= i32::MAX
                    &&& i32::MIN <= old(self).spec_player_loc().y + delta.y <= i32::MAX
                    &&& blocked_reason(old(self).terrain_at(old(self).moved_to(delta))) is None
                        && old(self).cell_of(old(self).moved_to(delta)) != old(self).cell_of(
                        old(self).spec_player_loc(),
                    ) ==> !old(self).occupied(old(self).moved_to(delta))
                },
            },
        ensures
            final(self).wf(),
            forall|loc: Point| #[trigger] final(self).terrain_at(loc) == old(self).terrain_at(loc),
            final(self).spec_cells() == old(self).spec_cells(),
            match command {
                Command::Move(delta) => {
                    let old_loc = old(self).spec_player_loc();
                    let new_loc = old(self).moved_to(delta);
                    match blocked_reason(old(self).terrain_at(new_loc)) {
                        Some(reason) => {
                            &&& final(self).spec_store() == old(self).spec_store()
                            &&& final(self).spec_messages().len() > 0
                            &&& final(self).spec_messages().last().kind == MessageKind::PlayerFailed
                            &&& final(self).spec_messages().last().text@ == reason
                            &&& final(self).spec_messages().drop_last() == newest(
                                old(self).spec_messages(),
                                (MAX_MESSAGES - 1) as nat,
                            )
                        },
                        None => {
                            let from = slot::<Character>(old(self).cell_of(old_loc));
                            &&& final(self).spec_store() == old(self).spec_store().remove(from).insert(
                                slot::<Character>(old(self).cell_of(new_loc)),
                                old(self).spec_store()[from],
                            ).insert(slot::<Point>(Oid { value: 0 }), new_loc.encoding())
                            &&& final(self).spec_player_loc() == new_loc
                            &&& final(self).spec_messages() == old(self).spec_messages()
                        },
                    }
                },
            },
    {
        match command {
            Command::Move(delta) => {
                let old_loc = self.player_loc();
                let new_loc = Point::new(old_loc.x + delta.x, old_loc.y + delta.y);
                if let Some(err) = self.can_move_to(new_loc) {
                    self.add_message(MessageKind::PlayerFailed, err);
                } else {
                    let ghost before = *self;
                    let old_cell = self.cell_ids.get(old_loc).unwrap();
                    let new_cell = match self.cell_ids.get(new_loc) {
                        Some(cell) => cell,
                        None => {
                            proof {
                                assert(self.terrain_at(new_loc) == Terrain::RockWall);
                            }
                            default_cell_id()
                        },
                    };
                    proof {
                        assert(self.spec_store().contains_key(slot::<Character>(old_cell)));
                    }
                    self.store.transfer::<Character>(old_cell, new_cell);
                    let ghost mid = self.spec_store();
                    let _ = self.store.replace(player_id(), new_loc);
                    proof {
                        let st = self.spec_store();
                        let c = store_read::<Character>(before.spec_store(), old_cell)->0;
                        assert(store_read::<Character>(st, new_cell) == Some(c));
                        assert(store_read::<Species>(st, c.oid) == store_read::<Species>(before.spec_store(), c.oid));
                        assert(readable::<Terrain>(st)) by {
                            assert forall|k: u32| #[trigger] st.contains_key(slot::<Terrain>(Oid { value: k })) implies Terrain::decoding(
                                st[slot::<Terrain>(Oid { value: k })],
                            ) is Some by {
                                assert(before.spec_store().contains_key(slot::<Terrain>(Oid { value: k })));
                            }
                        }
                        assert(readable::<Species>(st)) by {
                            assert forall|k: u32| #[trigger] st.contains_key(slot::<Species>(Oid { value: k })) implies Species::decoding(
                                st[slot::<Species>(Oid { value: k })],
                            ) is Some by {
                                assert(before.spec_store().contains_key(slot::<Species>(Oid { value: k })));
                            }
                        }
                        assert(readable::<Character>(st)) by {
                            assert forall|k: u32| #[trigger] st.contains_key(slot::<Character>(Oid { value: k })) implies Character::decoding(
                                st[slot::<Character>(Oid { value: k })],
                            ) is Some by {
                                if k != new_cell.value {
                                    assert(before.spec_store().contains_key(slot::<Character>(Oid { value: k })));
                                }
                            }
                        }
                        assert(readable::<Point>(st)) by {
                            assert forall|k: u32| #[trigger] st.contains_key(slot::<Point>(Oid { value: k })) implies Point::decoding(
                                st[slot::<Point>(Oid { value: k })],
                            ) is Some by {
                                if k != 0 {
                                    assert(before.spec_store().contains_key(slot::<Point>(Oid { value: k })));
                                }
                            }
                        }
                        assert(forall|loc: Point| #[trigger] self.terrain_at(loc) == before.terrain_at(loc));
                    }
                }
            },
        }
    }
}

/// The lines of the messages from `from` up to `to`: each message's text and a newline.
pub open spec fn message_lines(msgs: Seq<Message>, from: int, to: int) -> Seq<char>
    decreases to - from,
{
    if to <= from {
        Seq::empty()
    } else {
        message_lines(msgs, from, to - 1) + msgs[to - 1].text@.push('\n')
    }
}

/// The level a new game starts on.
#[verifier::allow_in_spec]
pub fn built_in_level() -> &'static str
    returns
        "
###########################################################
#                                                         #
#       #######                                           #
#       #a   s#                                           #
#       #     #                                           #
#       ### ###                            A              #
#                                                         #
#                                                         #
#                   @                                     #
#                                ~                        #
#                               ~_~                       #
#                                ~                        #
#                                                         #
#                                                         #
#            A                                            #
#                                      A                  #
#                                                         #
###########################################################",
{
    "
###########################################################
#                                                         #
#       #######                                           #
#       #a   s#                                           #
#       #     #                                           #
#       ### ###                            A              #
#                                                         #
#                                                         #
#                   @                                     #
#                                ~                        #
#                               ~_~                       #
#                                ~                        #
#                                                         #
#                                                         #
#            A                                            #
#                                      A                  #
#                                                         #
###########################################################"
}

/// A new game on the built-in level (which a game can be built from: the tests check it).
pub fn new(seed: u64) -> (game: Option<Game>)
    ensures
        game is Some <==> valid_level(built_in_level()@),
        game matches Some(g) ==> g.wf() && g.spec_messages().len() == 0,
{
    try_with_level(built_in_level(), seed)
}

/// Whether a game can be built from the map.
pub fn check_level(level: &str) -> (ok: bool)
    ensures
        ok == valid_level(level@),
{
    broadcast use vstd::string::axiom_spec_iter;

    let ghost chars = level@;
    let mut count: u32 = 0;
    let mut players: u32 = 0;
    let mut all_known = true;
    let ghost mut n: nat = 0;
    for ch in it: level.chars()
        invariant
            chars == level@,
            it.seq() == chars,
            n == it.index(),
            n <= chars.len(),
            count == n,
            n < 0x7fff_0000,
            players == player_count(chars, n),
            players <= n,
            all_known == (forall|i: int| 0 <= i < n ==> level_char(#[trigger] chars[i])),
    {
        proof {
            assert(chars[n as int] == ch);
        }
        if count == 0x7ffe_ffff {
            return false;
        }
        count = count + 1;
        if ch == '@' {
            players = players + 1;
        }
        let known = ch == '\n' || ch == '#' || ch == '@' || ch == 'A' || ch == 'a' || ch == 's'
            || ch == ' ' || ch == '~' || ch == '_';
        all_known = all_known && known;
        proof {
            n = n + 1;
        }
    }
    all_known && players == 1
}

/// Builds a game from the map, or `None` when the map is not one a game can be built from.
pub fn try_with_level(level: &str, seed: u64) -> (game: Option<Game>)
    ensures
        game is Some <==> valid_level(level@),
        game matches Some(g) ==> {
            &&& g.wf()
            &&& g.spec_messages().len() == 0
            &&& forall|loc: Point| #[trigger]
                g.terrain_at(loc) == level_terrain(level@, loc.x as int, loc.y as int)
            &&& player_start(level@, level@.len()) == Some(
                (g.spec_player_loc().x as int, g.spec_player_loc().y as int),
            )
            &&& forall|loc: Point| #[trigger]
                g.character_species(loc) == level_character(level@, loc.x as int, loc.y as int)
        },
{
    if check_level(level) {
        Some(with_level(level, seed))
    } else {
        None
    }
}

/// Builds a game from a text map, with the random number generator seeded.
pub fn with_level(level: &str, seed: u64) -> (game: Game)
    requires
        valid_level(level@),
    ensures
        game.wf(),
        game.spec_messages().len() == 0,
        forall|loc: Point| #[trigger]
            game.terrain_at(loc) == level_terrain(level@, loc.x as int, loc.y as int),
        player_start(level@, level@.len()) == Some(
            (game.spec_player_loc().x as int, game.spec_player_loc().y as int),
        ),
        forall|loc: Point| #[trigger]
            game.character_species(loc) == level_character(level@, loc.x as int, loc.y as int),
{
    let rng = seeded_rng(seed);
    let mut game = Game {
        messages: VecDeque::new(),
        cell_ids: CellIds::new(),
        store: Store::new(),
        next_oid: LAST_ID + 1,
        rng,
    };
    build_level(&mut game, level);
    game
}

/// The player's start is a cell of the level, where a human stands.
proof fn lemma_level_player(chars: Seq<char>, n: nat)
    requires
        n <= chars.len(),
    ensures
        player_start(chars, n) matches Some(p) ==> {
            &&& level_cells(chars, n).contains_key(p)
            &&& level_species(chars, n).contains_key(p)
            &&& level_species(chars, n)[p] == Species::Human
        },
    decreases n,
{
    if n > 0 {
        lemma_level_player(chars, (n - 1) as nat);
        if chars[n - 1] != '@' && player_start(chars, n) is Some {
            let p = player_start(chars, n)->0;
            lemma_player_start_index(chars, (n - 1) as nat);
            let i = choose|i: int| 0 <= i < n - 1 && chars[i] == '@' && #[trigger] char_loc(chars, i as nat) == p;
            lemma_char_locs_distinct(chars, i as nat, (n - 1) as nat);
        }
    }
}

/// Reads the map into the cells of the level, the characters in them, and the player's
/// location.
fn build_level(game: &mut Game, level: &str)
    requires
        valid_level(level@),
        old(game).store@.is_empty(),
        old(game).spec_cells().is_empty(),
        old(game).messages@.len() == 0,
        old(game).spec_next_oid() == LAST_ID + 1,
    ensures
        final(game).wf(),
        final(game).messages@.len() == 0,
        forall|loc: Point| #[trigger]
            final(game).terrain_at(loc) == level_terrain(level@, loc.x as int, loc.y as int),
        player_start(level@, level@.len()) == Some(
            (final(game).spec_player_loc().x as int, final(game).spec_player_loc().y as int),
        ),
        forall|loc: Point| #[trigger]
            final(game).character_species(loc) == level_character(level@, loc.x as int, loc.y as int),
{
    broadcast use vstd::string::axiom_spec_iter;

    let ghost chars = level@;
    game.store.create(default_cell_id(), Terrain::RockWall);
    let mut loc = Point::new(0, -1);
    let ghost mut n: nat = 0;
    for ch in it: level.chars()
        invariant
            chars == level@,
            valid_level(chars),
            it.seq() == chars,
            n == it.index(),
            n <= chars.len(),
            loc.x as int == char_loc(chars, n).0,
            loc.y as int == char_loc(chars, n).1,
            game.messages@.len() == 0,
            LAST_ID + 1 <= game.spec_next_oid() <= LAST_ID + 1 + 2 * n,
            readable::<Terrain>(game.store@),
            readable::<Point>(game.store@),
            readable::<Character>(game.store@),
            readable::<Species>(game.store@),
            forall|k: u32| k >= game.spec_next_oid() ==> !#[trigger] game.store@.contains_key((k, 1u16)),
            forall|k: u32| k >= game.spec_next_oid() ==> !#[trigger] game.store@.contains_key((k, 4u16)),
            !game.store@.contains_key((1u32, 1u16)),
            forall|k: u32| #[trigger] game.store@.contains_key((k, 1u16)) ==> game.store@.contains_key(
                slot::<Species>(store_read::<Character>(game.store@, Oid { value: k })->0.oid),
            ),
            forall|x: i32, y: i32|
                #![trigger game.spec_cells().contains_key((x, y))]
                game.spec_cells().contains_key((x, y)) ==> game.cell_species(
                    Oid { value: game.spec_cells()[(x, y)] },
                ) == (if level_species(chars, n).contains_key((x as int, y as int)) {
                    Some(level_species(chars, n)[(x as int, y as int)])
                } else {
                    None
                }),
            forall|p: (int, int)| #[trigger]
                level_species(chars, n).contains_key(p) ==> level_cells(chars, n).contains_key(p),
            player_count(chars, n) == 0 ==> !game.store@.contains_key((0u32, 4u16)),
            store_read::<Terrain>(game.store@, Oid { value: 1 }) == Some(Terrain::RockWall),
            forall|k: u32| 2 <= k && #[trigger] game.store@.contains_key((k, 5u16)) ==> k
                < game.spec_next_oid(),
            forall|k: u32| k >= game.spec_next_oid() ==> !#[trigger] game.store@.contains_key((k, 5u16)),
            forall|k: (i32, i32)| #[trigger]
                game.spec_cells().contains_key(k) ==> 2 <= game.spec_cells()[k]
                    < game.spec_next_oid(),
            forall|x: i32, y: i32|
                #![trigger game.spec_cells().contains_key((x, y))]
                (game.spec_cells().contains_key((x, y)) <==> level_cells(chars, n).contains_key(
                    (x as int, y as int),
                )),
            forall|x: i32, y: i32|
                #![trigger game.spec_cells().contains_key((x, y))]
                game.spec_cells().contains_key((x, y)) ==> store_read::<Terrain>(
                    game.store@,
                    Oid { value: game.spec_cells()[(x, y)] },
                ) == Some(level_cells(chars, n)[(x as int, y as int)]),
            forall|p: (int, int)| #[trigger]
                level_cells(chars, n).contains_key(p) ==> i32::MIN <= p.0 <= i32::MAX && i32::MIN
                    <= p.1 <= i32::MAX,
            player_count(chars, n) == 0 ==> !game.store@.contains_key((0u32, 3u16)),
            player_count(chars, n) == 1 ==> (store_read::<Point>(game.store@, Oid { value: 0 })
                matches Some(p) && player_start(chars, n) == Some((p.x as int, p.y as int))),
            player_count(chars, n) <= 1,
    {
        proof {
            lemma_char_loc_bounds(chars, n);
            lemma_player_count_mono(chars, n + 1, chars.len());
            assert(chars[n as int] == ch);
        }
        let ghost before = *game;
        if ch != '\n' {
            if ch == '@' {
                game.store.create(player_id(), Species::Human);
                let oid = game.new_oid();
                game.cell_ids.insert(loc, oid);
                game.store.create(oid, Terrain::Dirt);
                game.store.create(oid, Character { oid: player_id() });
                game.store.create(player_id(), loc);
            } else if ch == 'A' {
                let ay = game.new_oid();
                game.store.create(ay, Species::Ay);
                let oid = game.new_oid();
                game.cell_ids.insert(loc, oid);
                game.store.create(oid, Terrain::Dirt);
                game.store.create(oid, Character { oid: ay });
            } else if ch == ' ' {
                let oid = game.new_oid();
                game.cell_ids.insert(loc, oid);
                game.store.create(oid, Terrain::Dirt);
            } else if ch == '~' {
                let oid = game.new_oid();
                game.cell_ids.insert(loc, oid);
                game.store.create(oid, Terrain::ShallowWater);
            } else if ch == '_' {
                let oid = game.new_oid();
                game.cell_ids.insert(loc, oid);
                game.store.create(oid, Terrain::DeepWater);
            }
            loc = Point::new(loc.x + 1, loc.y);
        } else {
            loc = Point::new(0, loc.y + 1);
        }
        proof {
            n = n + 1;
            assert forall|p: (int, int)| #[trigger]
                level_cells(chars, n).contains_key(p) implies i32::MIN <= p.0 <= i32::MAX
                && i32::MIN <= p.1 <= i32::MAX by {
                if p != char_loc(chars, (n - 1) as nat) {
                    assert(level_cells(chars, (n - 1) as nat).contains_key(p));
                }
            }
            assert forall|p: (int, int)| #[trigger]
                level_species(chars, n).contains_key(p) implies level_cells(chars, n).contains_key(p) by {
                if p != char_loc(chars, (n - 1) as nat) {
                    assert(level_species(chars, (n - 1) as nat).contains_key(p));
                }
            }
        }
    }
    proof {
        lemma_player_start(chars, chars.len());
        lemma_level_player(chars, chars.len());
        assert forall|loc: Point| #[trigger]
            game.character_species(loc) == level_character(chars, loc.x as int, loc.y as int) by {
            if game.spec_cells().contains_key((loc.x, loc.y)) {
            } else {
                if level_species(chars, chars.len()).contains_key((loc.x as int, loc.y as int)) {
                    assert(level_cells(chars, chars.len()).contains_key((loc.x as int, loc.y as int)));
                }
            }
        }
        assert forall|k: (i32, i32)| #[trigger]
            game.spec_cells().contains_key(k) implies store_read::<Terrain>(
            game.store@,
            Oid { value: game.spec_cells()[k] },
        ) is Some by {
            let (x, y) = k;
            assert(game.spec_cells().contains_key((x, y)));
        }
    }
}

} // verus!
