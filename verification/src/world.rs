//! World configuration for multi-level projects: layout modes and the
//! connections between levels.

use vstd::prelude::*;
use crate::asset_browser::skip_leading;
use crate::text::{strip_leading, to_chars};
use crate::ids::Uuid;

verus! {

/// World layout mode determining how levels are organized
#[derive(Debug, Clone, Copy, PartialEq, Eq, Structural)]
pub enum WorldLayout {
    /// Levels positioned freely in 2D space
    Free,
    /// Levels snap to a world grid (like LDtk's GridVania)
    GridVania,
    /// Levels arranged horizontally in sequence
    LinearHorizontal,
    /// Levels arranged vertically in sequence
    LinearVertical,
}

impl Default for WorldLayout {
    fn default() -> (r: Self)
        ensures
            r == WorldLayout::Free,
    {
        WorldLayout::Free
    }
}

impl WorldLayout {
    /// Get display name for UI
    pub fn display_name(&self) -> (r: &'static str)
        ensures
            r@ == match self {
                WorldLayout::Free => "Free"@,
                WorldLayout::GridVania => "Grid-vania"@,
                WorldLayout::LinearHorizontal => "Linear (Horizontal)"@,
                WorldLayout::LinearVertical => "Linear (Vertical)"@,
            },
    {
        match self {
            WorldLayout::Free => "Free",
            WorldLayout::GridVania => "Grid-vania",
            WorldLayout::LinearHorizontal => "Linear (Horizontal)",
            WorldLayout::LinearVertical => "Linear (Vertical)",
        }
    }

    /// Returns all layout variants for UI enumeration
    pub fn all() -> (r: &'static [WorldLayout])
        ensures
            r@ == seq![
                WorldLayout::Free,
                WorldLayout::GridVania,
                WorldLayout::LinearHorizontal,
                WorldLayout::LinearVertical,
            ],
    {
        &[
            WorldLayout::Free,
            WorldLayout::GridVania,
            WorldLayout::LinearHorizontal,
            WorldLayout::LinearVertical,
        ]
    }
}

/// Direction/edge of a level connection
#[derive(Debug, Clone, Copy, PartialEq, Eq, Structural)]
pub enum ConnectionDirection {
    /// Top edge (exit goes up)
    North,
    /// Bottom edge (exit goes down)
    South,
    /// Right edge (exit goes right)
    East,
    /// Left edge (exit goes left)
    West,
}

impl Default for ConnectionDirection {
    fn default() -> (r: Self)
        ensures
            r == ConnectionDirection::North,
    {
        ConnectionDirection::North
    }
}

/// The direction facing the other way.
pub open spec fn spec_opposite(d: ConnectionDirection) -> ConnectionDirection {
    match d {
        ConnectionDirection::North => ConnectionDirection::South,
        ConnectionDirection::South => ConnectionDirection::North,
        ConnectionDirection::East => ConnectionDirection::West,
        ConnectionDirection::West => ConnectionDirection::East,
    }
}

impl ConnectionDirection {
    /// Get display name for UI
    pub fn display_name(&self) -> (r: &'static str)
        ensures
            r@ == match self {
                ConnectionDirection::North => "North"@,
                ConnectionDirection::South => "South"@,
                ConnectionDirection::East => "East"@,
                ConnectionDirection::West => "West"@,
            },
    {
        match self {
            ConnectionDirection::North => "North",
            ConnectionDirection::South => "South",
            ConnectionDirection::East => "East",
            ConnectionDirection::West => "West",
        }
    }

    /// Get short name for UI (single letter)
    pub fn short_name(&self) -> (r: &'static str)
        ensures
            r@ == match self {
                ConnectionDirection::North => "N"@,
                ConnectionDirection::South => "S"@,
                ConnectionDirection::East => "E"@,
                ConnectionDirection::West => "W"@,
            },
    {
        match self {
            ConnectionDirection::North => "N",
            ConnectionDirection::South => "S",
            ConnectionDirection::East => "E",
            ConnectionDirection::West => "W",
        }
    }

    /// Get the opposite direction
    pub fn opposite(&self) -> (r: ConnectionDirection)
        ensures
            r == spec_opposite(*self),
    {
        match self {
            ConnectionDirection::North => ConnectionDirection::South,
            ConnectionDirection::South => ConnectionDirection::North,
            ConnectionDirection::East => ConnectionDirection::West,
            ConnectionDirection::West => ConnectionDirection::East,
        }
    }

    /// Returns all direction variants for UI enumeration
    pub fn all() -> (r: &'static [ConnectionDirection])
        ensures
            r@ == seq![
                ConnectionDirection::North,
                ConnectionDirection::South,
                ConnectionDirection::East,
                ConnectionDirection::West,
            ],
    {
        &[
            ConnectionDirection::North,
            ConnectionDirection::South,
            ConnectionDirection::East,
            ConnectionDirection::West,
        ]
    }
}

/// The opposite of the opposite direction is the direction itself, and no
/// direction is its own opposite.
pub proof fn law_opposite_involutive(d: ConnectionDirection)
    ensures
        spec_opposite(spec_opposite(d)) == d,
        spec_opposite(d) != d,
{
}

/// A connection/exit point between two levels
#[derive(Debug, Clone, Copy, PartialEq, Eq, Structural)]
pub struct LevelConnection {
    /// Unique ID for this connection
    pub id: Uuid,
    /// Source level ID
    pub from_level: Uuid,
    /// Which edge of the source level the exit is on
    pub from_direction: ConnectionDirection,
    /// Target level ID
    pub to_level: Uuid,
    /// Which edge of the target level the entrance is on
    pub to_direction: ConnectionDirection,
}

impl LevelConnection {
    /// Create a new connection between two levels with specified directions
    pub fn new(
        from_level: Uuid,
        from_direction: ConnectionDirection,
        to_level: Uuid,
        to_direction: ConnectionDirection,
    ) -> (r: Self)
        ensures
            crate::ids::is_random_v4(r.id.value),
            r.from_level == from_level,
            r.from_direction == from_direction,
            r.to_level == to_level,
            r.to_direction == to_direction,
    {
        LevelConnection { id: Uuid::new_v4(), from_level, from_direction, to_level, to_direction }
    }

    /// Create a connection with automatic opposite direction
    /// (e.g., East exit from level A leads to West entrance of level B)
    pub fn auto_direction(
        from_level: Uuid,
        from_direction: ConnectionDirection,
        to_level: Uuid,
    ) -> (r: Self)
        ensures
            crate::ids::is_random_v4(r.id.value),
            r.from_level == from_level,
            r.from_direction == from_direction,
            r.to_level == to_level,
            r.to_direction == spec_opposite(from_direction),
    {
        LevelConnection {
            id: Uuid::new_v4(),
            from_level,
            from_direction,
            to_level,
            to_direction: from_direction.opposite(),
        }
    }
}

/// World configuration stored in the project
#[derive(Debug, Clone)]
pub struct WorldConfig {
    /// Layout mode for level organization
    pub layout: WorldLayout,
    /// Grid cell width in pixels (for GridVania mode)
    pub grid_width: u32,
    /// Grid cell height in pixels (for GridVania mode)
    pub grid_height: u32,
    /// Connections between levels
    pub connections: Vec<LevelConnection>,
}

impl Default for WorldConfig {
    fn default() -> (r: Self)
        ensures
            r.layout == WorldLayout::Free,
            r.grid_width == 256,
            r.grid_height == 256,
            r.connections@.len() == 0,
    {
        WorldConfig {
            layout: WorldLayout::Free,
            grid_width: 256,
            grid_height: 256,
            connections: Vec::new(),
        }
    }
}

/// Which connections a query selects: those leaving a level, those entering
/// it, or those touching it at either end.
pub enum ConnectionEnd {
    From,
    To,
    Either,
}

/// Whether connection `c` is selected for `level_id` at the given end.
pub open spec fn touches(c: LevelConnection, level_id: Uuid, end: ConnectionEnd) -> bool {
    match end {
        ConnectionEnd::From => c.from_level == level_id,
        ConnectionEnd::To => c.to_level == level_id,
        ConnectionEnd::Either => c.from_level == level_id || c.to_level == level_id,
    }
}

/// The connections of `s` selected for `level_id` at the given end, in order.
pub open spec fn selected(s: Seq<LevelConnection>, level_id: Uuid, end: ConnectionEnd) -> Seq<
    LevelConnection,
>
    decreases s.len(),
{
    if s.len() == 0 {
        Seq::empty()
    } else {
        let rest = selected(s.drop_last(), level_id, end);
        if touches(s.last(), level_id, end) {
            rest.push(s.last())
        } else {
            rest
        }
    }
}

/// The first position in `s` of a connection with the given id, if any.
pub open spec fn first_connection_index(s: Seq<LevelConnection>, id: Uuid) -> Option<int> {
    if exists|i: int| 0 <= i < s.len() && s[i].id == id {
        Some(
            choose|i: int|
                0 <= i < s.len() && s[i].id == id && forall|j: int| 0 <= j < i ==> s[j].id != id,
        )
    } else {
        None
    }
}

/// A connection added under an id that no connection holds yet is the one
/// that removing that id takes out, and the connections are then as before.
pub proof fn law_remove_added_connection(connections: Seq<LevelConnection>, c: LevelConnection)
    requires
        forall|i: int| 0 <= i < connections.len() ==> connections[i].id != c.id,
    ensures
        first_connection_index(connections.push(c), c.id) == Some(connections.len() as int),
        connections.push(c)[connections.len() as int] == c,
        connections.push(c).remove(connections.len() as int) == connections,
{
    let s = connections.push(c);
    assert(s[connections.len() as int].id == c.id);
    let w = choose|i: int|
        0 <= i < s.len() && s[i].id == c.id && forall|j: int| 0 <= j < i ==> s[j].id != c.id;
    assert(0 <= w < s.len() && s[w].id == c.id);
    if w < connections.len() {
        assert(s[w] == connections[w]);
    }
    assert(s.remove(connections.len() as int) =~= connections);
}

/// An added connection is listed among the connections of both levels it joins,
/// after those listed before.
pub proof fn law_added_connection_listed(connections: Seq<LevelConnection>, c: LevelConnection)
    ensures
        selected(connections.push(c), c.from_level, ConnectionEnd::From) == selected(
            connections,
            c.from_level,
            ConnectionEnd::From,
        ).push(c),
        selected(connections.push(c), c.to_level, ConnectionEnd::To) == selected(
            connections,
            c.to_level,
            ConnectionEnd::To,
        ).push(c),
        selected(connections.push(c), c.from_level, ConnectionEnd::Either) == selected(
            connections,
            c.from_level,
            ConnectionEnd::Either,
        ).push(c),
{
    assert(connections.push(c).drop_last() =~= connections);
}

impl WorldConfig {
    /// Create a new world config with the specified layout
    pub fn new(layout: WorldLayout) -> (r: Self)
        ensures
            r.layout == layout,
            r.grid_width == 256,
            r.grid_height == 256,
            r.connections@.len() == 0,
    {
        let d = WorldConfig::default();
        WorldConfig { layout, ..d }
    }

    /// Create a GridVania world config with custom grid size
    pub fn gridvania(grid_width: u32, grid_height: u32) -> (r: Self)
        ensures
            r.layout == WorldLayout::GridVania,
            r.grid_width == grid_width,
            r.grid_height == grid_height,
            r.connections@.len() == 0,
    {
        WorldConfig {
            layout: WorldLayout::GridVania,
            grid_width,
            grid_height,
            connections: Vec::new(),
        }
    }

    /// Add a connection between two levels
    pub fn add_connection(&mut self, connection: LevelConnection)
        ensures
            final(self).connections@ == old(self).connections@.push(connection),
            final(self).layout == old(self).layout,
            final(self).grid_width == old(self).grid_width,
            final(self).grid_height == old(self).grid_height,
    {
        self.connections.push(connection);
    }

    /// Remove a connection by ID
    pub fn remove_connection(&mut self, id: Uuid) -> (r: Option<LevelConnection>)
        ensures
            match first_connection_index(old(self).connections@, id) {
                Some(i) => r == Some(old(self).connections@[i]) && final(self).connections@
                    == old(self).connections@.remove(i),
                None => r is None && final(self).connections@ == old(self).connections@,
            },
            final(self).layout == old(self).layout,
            final(self).grid_width == old(self).grid_width,
            final(self).grid_height == old(self).grid_height,
    {
        match self.find_connection(id) {
            Some(i) => Some(self.connections.remove(i)),
            None => None,
        }
    }

    /// The position of the first connection with the given id.
    fn find_connection(&self, id: Uuid) -> (r: Option<usize>)
        ensures
            match r {
                Some(i) => first_connection_index(self.connections@, id) == Some(i as int) && i
                    < self.connections@.len(),
                None => first_connection_index(self.connections@, id) is None,
            },
    {
        let mut i: usize = 0;
        while i < self.connections.len()
            invariant
                i <= self.connections@.len(),
                forall|j: int| 0 <= j < i ==> self.connections@[j].id != id,
            decreases self.connections@.len() - i,
        {
            if self.connections[i].id == id {
                proof {
                    let s = self.connections@;
                    let w = choose|w: int|
                        0 <= w < s.len() && s[w].id == id && forall|j: int|
                            0 <= j < w ==> s[j].id != id;
                    assert(0 <= w < s.len() && s[w].id == id);
                    if w > i {
                        assert(s[i as int].id == id);
                    }
                }
                return Some(i);
            }
            i = i + 1;
        }
        None
    }

    /// The connections selected for a level at the given end, in their stored order.
    fn select(&self, level_id: Uuid, end: ConnectionEnd) -> (r: Vec<&LevelConnection>)
        ensures
            r@.map_values(|c: &LevelConnection| *c) == selected(self.connections@, level_id, end),
    {
        let mut r: Vec<&LevelConnection> = Vec::new();
        let mut i: usize = 0;
        while i < self.connections.len()
            invariant
                i <= self.connections@.len(),
                r@.map_values(|c: &LevelConnection| *c) == selected(
                    self.connections@.subrange(0, i as int),
                    level_id,
                    end,
                ),
            decreases self.connections@.len() - i,
        {
            let c = &self.connections[i];
            let hit = match end {
                ConnectionEnd::From => c.from_level == level_id,
                ConnectionEnd::To => c.to_level == level_id,
                ConnectionEnd::Either => c.from_level == level_id || c.to_level == level_id,
            };
            let ghost before = r@;
            if hit {
                r.push(c);
            }
            proof {
                let prefix = self.connections@.subrange(0, i + 1);
                assert(prefix.drop_last() =~= self.connections@.subrange(0, i as int));
                assert(prefix.last() == self.connections@[i as int]);
                if hit {
                    assert(r@.map_values(|c: &LevelConnection| *c) =~= before.map_values(
                        |c: &LevelConnection| *c,
                    ).push(*c));
                }
            }
            i = i + 1;
        }
        assert(self.connections@.subrange(0, self.connections@.len() as int)
            =~= self.connections@);
        r
    }

    /// Get connections originating from a specific level
    pub fn connections_from(&self, level_id: Uuid) -> (r: Vec<&LevelConnection>)
        ensures
            r@.map_values(|c: &LevelConnection| *c) == selected(
                self.connections@,
                level_id,
                ConnectionEnd::From,
            ),
    {
        self.select(level_id, ConnectionEnd::From)
    }

    /// Get connections leading to a specific level
    pub fn connections_to(&self, level_id: Uuid) -> (r: Vec<&LevelConnection>)
        ensures
            r@.map_values(|c: &LevelConnection| *c) == selected(
                self.connections@,
                level_id,
                ConnectionEnd::To,
            ),
    {
        self.select(level_id, ConnectionEnd::To)
    }

    /// Get all connections involving a specific level (as source or destination)
    pub fn connections_for(&self, level_id: Uuid) -> (r: Vec<&LevelConnection>)
        ensures
            r@.map_values(|c: &LevelConnection| *c) == selected(
                self.connections@,
                level_id,
                ConnectionEnd::Either,
            ),
    {
        self.select(level_id, ConnectionEnd::Either)
    }
}

/// Parameters for creating a new level from the world view
#[derive(Debug, Clone)]
pub struct NewLevelParams {
    pub name: String,
    pub width: u32,
    pub height: u32,
    pub world_x: i32,
    pub world_y: i32,
}

/// What the world view asks the editor to do after a frame
#[derive(Debug, Clone)]
pub struct WorldViewResult {
    /// Level to open (switch to level view)
    pub open_level: Option<Uuid>,
    /// Level to delete
    pub delete_level: Option<Uuid>,
    /// Level to duplicate
    pub duplicate_level: Option<Uuid>,
    /// Create new level with specified parameters
    pub create_level: Option<NewLevelParams>,
    /// Rename level
    pub rename_level: Option<Uuid>,
}

impl Default for WorldViewResult {
    fn default() -> (r: Self)
        ensures
            r.open_level is None,
            r.delete_level is None,
            r.duplicate_level is None,
            r.create_level is None,
            r.rename_level is None,
    {
        WorldViewResult {
            open_level: None,
            delete_level: None,
            duplicate_level: None,
            create_level: None,
            rename_level: None,
        }
    }
}

/// The background colors given to levels without a color of their own, as
/// red, green and blue.
pub open spec fn level_palette() -> Seq<(u8, u8, u8)> {
    seq![
        (60u8, 60u8, 100u8),
        (60u8, 100u8, 60u8),
        (100u8, 60u8, 60u8),
        (100u8, 100u8, 60u8),
        (60u8, 100u8, 100u8),
        (100u8, 60u8, 100u8),
        (80u8, 80u8, 80u8),
        (70u8, 90u8, 110u8),
    ]
}

/// A default background color for a level based on its index: the palette
/// taken in turn.
pub fn default_level_color(index: usize) -> (r: (u8, u8, u8))
    ensures
        r == level_palette()[(index % 8) as int],
{
    let colors: [(u8, u8, u8); 8] = [
        (60, 60, 100),
        (60, 100, 60),
        (100, 60, 60),
        (100, 100, 60),
        (60, 100, 100),
        (100, 60, 100),
        (80, 80, 80),
        (70, 90, 110),
    ];
    proof {
        assert(colors@ =~= level_palette());
    }
    colors[index % 8]
}

/// The number of bytes UTF-8 takes for `c`.
pub open spec fn utf8_width(c: char) -> nat {
    if (c as u32) < 0x80 {
        1
    } else if (c as u32) < 0x800 {
        2
    } else if (c as u32) < 0x10000 {
        3
    } else {
        4
    }
}

/// The number of bytes UTF-8 takes for `s`.
pub open spec fn utf8_len(s: Seq<char>) -> nat
    decreases s.len(),
{
    if s.len() == 0 {
        0
    } else {
        utf8_len(s.drop_last()) + utf8_width(s.last())
    }
}

/// Whether byte offset `b` of the UTF-8 text of `s` falls between characters.
pub open spec fn is_char_boundary(s: Seq<char>, b: nat) -> bool {
    exists|k: int| 0 <= k <= s.len() && #[trigger] utf8_len(s.take(k)) == b
}

/// Whether `c` is a hexadecimal digit.
pub open spec fn is_hex_digit(c: char) -> bool {
    ('0' <= c && c <= '9') || ('a' <= c && c <= 'f') || ('A' <= c && c <= 'F')
}

/// The value of the hexadecimal digit `c`.
pub open spec fn hex_value(c: char) -> int {
    if '0' <= c && c <= '9' {
        c as int - '0' as int
    } else if 'a' <= c && c <= 'f' {
        c as int - 'a' as int + 10
    } else {
        c as int - 'A' as int + 10
    }
}

/// A byte written as two characters the way `u8::from_str_radix(.., 16)`
/// reads them: two hexadecimal digits, or a plus sign and one digit.
pub open spec fn hex_byte(a: char, b: char) -> Option<u8> {
    if is_hex_digit(a) && is_hex_digit(b) {
        Some((16 * hex_value(a) + hex_value(b)) as u8)
    } else if a == '+' && is_hex_digit(b) {
        Some(hex_value(b) as u8)
    } else {
        None
    }
}

/// The color a "#rrggbb" text names: leading '#' characters dropped, the
/// rest must be six bytes long and read as three bytes of hexadecimal.
pub open spec fn hex_color(hex: Seq<char>) -> Option<(u8, u8, u8)> {
    let h = strip_leading(hex, '#');
    if h.len() == 6 && utf8_len(h) == 6 {
        match (hex_byte(h[0], h[1]), hex_byte(h[2], h[3]), hex_byte(h[4], h[5])) {
            (Some(r), Some(g), Some(b)) => Some((r, g, b)),
            _ => None,
        }
    } else {
        None
    }
}

/// The number of bytes UTF-8 takes for `c`.
fn char_utf8_width(c: char) -> (r: usize)
    ensures
        r == utf8_width(c),
{
    let v = c as u32;
    if v < 0x80 {
        1
    } else if v < 0x800 {
        2
    } else if v < 0x10000 {
        3
    } else {
        4
    }
}

/// The value of a hexadecimal digit.
fn hex_digit_value(c: char) -> (r: Option<u8>)
    ensures
        is_hex_digit(c) <==> r is Some,
        r matches Some(v) ==> v == hex_value(c) && v < 16,
{
    if '0' <= c && c <= '9' {
        Some(((c as u32) - ('0' as u32)) as u8)
    } else if 'a' <= c && c <= 'f' {
        Some(((c as u32) - ('a' as u32) + 10) as u8)
    } else if 'A' <= c && c <= 'F' {
        Some(((c as u32) - ('A' as u32) + 10) as u8)
    } else {
        None
    }
}

/// Two characters read as a hexadecimal byte (see `hex_byte`).
fn parse_hex_byte(a: char, b: char) -> (r: Option<u8>)
    ensures
        r == hex_byte(a, b),
{
    match (hex_digit_value(a), hex_digit_value(b)) {
        (Some(x), Some(y)) => Some(16 * x + y),
        (None, Some(y)) => if a == '+' {
            Some(y)
        } else {
            None
        },
        _ => None,
    }
}

/// Parse a hex color string such as "#3C3C50" to red, green and blue.
pub fn parse_hex_color(hex: &str) -> (r: Option<(u8, u8, u8)>)
    requires
        utf8_len(strip_leading(hex@, '#')) == 6 ==> is_char_boundary(strip_leading(hex@, '#'), 2)
            && is_char_boundary(strip_leading(hex@, '#'), 4),
    ensures
        r == hex_color(hex@),
{
    let chars = to_chars(hex);
    let n = chars.len();
    let start = skip_leading(&chars, 0, n, '#');
    proof {
        assert(chars@.subrange(0, n as int) =~= chars@);
    }
    let ghost h = strip_leading(hex@, '#');
    assert(chars@.subrange(start as int, n as int) == h);
    if n - start != 6 {
        return None;
    }
    let mut bytes: usize = 0;
    let mut i: usize = start;
    while i < n
        invariant
            start <= i <= n,
            n == chars@.len(),
            n - start == 6,
            h == chars@.subrange(start as int, n as int),
            bytes == utf8_len(h.take(i - start)),
            bytes <= 4 * (i - start),
        decreases n - i,
    {
        proof {
            assert(h.take(i - start + 1).drop_last() =~= h.take(i - start));
            assert(h.take(i - start + 1).last() == chars@[i as int]);
        }
        bytes = bytes + char_utf8_width(chars[i]);
        i = i + 1;
    }
    assert(h.take(6) =~= h);
    if bytes != 6 {
        return None;
    }
    let r = parse_hex_byte(chars[start], chars[start + 1]);
    let g = parse_hex_byte(chars[start + 2], chars[start + 3]);
    let b = parse_hex_byte(chars[start + 4], chars[start + 5]);
    match (r, g, b) {
        (Some(r), Some(g), Some(b)) => Some((r, g, b)),
        _ => None,
    }
}

} // verus!
