//! A single tile and its interaction state machine.

use vstd::prelude::*;

verus! {

/// Handle of a tile: the slot of its record in the round's tile store.
#[derive(Clone, Copy, Debug, PartialEq, Eq, Hash, Structural)]
pub struct TileId {
    pub index: usize,
}

/// What the player has done to a tile so far. `Opened` is terminal.
#[derive(Clone, Copy, Debug, PartialEq, Eq, Hash, Structural)]
pub enum TileState {
    Unopened,
    Opened,
    Flagged,
}

/// How a tile is to be painted.
#[derive(Clone, Copy, Debug, PartialEq, Eq, Hash, Structural)]
pub enum Appearance {
    /// Not opened and not flagged.
    Neutral,
    /// Carrying a flag.
    Flagged,
    /// Opened and safe.
    Revealed,
    /// Opened on a mine.
    Detonated,
}

/// Colour of the numeric label on a revealed tile.
#[derive(Clone, Copy, Debug, PartialEq, Eq, Hash, Structural)]
pub enum LabelColor {
    Blue,
    Green,
    Red,
    Navy,
    Maroon,
    Teal,
    Black,
    Gray,
}

/// Numeric label shown on a revealed tile that has mined neighbours.
#[derive(Clone, Copy, Debug, PartialEq, Eq, Hash, Structural)]
pub struct Label {
    pub count: u8,
    pub color: LabelColor,
}

/// One grid cell: its interaction state, whether it hides a mine, and how
/// many of its neighbours do.
#[derive(Clone, Copy, Debug, PartialEq, Eq, Hash, Structural)]
pub struct Tile {
    pub state: TileState,
    pub is_mined: bool,
    pub adjacent_mines: u8,
}

/// The fixed table from a neighbour count to the colour of its label.
pub open spec fn label_color_of(count: u8) -> LabelColor {
    if count == 1 {
        LabelColor::Blue
    } else if count == 2 {
        LabelColor::Green
    } else if count == 3 {
        LabelColor::Red
    } else if count == 4 {
        LabelColor::Navy
    } else if count == 5 {
        LabelColor::Maroon
    } else if count == 6 {
        LabelColor::Teal
    } else if count == 7 {
        LabelColor::Black
    } else {
        LabelColor::Gray
    }
}

/// Looks a neighbour count up in the colour table.
pub fn label_color(count: u8) -> (color: LabelColor)
    ensures
        color == label_color_of(count),
{
    match count {
        1 => LabelColor::Blue,
        2 => LabelColor::Green,
        3 => LabelColor::Red,
        4 => LabelColor::Navy,
        5 => LabelColor::Maroon,
        6 => LabelColor::Teal,
        7 => LabelColor::Black,
        _ => LabelColor::Gray,
    }
}

impl Tile {
    /// A tile as it is allocated: unopened, no mine, no mined neighbours.
    pub open spec fn pristine() -> Tile {
        Tile { state: TileState::Unopened, is_mined: false, adjacent_mines: 0 }
    }

    /// Whether the tile still reacts to input: every state but `Opened` does.
    pub open spec fn is_live(self) -> bool {
        self.state != TileState::Opened
    }

    /// The tile after an open: `Opened` from any state, nothing else touched.
    pub open spec fn opened(self) -> Tile {
        Tile { state: TileState::Opened, ..self }
    }

    /// The tile after a flag: `Unopened` and `Flagged` swap, `Opened` stays.
    pub open spec fn flag_toggled(self) -> Tile {
        match self.state {
            TileState::Unopened => Tile { state: TileState::Flagged, ..self },
            TileState::Flagged => Tile { state: TileState::Unopened, ..self },
            TileState::Opened => self,
        }
    }

    /// How the tile is painted in its current state.
    pub open spec fn appearance_of(self) -> Appearance {
        match self.state {
            TileState::Unopened => Appearance::Neutral,
            TileState::Flagged => Appearance::Flagged,
            TileState::Opened => if self.is_mined {
                Appearance::Detonated
            } else {
                Appearance::Revealed
            },
        }
    }

    /// The label the tile carries: only an opened, safe tile with at least
    /// one mined neighbour has one.
    pub open spec fn label_of(self) -> Option<Label> {
        if self.state == TileState::Opened && !self.is_mined && self.adjacent_mines > 0 {
            Some(Label { count: self.adjacent_mines, color: label_color_of(self.adjacent_mines) })
        } else {
            None
        }
    }

    /// Allocates a pristine tile.
    pub fn new() -> (tile: Tile)
        ensures
            tile == Tile::pristine(),
    {
        Tile { state: TileState::Unopened, is_mined: false, adjacent_mines: 0 }
    }

    /// Primary interaction. Opens the tile unless it is open already; the
    /// result tells whether anything changed.
    pub fn open(&mut self) -> (changed: bool)
        ensures
            changed == old(self).is_live(),
            *final(self) == old(self).opened(),
    {
        if self.state == TileState::Opened {
            false
        } else {
            self.state = TileState::Opened;
            true
        }
    }

    /// Secondary interaction. Sets or clears the flag unless the tile is
    /// open; the result tells whether anything changed.
    pub fn toggle_flag(&mut self) -> (changed: bool)
        ensures
            changed == old(self).is_live(),
            *final(self) == old(self).flag_toggled(),
    {
        match self.state {
            TileState::Unopened => {
                self.state = TileState::Flagged;
                true
            },
            TileState::Flagged => {
                self.state = TileState::Unopened;
                true
            },
            TileState::Opened => false,
        }
    }

    /// How the tile is to be painted.
    pub fn appearance(&self) -> (look: Appearance)
        ensures
            look == self.appearance_of(),
    {
        match self.state {
            TileState::Unopened => Appearance::Neutral,
            TileState::Flagged => Appearance::Flagged,
            TileState::Opened => if self.is_mined {
                Appearance::Detonated
            } else {
                Appearance::Revealed
            },
        }
    }

    /// The numeric label to attach to the tile, if it has one.
    pub fn label(&self) -> (label: Option<Label>)
        ensures
            label == self.label_of(),
    {
        if self.state == TileState::Opened && !self.is_mined && self.adjacent_mines > 0 {
            Some(Label { count: self.adjacent_mines, color: label_color(self.adjacent_mines) })
        } else {
            None
        }
    }
}

/// Opening is idempotent: a second open changes neither the tile nor what
/// is shown for it, and an opened tile no longer reacts to input.
pub proof fn lemma_open_idempotent(tile: Tile)
    ensures
        tile.opened().opened() == tile.opened(),
        tile.opened().opened().appearance_of() == tile.opened().appearance_of(),
        tile.opened().opened().label_of() == tile.opened().label_of(),
        !tile.opened().is_live(),
{
}

/// Flagging has period two on a tile that is not open: from `Unopened` the
/// states run `Flagged`, `Unopened`, `Flagged`, and two flags in a row give
/// the tile back unchanged.
pub proof fn lemma_flag_period_two(tile: Tile)
    requires
        tile.is_live(),
    ensures
        tile.flag_toggled().flag_toggled() == tile,
        tile.state == TileState::Unopened ==> {
            &&& tile.flag_toggled().state == TileState::Flagged
            &&& tile.flag_toggled().flag_toggled().state == TileState::Unopened
            &&& tile.flag_toggled().flag_toggled().flag_toggled().state == TileState::Flagged
        },
{
}

/// Flagging an opened tile never changes it.
pub proof fn lemma_flag_ignores_opened(tile: Tile)
    requires
        tile.state == TileState::Opened,
    ensures
        tile.flag_toggled() == tile,
{
}

/// Neither interaction touches the mine or the neighbour count, and an open
/// tile stays open whatever is done to it.
pub proof fn lemma_input_keeps_setup(tile: Tile)
    ensures
        tile.opened().is_mined == tile.is_mined,
        tile.opened().adjacent_mines == tile.adjacent_mines,
        tile.flag_toggled().is_mined == tile.is_mined,
        tile.flag_toggled().adjacent_mines == tile.adjacent_mines,
        tile.state == TileState::Opened ==> tile.opened() == tile && tile.flag_toggled() == tile,
{
}

} // verus!
