//! The two interactions on a round's tiles, as functions of the tile records:
//! what an open or a flag on a handle does to the records, and what it asks
//! the presentation to redraw.

use vstd::prelude::*;
use crate::mines::{
    counts_settled,
    lemma_mine_count_reads_mines,
    lemma_settled_reads_setup,
    mine_count,
    same_mines,
    same_setup,
};
use crate::tile::{Appearance, Label, Tile, TileId, TileState};

verus! {

/// The kind of a player's interaction with a tile.
#[derive(Clone, Copy, Debug, PartialEq, Eq, Hash, Structural)]
pub enum Interaction {
    /// Open the tile.
    Primary,
    /// Set or clear the flag on the tile.
    Secondary,
}

/// What the presentation has to redraw after an interaction.
#[derive(Clone, Copy, Debug, PartialEq, Eq, Hash, Structural)]
pub enum Update {
    /// Nothing: the handle addresses no tile, or the tile is open already.
    Ignored,
    /// The tile was opened: its new look, and its label if it has one.
    Opened { id: TileId, appearance: Appearance, label: Option<Label> },
    /// The flag on the tile was set or cleared: its new look.
    Flagged { id: TileId, appearance: Appearance },
}

/// Whether `id` addresses one of `tiles` and that tile still reacts.
pub open spec fn reacts(tiles: Seq<Tile>, id: TileId) -> bool {
    id.index < tiles.len() && tiles[id.index as int].is_live()
}

/// The records after an open on `id`: that tile opened, where `id` addresses
/// a tile that still reacts; else nothing changed.
pub open spec fn after_open(tiles: Seq<Tile>, id: TileId) -> Seq<Tile> {
    if reacts(tiles, id) {
        tiles.update(id.index as int, tiles[id.index as int].opened())
    } else {
        tiles
    }
}

/// The records after a flag on `id`: the flag of that tile set or cleared,
/// where `id` addresses a tile that still reacts; else nothing changed.
pub open spec fn after_flag(tiles: Seq<Tile>, id: TileId) -> Seq<Tile> {
    if reacts(tiles, id) {
        tiles.update(id.index as int, tiles[id.index as int].flag_toggled())
    } else {
        tiles
    }
}

/// The records after an interaction of the given kind on `id`.
pub open spec fn after(tiles: Seq<Tile>, id: TileId, kind: Interaction) -> Seq<Tile> {
    match kind {
        Interaction::Primary => after_open(tiles, id),
        Interaction::Secondary => after_flag(tiles, id),
    }
}

/// What an open on `id` asks to redraw.
pub open spec fn open_update(tiles: Seq<Tile>, id: TileId) -> Update {
    if reacts(tiles, id) {
        let tile = tiles[id.index as int].opened();
        Update::Opened { id, appearance: tile.appearance_of(), label: tile.label_of() }
    } else {
        Update::Ignored
    }
}

/// What a flag on `id` asks to redraw.
pub open spec fn flag_update(tiles: Seq<Tile>, id: TileId) -> Update {
    if reacts(tiles, id) {
        let tile = tiles[id.index as int].flag_toggled();
        Update::Flagged { id, appearance: tile.appearance_of() }
    } else {
        Update::Ignored
    }
}

/// What an interaction of the given kind on `id` asks to redraw.
pub open spec fn update_for(tiles: Seq<Tile>, id: TileId, kind: Interaction) -> Update {
    match kind {
        Interaction::Primary => open_update(tiles, id),
        Interaction::Secondary => flag_update(tiles, id),
    }
}

/// Opening twice is opening once: the second open changes no record and asks
/// for nothing to be redrawn.
pub proof fn lemma_open_twice(tiles: Seq<Tile>, id: TileId)
    ensures
        after_open(after_open(tiles, id), id) == after_open(tiles, id),
        open_update(after_open(tiles, id), id) == Update::Ignored,
{
}

/// An open leaves the addressed tile open, whatever state it was in: a flag
/// does not stand in its way.
pub proof fn lemma_open_opens(tiles: Seq<Tile>, id: TileId)
    requires
        id.index < tiles.len(),
    ensures
        after_open(tiles, id)[id.index as int] == tiles[id.index as int].opened(),
        after_open(tiles, id)[id.index as int].state == TileState::Opened,
{
}

/// Two flags in a row give the records back as they were; on a tile that is
/// neither open nor flagged the first one sets the flag.
pub proof fn lemma_flag_twice(tiles: Seq<Tile>, id: TileId)
    ensures
        after_flag(after_flag(tiles, id), id) == tiles,
        id.index < tiles.len() && tiles[id.index as int].state == TileState::Unopened ==> after_flag(
            tiles,
            id,
        )[id.index as int].state == TileState::Flagged,
{
    if reacts(tiles, id) {
        crate::tile::lemma_flag_period_two(tiles[id.index as int]);
        assert(after_flag(after_flag(tiles, id), id) =~= tiles);
    }
}

/// A flag on an open tile changes nothing and asks for nothing.
pub proof fn lemma_flag_on_opened(tiles: Seq<Tile>, id: TileId)
    requires
        id.index < tiles.len(),
        tiles[id.index as int].state == TileState::Opened,
    ensures
        after_flag(tiles, id) == tiles,
        flag_update(tiles, id) == Update::Ignored,
{
}

/// A handle that addresses no tile is ignored by both interactions.
pub proof fn lemma_unknown_target(tiles: Seq<Tile>, id: TileId, kind: Interaction)
    requires
        id.index >= tiles.len(),
    ensures
        after(tiles, id, kind) == tiles,
        update_for(tiles, id, kind) == Update::Ignored,
{
}

/// An interaction touches the addressed tile only, and of that tile only the
/// interaction state: mines and recorded counts stay, so the number of mines
/// stays, and counts that were settled stay settled.
pub proof fn lemma_interaction_keeps_setup(
    width: int,
    height: int,
    tiles: Seq<Tile>,
    id: TileId,
    kind: Interaction,
)
    requires
        width > 0,
        tiles.len() == width * height,
    ensures
        after(tiles, id, kind).len() == tiles.len(),
        forall|i: int|
            0 <= i < tiles.len() && i != id.index ==> #[trigger] after(tiles, id, kind)[i] == tiles[i],
        same_setup(tiles, after(tiles, id, kind)),
        mine_count(after(tiles, id, kind)) == mine_count(tiles),
        counts_settled(width, height, tiles) ==> counts_settled(width, height, after(tiles, id, kind)),
{
    let next = after(tiles, id, kind);
    assert(same_setup(tiles, next));
    assert(same_mines(tiles, next));
    lemma_mine_count_reads_mines(tiles, next);
    if counts_settled(width, height, tiles) {
        lemma_settled_reads_setup(width, height, tiles, next);
    }
}

} // verus!
