//! Position management: whether an order opens a position, adds to one, or
//! is refused.
use vstd::prelude::*;
use crate::errors::PositionError;
use crate::types::{InstrumentId, Side};

verus! {

/// What an accepted order does to the book of positions.
#[derive(Debug, Clone, Copy, PartialEq, Eq, Structural)]
pub enum OpenAction {
    /// Adds to the open position on the same side.
    AddToExisting,
    /// Opens a new position.
    OpenNew,
}

/// Decides an order for `instrument` on `side`, given the side of the
/// position already open on it, if any, and how many positions are open out
/// of the maximum: adding to a same-side position is always allowed, an
/// opposite position refuses the order, and a new position needs room.
pub fn open_decision(
    instrument: &InstrumentId,
    existing_side: Option<Side>,
    side: Side,
    open_positions: usize,
    max_positions: usize,
) -> (r: Result<OpenAction, PositionError>)
    ensures
        match existing_side {
            Some(s) => if s == side {
                r matches Ok(OpenAction::AddToExisting)
            } else {
                r matches Err(PositionError::OppositePositionExists(i)) && i.venue == instrument.venue
                    && i.symbol@ == instrument.symbol@
            },
            None => if open_positions >= max_positions {
                r matches Err(PositionError::MaxPositionsReached)
            } else {
                r matches Ok(OpenAction::OpenNew)
            },
        },
{
    match existing_side {
        Some(s) => {
            if s == side {
                Ok(OpenAction::AddToExisting)
            } else {
                Err(PositionError::OppositePositionExists(InstrumentId { venue: instrument.venue, symbol: instrument.symbol.clone() }))
            }
        },
        None => {
            if open_positions >= max_positions {
                Err(PositionError::MaxPositionsReached)
            } else {
                Ok(OpenAction::OpenNew)
            }
        },
    }
}

} // verus!
