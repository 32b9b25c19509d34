//! Client-side snapshot of one media track, and the accessor contract a
//! track representation must honour to take part in state synchronization.

use vstd::prelude::*;

use crate::ids::TrackId;
use crate::protocol::{Direction, MediaType};

verus! {

/// A partial update for one track: only set fields change.
#[derive(Clone, Copy, Debug, PartialEq, Eq, Structural)]
pub struct TrackPatch {
    pub id: TrackId,
    pub is_muted: Option<bool>,
}

/// Snapshot of one media track as a client sees it.
#[derive(Clone, Copy, Debug, PartialEq, Eq, Structural)]
pub struct TrackSnapshot {
    pub id: TrackId,
    pub is_muted: bool,
    pub direction: Direction,
    pub media_type: MediaType,
}

/// What any track representation must expose for snapshot
/// synchronization: identity, kind and direction are fixed; only the mute
/// flag moves.
pub trait TrackSnapshotAccessor: Sized {
    /// The track's identifier, as contracts see it.
    spec fn spec_id(&self) -> TrackId;

    /// The track's mute flag, as contracts see it.
    spec fn spec_is_muted(&self) -> bool;

    /// The track's direction, as contracts see it.
    spec fn spec_direction(&self) -> Direction;

    /// The track's media kind, as contracts see it.
    spec fn spec_media_type(&self) -> MediaType;

    /// Builds a representation with exactly the given data.
    fn new(id: TrackId, is_muted: bool, direction: Direction, media_type: MediaType) -> (r: Self)
        ensures
            r.spec_id() == id,
            r.spec_is_muted() == is_muted,
            r.spec_direction() == direction,
            r.spec_media_type() == media_type,
    ;

    /// Sets the mute flag, touching nothing else.
    fn set_is_muted(&mut self, is_muted: bool)
        ensures
            final(self).spec_is_muted() == is_muted,
            final(self).spec_id() == old(self).spec_id(),
            final(self).spec_direction() == old(self).spec_direction(),
            final(self).spec_media_type() == old(self).spec_media_type(),
    ;

    /// Reads the direction.
    fn get_direction(&self) -> (r: Direction)
        ensures
            r == self.spec_direction(),
    ;

    /// Reads the media kind.
    fn get_media_type(&self) -> (r: MediaType)
        ensures
            r == self.spec_media_type(),
    ;

    /// Reads the mute flag.
    fn get_is_muted(&self) -> (r: bool)
        ensures
            r == self.spec_is_muted(),
    ;

    /// Reads the identifier.
    fn get_id(&self) -> (r: TrackId)
        ensures
            r == self.spec_id(),
    ;

    /// Applies a patch: a set mute flag is taken over, an unset one
    /// changes nothing; identity, kind and direction never change.
    fn update(&mut self, patch: TrackPatch)
        ensures
            final(self).spec_is_muted() == (match patch.is_muted {
                Some(m) => m,
                None => old(self).spec_is_muted(),
            }),
            final(self).spec_id() == old(self).spec_id(),
            final(self).spec_direction() == old(self).spec_direction(),
            final(self).spec_media_type() == old(self).spec_media_type(),
    ;

    /// Takes over the mutable state of a full snapshot; identity, kind and
    /// direction stay as they are.
    fn update_snapshot(&mut self, snapshot: TrackSnapshot)
        ensures
            final(self).spec_is_muted() == snapshot.is_muted,
            final(self).spec_id() == old(self).spec_id(),
            final(self).spec_direction() == old(self).spec_direction(),
            final(self).spec_media_type() == old(self).spec_media_type(),
    ;
}

impl TrackSnapshotAccessor for TrackSnapshot {
    open spec fn spec_id(&self) -> TrackId {
        self.id
    }

    open spec fn spec_is_muted(&self) -> bool {
        self.is_muted
    }

    open spec fn spec_direction(&self) -> Direction {
        self.direction
    }

    open spec fn spec_media_type(&self) -> MediaType {
        self.media_type
    }

    fn new(id: TrackId, is_muted: bool, direction: Direction, media_type: MediaType) -> (r: TrackSnapshot) {
        TrackSnapshot { id, is_muted, direction, media_type }
    }

    fn set_is_muted(&mut self, is_muted: bool) {
        self.is_muted = is_muted;
    }

    fn get_direction(&self) -> (r: Direction) {
        self.direction
    }

    fn get_media_type(&self) -> (r: MediaType) {
        self.media_type
    }

    fn get_is_muted(&self) -> (r: bool) {
        self.is_muted
    }

    fn get_id(&self) -> (r: TrackId) {
        self.id
    }

    fn update(&mut self, patch: TrackPatch) {
        if let Some(is_muted) = patch.is_muted {
            self.is_muted = is_muted;
        }
    }

    fn update_snapshot(&mut self, snapshot: TrackSnapshot) {
        self.is_muted = snapshot.is_muted;
    }
}

} // verus!
