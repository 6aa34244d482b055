//! Bookkeeping for the worker pool: the shared tile work list and the
//! supervisor's completion count.
//!
//! The render loop wraps the queue in a mutual-exclusion lock and hands one
//! tile at a time to whichever worker asks; `claim` removes the tile it
//! returns, so no tile is ever handed out twice. The supervisor counts one
//! completion signal per claimed tile and the render is finished exactly when
//! the count reaches the number of tiles scheduled.

use vstd::prelude::*;
use crate::tile::RenderTile;

verus! {

/// The shared list of tiles still waiting for a worker.
pub struct TileQueue {
    tiles: Vec<RenderTile>,
}

impl TileQueue {
    /// The tiles still waiting, in the order they were scheduled.
    pub closed spec fn view(self) -> Seq<RenderTile> {
        self.tiles@
    }

    pub fn new(tiles: Vec<RenderTile>) -> (q: TileQueue)
        ensures
            q@ == tiles@,
    {
        TileQueue { tiles }
    }

    /// Hand out one tile, removing it from the list; an empty list reports
    /// that all work has been claimed. Every call removes what it returns, so
    /// two claims never yield the same list entry.
    pub fn claim(&mut self) -> (t: Option<RenderTile>)
        ensures
            old(self)@.len() == 0 ==> t is None && final(self)@ == old(self)@,
            old(self)@.len() > 0 ==> {
                &&& t == Some(old(self)@.last())
                &&& final(self)@ == old(self)@.drop_last()
            },
    {
        self.tiles.pop()
    }

    /// How many tiles are still unclaimed.
    pub fn remaining(&self) -> (n: usize)
        ensures
            n == self@.len(),
    {
        self.tiles.len()
    }
}

/// The supervisor's view of the render: how many tiles were scheduled and how
/// many completion signals have been drained so far.
pub struct Progress {
    total: usize,
    completed: usize,
}

impl Progress {
    /// A progress record never counts more completions than scheduled tiles.
    pub closed spec fn well_formed(self) -> bool {
        self.completed <= self.total
    }

    pub closed spec fn spec_total(self) -> usize {
        self.total
    }

    pub closed spec fn spec_completed(self) -> usize {
        self.completed
    }

    pub fn new(total: usize) -> (p: Progress)
        ensures
            p.well_formed(),
            p.spec_total() == total,
            p.spec_completed() == 0,
    {
        Progress { total, completed: 0 }
    }

    pub fn total(&self) -> (n: usize)
        ensures
            n == self.spec_total(),
    {
        self.total
    }

    pub fn completed(&self) -> (n: usize)
        ensures
            n == self.spec_completed(),
    {
        self.completed
    }

    /// Drain one completion signal. The supervisor only receives while tiles
    /// are outstanding, so the count stays within the scheduled total.
    pub fn record_completion(&mut self)
        requires
            old(self).well_formed(),
            old(self).spec_completed() < old(self).spec_total(),
        ensures
            final(self).well_formed(),
            final(self).spec_total() == old(self).spec_total(),
            final(self).spec_completed() == old(self).spec_completed() + 1,
    {
        self.completed = self.completed + 1;
    }

    /// The render is complete exactly when one signal per scheduled tile has
    /// been drained.
    pub fn is_complete(&self) -> (r: bool)
        ensures
            r == (self.spec_completed() == self.spec_total()),
    {
        self.completed == self.total
    }
}

} // verus!
