//! The events that a run reports while it works, and the counts that a
//! progress display shows for them.

use crate::tile::Tile;
use vstd::prelude::*;

verus! {

/// One event of a run, for whatever shows its progress.
#[derive(Debug, PartialEq, Eq)]
pub enum ProgressMsg {
    /// A tile does not exist upstream and was passed over.
    Skipped,
    /// A tile was fetched: the tile and the size of its payload in bytes.
    Downloaded(Tile, usize),
    /// A tile was written to the archive.
    Written(Tile),
    /// A line for the log.
    Log(String),
    /// The archive is complete.
    Finished,
}

/// The counts of a progress display: how far the run has come and how far
/// it has to go, in tiles fetched, bytes fetched and tiles written.
#[derive(Clone, Copy, Debug, PartialEq, Eq, Structural)]
pub struct ProgressTally {
    /// The tiles fetched so far.
    pub downloaded: u64,
    /// The tiles to fetch in all, not counting those that turned out absent.
    pub to_download: u64,
    /// The bytes fetched so far.
    pub bytes: u64,
    /// The bytes to fetch in all, as far as the tiles fetched so far tell.
    pub bytes_expected: u64,
    /// The tiles written so far.
    pub written: u64,
    /// The tiles to write in all, not counting those that turned out absent.
    pub to_write: u64,
}

/// `a + b`, or the largest number where that is too large.
pub open spec fn capped_sum(a: u64, b: int) -> u64 {
    if a + b > u64::MAX {
        u64::MAX
    } else {
        (a + b) as u64
    }
}

/// `a * b`, or the largest number where that is too large.
pub open spec fn capped_product(a: u64, b: u64) -> u64 {
    if a * b > u64::MAX {
        u64::MAX
    } else {
        (a * b) as u64
    }
}

/// One less than `a`, and 0 for 0.
pub open spec fn one_less(a: u64) -> u64 {
    if a == 0 {
        0
    } else {
        (a - 1) as u64
    }
}

impl ProgressTally {
    /// The counts before anything has happened, with `count` tiles to fetch
    /// and to write.
    pub open spec fn start(count: u64) -> ProgressTally {
        ProgressTally {
            downloaded: 0,
            to_download: count,
            bytes: 0,
            bytes_expected: 0,
            written: 0,
            to_write: count,
        }
    }

    /// The counts after an event. A skipped tile is one less to fetch and
    /// to write. A fetched tile counts with its bytes, and the bytes to
    /// fetch in all are then taken to be the whole number of bytes per tile
    /// so far, times the tiles to fetch. A written tile counts as written.
    /// A count that cannot grow further stays where it is.
    pub open spec fn after(self, msg: ProgressMsg) -> ProgressTally {
        match msg {
            ProgressMsg::Skipped => ProgressTally {
                to_download: one_less(self.to_download),
                to_write: one_less(self.to_write),
                ..self
            },
            ProgressMsg::Downloaded(_, size) => {
                let downloaded = capped_sum(self.downloaded, 1);
                let bytes = capped_sum(self.bytes, size as int);
                ProgressTally {
                    downloaded,
                    bytes,
                    bytes_expected: capped_product(bytes / downloaded, self.to_download),
                    ..self
                }
            },
            ProgressMsg::Written(_) => ProgressTally {
                written: capped_sum(self.written, 1),
                ..self
            },
            ProgressMsg::Log(_) => self,
            ProgressMsg::Finished => self,
        }
    }

    /// The counts before anything has happened.
    pub fn new(initial_count: u64) -> (tally: ProgressTally)
        ensures
            tally == ProgressTally::start(initial_count),
    {
        ProgressTally {
            downloaded: 0,
            to_download: initial_count,
            bytes: 0,
            bytes_expected: 0,
            written: 0,
            to_write: initial_count,
        }
    }

    /// Takes an event into the counts.
    pub fn record(&mut self, msg: &ProgressMsg)
        ensures
            *final(self) == old(self).after(*msg),
    {
        match msg {
            ProgressMsg::Skipped => {
                self.to_download = self.to_download.saturating_sub(1);
                self.to_write = self.to_write.saturating_sub(1);
            },
            ProgressMsg::Downloaded(_, size) => {
                self.downloaded = self.downloaded.saturating_add(1);
                self.bytes = self.bytes.saturating_add(*size as u64);
                let per_tile: u64 = self.bytes / self.downloaded;
                self.bytes_expected = match per_tile.checked_mul(self.to_download) {
                    Some(product) => product,
                    None => u64::MAX,
                };
            },
            ProgressMsg::Written(_) => {
                self.written = self.written.saturating_add(1);
            },
            ProgressMsg::Log(_) => {},
            ProgressMsg::Finished => {},
        }
    }
}

} // verus!
