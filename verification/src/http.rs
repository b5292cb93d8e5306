//! The account of a download: how much has arrived, and how fast.

use crate::error::Failure;
use vstd::prelude::*;

verus! {

/// How far a download is.
#[derive(Debug, Clone, Copy, PartialEq, Eq, Structural)]
pub struct Progress {
    /// The bytes that have arrived.
    pub downloaded: u64,
    /// The bytes that the server announced, or 0 where it announced none:
    /// 0 means that the length is not known, not that nothing is to come.
    pub total: u64,
    /// The bytes per second since the request was sent. It says nothing
    /// before the first bytes have arrived.
    pub speed: u64,
}

impl Default for Progress {
    fn default() -> (progress: Progress)
        ensures
            progress == (Progress { downloaded: 0, total: 0, speed: 0 }),
    {
        Progress { downloaded: 0, total: 0, speed: 0 }
    }
}

/// The number of nanoseconds in a second.
pub const SECOND: u128 = 1_000_000_000;

/// The whole bytes per second at which `downloaded` bytes arrived in `elapsed`
/// nanoseconds, and `u64::MAX` where that is more. In no time at all, nothing
/// arrives at speed 0 and anything else at `u64::MAX`.
pub open spec fn rate(downloaded: int, elapsed: int) -> int {
    if elapsed == 0 {
        if downloaded == 0 {
            0
        } else {
            u64::MAX as int
        }
    } else if downloaded * SECOND / elapsed > u64::MAX {
        u64::MAX as int
    } else {
        downloaded * SECOND / elapsed
    }
}

/// The speed of a download of which `downloaded` bytes arrived in `elapsed`
/// nanoseconds, in bytes per second.
pub fn speed(downloaded: u64, elapsed: u128) -> (speed: u64)
    ensures
        speed == rate(downloaded as int, elapsed as int),
{
    if elapsed == 0 {
        if downloaded == 0 {
            0
        } else {
            u64::MAX
        }
    } else {
        let rate: u128 = (downloaded as u128) * SECOND / elapsed;
        if rate > u64::MAX as u128 {
            u64::MAX
        } else {
            rate as u64
        }
    }
}

/// Tells whether an answer with the given status is taken: one from 200 up
/// to 299 is, and any other is a failure of the request, whatever comes
/// with it. This is asked before the account of a download is opened, so
/// that nothing of a refused answer is written or reported.
pub fn accepted(status: u16) -> (result: Result<(), Failure>)
    ensures
        result == (if 200 <= status < 300 {
            Ok::<(), Failure>(())
        } else {
            Err(Failure::Transport)
        }),
{
    if 200 <= status && status < 300 {
        Ok(())
    } else {
        Err(Failure::Transport)
    }
}

/// The account of one download.
#[derive(Debug, Clone, Copy, PartialEq, Eq, Structural)]
pub struct Transfer {
    /// The bytes that the server announced, or 0 where it announced none.
    pub total: u64,
    /// The bytes that have arrived.
    pub downloaded: u64,
}

/// The sum of the sizes.
pub open spec fn sum(sizes: Seq<u64>) -> int
    decreases sizes.len(),
{
    if sizes.len() == 0 {
        0
    } else {
        sum(sizes.drop_last()) + sizes.last()
    }
}

impl Transfer {
    /// The account after a chunk of the given size has arrived.
    pub open spec fn received(self, size: u64) -> Transfer
        recommends
            self.downloaded + size <= u64::MAX,
    {
        Transfer { total: self.total, downloaded: (self.downloaded + size) as u64 }
    }

    /// The account after chunks of the given sizes have arrived one after
    /// the other.
    pub open spec fn after(self, sizes: Seq<u64>) -> Transfer
        decreases sizes.len(),
    {
        if sizes.len() == 0 {
            self
        } else {
            self.after(sizes.drop_last()).received(sizes.last())
        }
    }

    /// What is reported of the account when `elapsed` nanoseconds have
    /// passed since the request was sent.
    pub open spec fn progress(self, elapsed: int) -> Progress {
        Progress {
            downloaded: self.downloaded,
            total: self.total,
            speed: rate(self.downloaded as int, elapsed) as u64,
        }
    }

    /// Records that a chunk of `size` bytes has arrived, `elapsed` nanoseconds
    /// after the request was sent, and gives what to report of it. Where the
    /// count of bytes would no longer fit in 64 bits nothing is recorded.
    pub fn receive(&mut self, size: u64, elapsed: u128) -> (progress: Option<Progress>)
        ensures
            old(self).downloaded + size <= u64::MAX ==> *final(self) == old(self).received(size)
                && progress == Some(final(self).progress(elapsed as int)),
            old(self).downloaded + size > u64::MAX ==> *final(self) == *old(self) && progress
                is None,
    {
        match self.downloaded.checked_add(size) {
            Some(downloaded) => {
                self.downloaded = downloaded;
                Some(
                    Progress {
                        downloaded,
                        total: self.total,
                        speed: speed(downloaded, elapsed),
                    },
                )
            },
            None => None,
        }
    }
}

/// Opens the account of a download whose answer was accepted and announced
/// `length` bytes, and gives the first report, made before anything has
/// arrived.
pub fn download(length: Option<u64>) -> (opened: (Transfer, Progress))
    ensures
        opened.0 == (Transfer {
            total: match length {
                Some(total) => total,
                None => 0,
            },
            downloaded: 0,
        }),
        opened.1 == (Progress { downloaded: 0, total: opened.0.total, speed: 0 }),
{
    let total = match length {
        Some(total) => total,
        None => 0,
    };
    (Transfer { total, downloaded: 0 }, Progress { downloaded: 0, total, speed: 0 })
}

/// Over one download, the count of bytes that is reported never falls, and
/// after every chunk it is the sum of the sizes of the chunks so far.
pub proof fn lemma_downloaded_grows(start: Transfer, sizes: Seq<u64>, i: int, j: int)
    requires
        start.downloaded == 0,
        sum(sizes) <= u64::MAX,
        0 <= i <= j <= sizes.len(),
    ensures
        start.after(sizes.take(i)).downloaded == sum(sizes.take(i)),
        start.after(sizes.take(j)).downloaded == sum(sizes.take(j)),
        start.after(sizes.take(i)).downloaded <= start.after(sizes.take(j)).downloaded,
        start.after(sizes).downloaded == sum(sizes),
    decreases sizes.len(), j - i,
{
    if sizes.len() == 0 {
        assert(sizes.take(i) =~= sizes);
        assert(sizes.take(j) =~= sizes);
    } else {
        let most = sizes.drop_last();
        lemma_downloaded_grows(start, most, 0, 0);
        assert(sizes.take(sizes.len() as int) =~= sizes);
        if j < sizes.len() {
            lemma_downloaded_grows(start, most, i, j);
            assert(most.take(i) =~= sizes.take(i));
            assert(most.take(j) =~= sizes.take(j));
        } else if i < sizes.len() {
            lemma_downloaded_grows(start, most, i, j - 1);
            assert(most.take(i) =~= sizes.take(i));
            assert(most.take(j - 1) =~= most);
            assert(sizes.take(j) =~= sizes);
        } else {
            assert(sizes.take(i) =~= sizes);
            assert(sizes.take(j) =~= sizes);
        }
    }
}

} // verus!
