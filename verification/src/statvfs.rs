//! Space on the filesystem that holds the tenants' data, as the operating
//! system reports it or as a mock computes it.

use vstd::prelude::*;

pub mod mock;

verus! {

/// What the operating system reported of a filesystem. A block count that
/// does not fit in 64 bits is absent.
#[derive(Clone, Copy, Debug, PartialEq, Eq, Structural)]
pub struct RealStatvfs {
    pub blocks: Option<u64>,
    pub blocks_available: Option<u64>,
    pub fragment_size: u64,
    pub block_size: u64,
}

/// Why the state of a filesystem could not be told.
#[derive(Clone, Copy, Debug, PartialEq, Eq, Structural)]
pub enum StatvfsError {
    /// The operating system refused with this error number.
    Os { errno: i32 },
    /// The directory could not be measured.
    InvalidInput,
    /// The mock was told to fail with an input/output error.
    Io,
}

/// A reading of a filesystem.
#[derive(Clone, Copy, Debug)]
pub enum Statvfs {
    Real(RealStatvfs),
    Mock(mock::Statvfs),
}

/// What was measured for a reading.
#[derive(Debug)]
pub enum Measured<'a> {
    /// What the operating system reported, or its error number.
    Real(Result<RealStatvfs, i32>),
    /// The bytes that the directory takes, for a mock of the behaviour
    /// `behavior`.
    Mocked { usage: Result<u64, mock::WalkError>, behavior: &'a mock::Behavior },
}

/// The product of `count` and `size`, or the largest number where the
/// product is larger.
pub open spec fn saturating_bytes(count: u64, size: u64) -> u64 {
    if count * size <= u64::MAX {
        (count * size) as u64
    } else {
        u64::MAX
    }
}

impl Statvfs {
    /// The reading for what was measured: the mock's, where a mock was
    /// asked for, else the operating system's.
    pub fn get(measured: &Measured<'_>) -> (reading: Result<Statvfs, StatvfsError>)
        requires
            *measured matches Measured::Mocked { usage, behavior } ==> mock::reportable(
                usage,
                *behavior,
            ),
        ensures
            match *measured {
                Measured::Real(Ok(stat)) => reading == Ok::<Statvfs, StatvfsError>(
                    Statvfs::Real(stat),
                ),
                Measured::Real(Err(errno)) => reading == Err::<Statvfs, StatvfsError>(
                    StatvfsError::Os { errno },
                ),
                Measured::Mocked { usage, behavior } => match reading {
                    Ok(Statvfs::Mock(stat)) => mock::spec_get(usage, *behavior) == Ok::<
                        mock::Statvfs,
                        StatvfsError,
                    >(stat),
                    Ok(Statvfs::Real(_)) => false,
                    Err(e) => mock::spec_get(usage, *behavior) == Err::<mock::Statvfs, StatvfsError>(
                        e,
                    ),
                },
            },
    {
        match measured {
            Measured::Real(Ok(stat)) => Ok(Statvfs::Real(*stat)),
            Measured::Real(Err(errno)) => Err(StatvfsError::Os { errno: *errno }),
            Measured::Mocked { usage, behavior } => match mock::get(*usage, behavior) {
                Ok(stat) => Ok(Statvfs::Mock(stat)),
                Err(e) => Err(e),
            },
        }
    }

    pub open spec fn spec_blocks(&self) -> u64 {
        match self {
            Statvfs::Real(stat) => match stat.blocks {
                Some(blocks) => blocks,
                None => 0,
            },
            Statvfs::Mock(stat) => stat.blocks,
        }
    }

    pub open spec fn spec_blocks_available(&self) -> u64 {
        match self {
            Statvfs::Real(stat) => match stat.blocks_available {
                Some(blocks) => blocks,
                None => 0,
            },
            Statvfs::Mock(stat) => stat.blocks_available,
        }
    }

    pub open spec fn spec_fragment_size(&self) -> u64 {
        match self {
            Statvfs::Real(stat) => stat.fragment_size,
            Statvfs::Mock(stat) => stat.fragment_size,
        }
    }

    pub open spec fn spec_block_size(&self) -> u64 {
        match self {
            Statvfs::Real(stat) => stat.block_size,
            Statvfs::Mock(stat) => stat.block_size,
        }
    }

    /// The unit in which blocks are counted: the fragment size, or the
    /// block size where no fragment size is reported.
    pub open spec fn spec_unit(&self) -> u64 {
        if self.spec_fragment_size() > 0 {
            self.spec_fragment_size()
        } else {
            self.spec_block_size()
        }
    }

    /// The total number of blocks; zero where the count was absent.
    #[verifier::when_used_as_spec(spec_blocks)]
    pub fn blocks(&self) -> (blocks: u64)
        ensures
            blocks == self.spec_blocks(),
    {
        match self {
            Statvfs::Real(stat) => match stat.blocks {
                Some(blocks) => blocks,
                None => 0,
            },
            Statvfs::Mock(stat) => stat.blocks,
        }
    }

    /// The number of blocks free to an unprivileged user; zero where the
    /// count was absent.
    #[verifier::when_used_as_spec(spec_blocks_available)]
    pub fn blocks_available(&self) -> (blocks: u64)
        ensures
            blocks == self.spec_blocks_available(),
    {
        match self {
            Statvfs::Real(stat) => match stat.blocks_available {
                Some(blocks) => blocks,
                None => 0,
            },
            Statvfs::Mock(stat) => stat.blocks_available,
        }
    }

    #[verifier::when_used_as_spec(spec_fragment_size)]
    pub fn fragment_size(&self) -> (size: u64)
        ensures
            size == self.spec_fragment_size(),
    {
        match self {
            Statvfs::Real(stat) => stat.fragment_size,
            Statvfs::Mock(stat) => stat.fragment_size,
        }
    }

    #[verifier::when_used_as_spec(spec_block_size)]
    pub fn block_size(&self) -> (size: u64)
        ensures
            size == self.spec_block_size(),
    {
        match self {
            Statvfs::Real(stat) => stat.block_size,
            Statvfs::Mock(stat) => stat.block_size,
        }
    }

    /// The available and the total bytes on the filesystem, each capped at
    /// the largest number.
    pub fn get_avail_total_bytes(&self) -> (bytes: (u64, u64))
        ensures
            bytes.0 == saturating_bytes(self.blocks_available(), self.spec_unit()),
            bytes.1 == saturating_bytes(self.blocks(), self.spec_unit()),
    {
        let blocksize = if self.fragment_size() > 0 {
            self.fragment_size()
        } else {
            self.block_size()
        };
        let avail_bytes = match self.blocks_available().checked_mul(blocksize) {
            Some(bytes) => bytes,
            None => u64::MAX,
        };
        let total_bytes = match self.blocks().checked_mul(blocksize) {
            Some(bytes) => bytes,
            None => u64::MAX,
        };
        (avail_bytes, total_bytes)
    }
}

} // verus!
