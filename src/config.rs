//! Startup configuration shared read-only by every session.

use vstd::prelude::*;

verus! {

/// A fraction `num / den` standing for a share of the file's bytes.
#[derive(Clone, Copy, Debug, PartialEq, Eq, Structural)]
pub struct Fraction {
    pub num: u64,
    pub den: u64,
}

impl Fraction {
    /// A share in `[0, 1]`.
    pub open spec fn wf(self) -> bool {
        self.den > 0 && self.num <= self.den
    }

    /// Whether `bytes` read out of a file of `size` bytes reach this share of it:
    /// `bytes >= size * num / den`.
    pub open spec fn reached(self, size: int, bytes: int) -> bool {
        bytes * self.den >= size * self.num
    }

    /// Exact test of `reached`, without overflow.
    pub fn is_reached(&self, size: usize, bytes: usize) -> (r: bool)
        ensures
            r == self.reached(size as int, bytes as int),
    {
        let b = bytes as u128;
        let d = self.den as u128;
        let s = size as u128;
        let n = self.num as u128;
        assert(b * d <= u128::MAX) by (nonlinear_arith)
            requires
                b <= u64::MAX,
                d <= u64::MAX,
        ;
        assert(s * n <= u128::MAX) by (nonlinear_arith)
            requires
                s <= u64::MAX,
                n <= u64::MAX,
        ;
        b * d >= s * n
    }
}

/// How much of the file a session sends as soon as it opens.
#[derive(Clone, Copy, Debug, PartialEq, Eq, Structural)]
pub enum UpfrontPlayback {
    /// Exactly this many reads, each forwarded, even past end-of-file.
    Count(usize),
    /// Records until this share of the file's bytes has been read.
    Percentage(Fraction),
}

/// Why a configuration was rejected.
#[derive(Clone, Copy, Debug, PartialEq, Eq, Structural)]
pub enum ConfigError {
    /// Neither a count nor a percentage was given.
    NoPlayback,
    /// Both a count and a percentage were given.
    ConflictingPlayback,
    /// The percentage lies outside `[0, 1]` or has a zero denominator.
    InvalidPercentage,
    /// The interval in milliseconds does not fit in a `u64`.
    IntervalTooLong,
}

/// Largest interval, in seconds, whose length in milliseconds fits in a `u64`.
pub const MAX_INTERVAL_SECS: u64 = 18446744073709551;

/// Settings of the replay, fixed at startup.
#[derive(Debug)]
pub struct SessionConfig {
    pub delimiter: u8,
    pub source_path: String,
    pub interval_secs: u64,
    pub upfront: UpfrontPlayback,
}

impl SessionConfig {
    pub open spec fn wf(&self) -> bool {
        &&& self.interval_secs * 1000 <= u64::MAX
        &&& match self.upfront {
            UpfrontPlayback::Count(_) => true,
            UpfrontPlayback::Percentage(f) => f.wf(),
        }
    }

    /// Resolves the upfront policy from the two optional settings and checks
    /// the rest. Exactly one of `count` and `percentage` must be given.
    pub fn new(
        delimiter: u8,
        source_path: String,
        interval_secs: u64,
        count: Option<usize>,
        percentage: Option<Fraction>,
    ) -> (r: Result<SessionConfig, ConfigError>)
        ensures
            count is Some && percentage is Some ==> r == Err::<SessionConfig, ConfigError>(
                ConfigError::ConflictingPlayback,
            ),
            count is None && percentage is None ==> r == Err::<SessionConfig, ConfigError>(
                ConfigError::NoPlayback,
            ),
            count is None && percentage is Some && !percentage->0.wf() ==> r == Err::<
                SessionConfig,
                ConfigError,
            >(ConfigError::InvalidPercentage),
            (count is Some) != (percentage is Some) && (percentage is Some ==> percentage->0.wf())
                && interval_secs * 1000 > u64::MAX ==> r == Err::<SessionConfig, ConfigError>(
                ConfigError::IntervalTooLong,
            ),
            r is Ok <==> ((count is Some) != (percentage is Some) && (percentage is Some
                ==> percentage->0.wf()) && interval_secs * 1000 <= u64::MAX),
            r matches Ok(c) ==> {
                &&& c.wf()
                &&& c.delimiter == delimiter
                &&& c.source_path@ == source_path@
                &&& c.interval_secs == interval_secs
                &&& c.upfront == match count {
                    Some(n) => UpfrontPlayback::Count(n),
                    None => UpfrontPlayback::Percentage(percentage->0),
                }
            },
    {
        let upfront = match (count, percentage) {
            (Some(_), Some(_)) => {
                return Err(ConfigError::ConflictingPlayback);
            },
            (None, None) => {
                return Err(ConfigError::NoPlayback);
            },
            (Some(n), None) => UpfrontPlayback::Count(n),
            (None, Some(f)) => {
                if f.den == 0 || f.num > f.den {
                    return Err(ConfigError::InvalidPercentage);
                }
                UpfrontPlayback::Percentage(f)
            },
        };
        if interval_secs > MAX_INTERVAL_SECS {
            return Err(ConfigError::IntervalTooLong);
        }
        Ok(SessionConfig { delimiter, source_path, interval_secs, upfront })
    }
}

} // verus!
