use vstd::prelude::*;

verus! {

/// Why a configuration value could not be read.
#[derive(Debug, Clone, Copy, PartialEq, Eq, Structural)]
pub enum ConfigError {
    /// The start time was read before it was set.
    NotStarted,
}

/// Run-wide search parameters, set once at startup and read afterwards.
/// Times are milliseconds on a clock of the caller's choosing.
#[derive(Debug, Clone, Copy, PartialEq, Eq, Structural)]
pub struct RunConfig {
    pub optimized: bool,
    pub n_equiv_exprs: u8,
    pub token_limit: u8,
    pub max_token_limit: u8,
    pub time_limit: u16,
    pub start_time: Option<u64>,
}

impl RunConfig {
    /// All parameters zero or off, and no start time.
    pub fn new() -> (r: RunConfig)
        ensures
            r == (RunConfig {
                optimized: false,
                n_equiv_exprs: 0,
                token_limit: 0,
                max_token_limit: 0,
                time_limit: 0,
                start_time: None,
            }),
    {
        RunConfig {
            optimized: false,
            n_equiv_exprs: 0,
            token_limit: 0,
            max_token_limit: 0,
            time_limit: 0,
            start_time: None,
        }
    }

    /// Sets the optimized-extraction flag.
    pub fn set_optimized_flag(&mut self, optimized: bool)
        ensures
            *final(self) == (RunConfig { optimized, ..*old(self) }),
    {
        self.optimized = optimized;
    }

    /// Sets the number of equivalent expressions wanted.
    pub fn set_n_equiv_exprs(&mut self, n_equiv_exprs: u8)
        ensures
            *final(self) == (RunConfig { n_equiv_exprs, ..*old(self) }),
    {
        self.n_equiv_exprs = n_equiv_exprs;
    }

    /// Sets the token limit.
    pub fn set_token_limit(&mut self, token_limit: u8)
        ensures
            *final(self) == (RunConfig { token_limit, ..*old(self) }),
    {
        self.token_limit = token_limit;
    }

    /// Sets the maximum token limit.
    pub fn set_max_token_limit(&mut self, max_token_limit: u8)
        ensures
            *final(self) == (RunConfig { max_token_limit, ..*old(self) }),
    {
        self.max_token_limit = max_token_limit;
    }

    /// Sets the time limit, in seconds.
    pub fn set_time_limit(&mut self, time_limit: u16)
        ensures
            *final(self) == (RunConfig { time_limit, ..*old(self) }),
    {
        self.time_limit = time_limit;
    }

    /// Sets the start time.
    pub fn set_start_time(&mut self, start_time: u64)
        ensures
            *final(self) == (RunConfig { start_time: Some(start_time), ..*old(self) }),
    {
        self.start_time = Some(start_time);
    }

    /// The start time; an error when it has not been set.
    pub fn get_start_time(&self) -> (r: Result<u64, ConfigError>)
        ensures
            r == (match self.start_time {
                Some(t) => Ok(t),
                None => Err(ConfigError::NotStarted),
            }),
    {
        match self.start_time {
            Some(t) => Ok(t),
            None => Err(ConfigError::NotStarted),
        }
    }

    /// Whether the time budget is spent at time `now`: at least `time_limit`
    /// seconds have passed since the start. An error when no start time is set.
    pub fn time_budget_spent(&self, now: u64) -> (r: Result<bool, ConfigError>)
        ensures
            self.start_time is None ==> r == Err::<bool, ConfigError>(ConfigError::NotStarted),
            self.start_time matches Some(t) ==> r == Ok::<bool, ConfigError>(
                now >= t && now - t >= self.time_limit as int * 1000,
            ),
    {
        match self.start_time {
            None => Err(ConfigError::NotStarted),
            Some(t) => {
                let budget: u64 = self.time_limit as u64 * 1000;
                Ok(now >= t && now - t >= budget)
            },
        }
    }
}

} // verus!
