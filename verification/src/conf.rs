//! Solver-specific configuration.

use vstd::prelude::*;

verus! {

/// What the library needs to know of a particular solver: the options that
/// its command line takes, the name of its check-sat-assuming command where
/// it has one, and whether it understands the reset command.
pub struct SolverConf {
    options: Vec<String>,
    check_sat_assuming: Option<String>,
    reset: bool,
}

impl SolverConf {
    /// The command-line options, as text.
    pub closed spec fn option_texts(&self) -> Seq<Seq<char>> {
        self.options@.map_values(|o: String| o@)
    }

    /// The name of the check-sat-assuming command, if the solver supports one.
    pub closed spec fn assuming_command(&self) -> Option<Seq<char>> {
        match self.check_sat_assuming {
            Some(c) => Some(c@),
            None => None,
        }
    }

    /// Whether the solver understands the reset command.
    pub closed spec fn reset_supported(&self) -> bool {
        self.reset
    }

    /// Creates a configuration from the solver's options and the name of its
    /// check-sat-assuming command (`None` where it has none); the solver is
    /// taken to understand the reset command.
    pub fn new(options: Vec<String>, check_sat_assuming: Option<String>) -> (conf: SolverConf)
        ensures
            conf.option_texts() == options@.map_values(|o: String| o@),
            conf.assuming_command() == (match check_sat_assuming {
                Some(c) => Some(c@),
                None => None,
            }),
            conf.reset_supported(),
    {
        SolverConf { options, check_sat_assuming, reset: true }
    }

    /// Says whether the solver understands the reset command; where it does
    /// not, a reset restarts the solver process.
    pub fn set_reset_support(&mut self, supported: bool)
        ensures
            final(self).reset_supported() == supported,
            final(self).option_texts() == old(self).option_texts(),
            final(self).assuming_command() == old(self).assuming_command(),
    {
        self.reset = supported;
    }

    /// Whether the solver understands the reset command.
    pub fn supports_reset(&self) -> (supported: bool)
        ensures
            supported == self.reset_supported(),
    {
        self.reset
    }

    /// The command-line options of the solver.
    pub fn options(&self) -> (opts: &Vec<String>)
        ensures
            opts@.map_values(|o: String| o@) == self.option_texts(),
    {
        &self.options
    }

    /// The name of the check-sat-assuming command, if the solver supports one.
    pub fn check_sat_assuming(&self) -> (cmd: Option<&str>)
        ensures
            match cmd {
                Some(c) => self.assuming_command() == Some(c@),
                None => self.assuming_command() is None,
            },
    {
        match &self.check_sat_assuming {
            Some(c) => Some(c.as_str()),
            None => None,
        }
    }
}

} // verus!
