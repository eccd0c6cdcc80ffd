//! What the command line asks for.

use vstd::prelude::*;

verus! {

/// What to do with the site.
#[derive(Debug, Clone, Copy, PartialEq, Eq, Structural)]
pub enum Commands {
    /// Build the site in production mode.
    Build,
    /// Empty the output tree.
    Clean,
    /// Build, then build again whenever the source tree changes.
    Watch,
    /// As `Watch`, and serve the output tree over HTTP on this machine.
    Server {
        /// The port to listen on.
        port: u16,
    },
    /// Write the definitions of the scripts' host functions to disk.
    LuaLib,
}

/// The command line, read.
#[derive(Debug, Clone, Copy)]
pub struct Args {
    command: Option<Commands>,
    force_prod: bool,
    antidote: bool,
    profile_build_times: bool,
}

impl Args {
    /// The command that was given, if one was.
    pub closed spec fn given(self) -> Option<Commands> {
        self.command
    }

    /// Whether production mode is forced.
    pub closed spec fn forced(self) -> bool {
        self.force_prod
    }

    /// Whether the transform against scraping is switched off.
    pub closed spec fn bypass(self) -> bool {
        self.antidote
    }

    /// Whether build times are to be reported.
    pub closed spec fn profiled(self) -> bool {
        self.profile_build_times
    }

    /// The command line with these values.
    pub fn new(
        command: Option<Commands>,
        force_prod: bool,
        antidote: bool,
        profile_build_times: bool,
    ) -> (r: Args)
        ensures
            r.given() == command,
            r.forced() == force_prod,
            r.bypass() == antidote,
            r.profiled() == profile_build_times,
    {
        Args { command, force_prod, antidote, profile_build_times }
    }

    /// The command to run: the one given, or `Build` where none was.
    pub fn command(&self) -> (r: Commands)
        ensures
            r == match self.given() {
                Some(c) => c,
                None => Commands::Build,
            },
    {
        match self.command {
            Some(c) => c,
            None => Commands::Build,
        }
    }

    /// Whether templates see production mode: where it is forced, and in
    /// every run of `Build`.
    pub fn prod(&self) -> (r: bool)
        ensures
            r == (self.forced() || self.given() is None || self.given() == Some(Commands::Build)),
    {
        self.force_prod || matches!(self.command(), Commands::Build)
    }

    /// Whether the transform against scraping is switched off.
    pub fn antidote(&self) -> (r: bool)
        ensures
            r == self.bypass(),
    {
        self.antidote
    }

    /// Whether build times are to be reported.
    pub fn profile_build_times(&self) -> (r: bool)
        ensures
            r == self.profiled(),
    {
        self.profile_build_times
    }
}

} // verus!
