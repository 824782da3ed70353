//! The state that the program keeps for its whole run: the current
//! configuration, the list of saved configurations and the shared values.
use vstd::prelude::*;

use crate::config::{default_first, config_names, put_default_first, Config};
use crate::globals::{initial_globals, Globals};

verus! {

/// The program-wide state.
pub struct AppState {
    config: Config,
    config_names: Vec<String>,
    globals: Globals,
}

/// The character sequences of a list of strings.
pub open spec fn string_views(v: Seq<String>) -> Seq<Seq<char>> {
    v.map_values(|s: String| s@)
}

impl AppState {
    /// The current configuration.
    pub closed spec fn config(&self) -> Config {
        self.config
    }

    /// The names of the saved configurations.
    pub closed spec fn names(&self) -> Seq<Seq<char>> {
        string_views(self.config_names@)
    }

    /// The shared values.
    pub closed spec fn globals(&self) -> Globals {
        self.globals
    }

    /// The state at start: the given configuration, the saved configurations
    /// found among `file_names` (with `default` swapped into first place) and
    /// the default shared values.
    pub fn new(config: Config, file_names: &Vec<String>) -> (res: AppState)
        ensures
            res.config() == config,
            res.names() == default_first(config_names(string_views(file_names@))),
            res.globals() == initial_globals(),
    {
        let mut names = Config::get_config_names(file_names);
        put_default_first(&mut names);
        AppState { config, config_names: names, globals: Globals::default() }
    }
}

impl Config {
    /// The current configuration.
    pub fn read(state: &AppState) -> (res: &Config)
        ensures
            *res == state.config(),
    {
        &state.config
    }

    /// The current configuration, for changing it.
    pub fn write(state: &mut AppState) -> (res: &mut Config)
        ensures
            *res == old(state).config(),
            final(state).config() == *final(res),
            final(state).names() == old(state).names(),
            final(state).globals() == old(state).globals(),
    {
        &mut state.config
    }

    /// The names of the saved configurations.
    pub fn list_configs(state: &AppState) -> (res: &Vec<String>)
        ensures
            string_views(res@) == state.names(),
    {
        &state.config_names
    }

    /// Replaces the list of saved configurations by those found among
    /// `file_names`, with `default` swapped into first place.
    pub fn refresh_configs(state: &mut AppState, file_names: &Vec<String>)
        ensures
            final(state).names() == default_first(config_names(string_views(file_names@))),
            final(state).config() == old(state).config(),
            final(state).globals() == old(state).globals(),
    {
        let mut names = Config::get_config_names(file_names);
        put_default_first(&mut names);
        state.config_names = names;
    }
}

impl Globals {
    /// The shared values.
    pub fn read(state: &AppState) -> (res: &Globals)
        ensures
            *res == state.globals(),
    {
        &state.globals
    }

    /// The shared values, for changing them.
    pub fn write(state: &mut AppState) -> (res: &mut Globals)
        ensures
            *res == old(state).globals(),
            final(state).globals() == *final(res),
            final(state).names() == old(state).names(),
            final(state).config() == old(state).config(),
    {
        &mut state.globals
    }
}

} // verus!
