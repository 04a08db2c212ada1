//! The configuration, and what stands for a setting that the file leaves out.
use vstd::prelude::*;

verus! {

/// Everything that can be configured.
#[derive(Debug)]
pub struct Config {
    pub capture: CaptureConfig,
    pub redaction: RedactionConfig,
    pub search: SearchConfig,
    pub display: DisplayConfig,
}

/// Which commands are not recorded.
#[derive(Debug)]
pub struct CaptureConfig {
    pub exclude_commands: Vec<String>,
    pub exclude_dirs: Vec<String>,
}

/// What is redacted beside the built-in patterns.
#[derive(Debug)]
pub struct RedactionConfig {
    pub extra_patterns: Vec<String>,
}

/// How a search is made.
#[derive(Debug)]
pub struct SearchConfig {
    pub max_results: usize,
    pub semantic_search: bool,
}

/// What is shown of a session.
#[derive(Debug)]
pub struct DisplayConfig {
    pub show_git_branch: bool,
    pub show_duration: bool,
}

/// The settings that a configuration file holds, each of them optional.
#[derive(Debug)]
pub struct ConfigFile {
    pub exclude_commands: Option<Vec<String>>,
    pub exclude_dirs: Option<Vec<String>>,
    pub extra_patterns: Option<Vec<String>>,
    pub max_results: Option<usize>,
    pub semantic_search: Option<bool>,
    pub show_git_branch: Option<bool>,
    pub show_duration: Option<bool>,
}

/// The strings of a setting, none where it is left out.
pub open spec fn list_or_empty(list: Option<Vec<String>>) -> Seq<String> {
    match list {
        Some(v) => v@,
        None => Seq::empty(),
    }
}

/// A setting, or `default` where it is left out.
pub open spec fn value_or<T>(value: Option<T>, default: T) -> T {
    match value {
        Some(v) => v,
        None => default,
    }
}

impl CaptureConfig {
    /// Nothing is excluded.
    pub open spec fn is_default(self) -> bool {
        self.exclude_commands@.len() == 0 && self.exclude_dirs@.len() == 0
    }
}

impl RedactionConfig {
    /// There are no extra patterns.
    pub open spec fn is_default(self) -> bool {
        self.extra_patterns@.len() == 0
    }
}

impl SearchConfig {
    /// Fifty results, without semantic search.
    pub open spec fn is_default(self) -> bool {
        self.max_results == 50 && !self.semantic_search
    }
}

impl DisplayConfig {
    /// Everything is shown.
    pub open spec fn is_default(self) -> bool {
        self.show_git_branch && self.show_duration
    }
}

impl Config {
    /// Each part is as it is without a file.
    pub open spec fn is_default(self) -> bool {
        &&& self.capture.is_default()
        &&& self.redaction.is_default()
        &&& self.search.is_default()
        &&& self.display.is_default()
    }

    /// The configuration holds what the file says, and the default of each setting
    /// that the file leaves out.
    pub open spec fn follows(self, file: ConfigFile) -> bool {
        &&& self.capture.exclude_commands@ == list_or_empty(file.exclude_commands)
        &&& self.capture.exclude_dirs@ == list_or_empty(file.exclude_dirs)
        &&& self.redaction.extra_patterns@ == list_or_empty(file.extra_patterns)
        &&& self.search.max_results == value_or(file.max_results, 50)
        &&& self.search.semantic_search == value_or(file.semantic_search, false)
        &&& self.display.show_git_branch == value_or(file.show_git_branch, true)
        &&& self.display.show_duration == value_or(file.show_duration, true)
    }
}

impl ConfigFile {
    /// The file leaves every setting out.
    pub open spec fn sets_nothing(self) -> bool {
        &&& self.exclude_commands is None
        &&& self.exclude_dirs is None
        &&& self.extra_patterns is None
        &&& self.max_results is None
        &&& self.semantic_search is None
        &&& self.show_git_branch is None
        &&& self.show_duration is None
    }
}

/// A file that sets nothing amounts to no file at all.
pub proof fn lemma_empty_file_gives_the_defaults(file: ConfigFile, config: Config)
    requires
        file.sets_nothing(),
    ensures
        config.follows(file) <==> config.is_default(),
{
    if config.is_default() {
        assert(config.capture.exclude_commands@ =~= Seq::<String>::empty());
        assert(config.capture.exclude_dirs@ =~= Seq::<String>::empty());
        assert(config.redaction.extra_patterns@ =~= Seq::<String>::empty());
    }
}

/// What a file sets is what is used, for every value and for each setting on its own.
pub proof fn lemma_every_setting_of_a_file_is_used(file: ConfigFile, config: Config)
    requires
        config.follows(file),
    ensures
        file.exclude_commands matches Some(v) ==> config.capture.exclude_commands@ == v@,
        file.exclude_dirs matches Some(v) ==> config.capture.exclude_dirs@ == v@,
        file.extra_patterns matches Some(v) ==> config.redaction.extra_patterns@ == v@,
        file.max_results matches Some(n) ==> config.search.max_results == n,
        file.semantic_search matches Some(b) ==> config.search.semantic_search == b,
        file.show_git_branch matches Some(b) ==> config.display.show_git_branch == b,
        file.show_duration matches Some(b) ==> config.display.show_duration == b,
{
}

/// What a file leaves out is as it is without a file, whatever else the file sets.
pub proof fn lemma_every_missing_setting_has_its_default(file: ConfigFile, config: Config)
    requires
        config.follows(file),
    ensures
        file.exclude_commands is None ==> config.capture.exclude_commands@.len() == 0,
        file.exclude_dirs is None ==> config.capture.exclude_dirs@.len() == 0,
        file.extra_patterns is None ==> config.redaction.extra_patterns@.len() == 0,
        file.max_results is None ==> config.search.max_results == 50,
        file.semantic_search is None ==> !config.search.semantic_search,
        file.show_git_branch is None ==> config.display.show_git_branch,
        file.show_duration is None ==> config.display.show_duration,
{
}

/// Without a file nothing is excluded, there are no extra patterns, fifty results are
/// given at most, without semantic search, and everything is shown.
pub proof fn lemma_defaults(config: Config)
    ensures
        config.is_default() <==> {
            &&& config.capture.exclude_commands@.len() == 0
            &&& config.capture.exclude_dirs@.len() == 0
            &&& config.redaction.extra_patterns@.len() == 0
            &&& config.search.max_results == 50
            &&& !config.search.semantic_search
            &&& config.display.show_git_branch
            &&& config.display.show_duration
        },
{
}

/// The number of results that a search gives at most, where nothing is configured.
pub fn default_max_results() -> (n: usize)
    ensures
        n == 50,
{
    50
}

/// What a switch that is on by default is where nothing is configured.
pub fn default_true() -> (b: bool)
    ensures
        b,
{
    true
}

impl Default for CaptureConfig {
    fn default() -> (c: Self)
        ensures
            c.is_default(),
    {
        CaptureConfig { exclude_commands: Vec::new(), exclude_dirs: Vec::new() }
    }
}

impl Default for RedactionConfig {
    fn default() -> (c: Self)
        ensures
            c.is_default(),
    {
        RedactionConfig { extra_patterns: Vec::new() }
    }
}

impl Default for SearchConfig {
    fn default() -> (c: Self)
        ensures
            c.is_default(),
    {
        SearchConfig { max_results: default_max_results(), semantic_search: false }
    }
}

impl Default for DisplayConfig {
    fn default() -> (c: Self)
        ensures
            c.is_default(),
    {
        DisplayConfig { show_git_branch: default_true(), show_duration: default_true() }
    }
}

impl Default for Config {
    fn default() -> (c: Self)
        ensures
            c.is_default(),
    {
        Config {
            capture: CaptureConfig::default(),
            redaction: RedactionConfig::default(),
            search: SearchConfig::default(),
            display: DisplayConfig::default(),
        }
    }
}

fn or_empty(list: Option<Vec<String>>) -> (v: Vec<String>)
    ensures
        v@ == list_or_empty(list),
{
    match list {
        Some(v) => v,
        None => Vec::new(),
    }
}

/// The configuration to work with. `file` is what was read, or `None` where there is
/// no file or what it holds is not a configuration.
pub fn load_config(file: Option<ConfigFile>) -> (config: Config)
    ensures
        match file {
            Some(f) => config.follows(f),
            None => config.is_default(),
        },
{
    match file {
        None => Config::default(),
        Some(f) => Config {
            capture: CaptureConfig {
                exclude_commands: or_empty(f.exclude_commands),
                exclude_dirs: or_empty(f.exclude_dirs),
            },
            redaction: RedactionConfig { extra_patterns: or_empty(f.extra_patterns) },
            search: SearchConfig {
                max_results: f.max_results.unwrap_or(default_max_results()),
                semantic_search: f.semantic_search.unwrap_or(false),
            },
            display: DisplayConfig {
                show_git_branch: f.show_git_branch.unwrap_or(default_true()),
                show_duration: f.show_duration.unwrap_or(default_true()),
            },
        },
    }
}

} // verus!
