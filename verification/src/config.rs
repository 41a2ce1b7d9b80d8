//! The stored configuration: its presets, where it lies, and how much is
//! logged.

use vstd::prelude::*;
use vstd::string::StringExecFns;

use crate::displays::{DisplaysConfiguration, DisplaysView};
#[allow(unused_imports)]
use crate::search;

verus! {

/// What the configuration file holds.
#[derive(Clone, Debug)]
pub struct StoredConfiguration {
    pub presets: Vec<DisplaysConfiguration>,
    pub log_level: Option<String>,
}

/// The contents of a [`StoredConfiguration`].
pub struct StoredView {
    pub presets: Seq<DisplaysView>,
    pub log_level: Option<Seq<char>>,
}

impl View for StoredConfiguration {
    type V = StoredView;

    open spec fn view(&self) -> StoredView {
        StoredView { presets: self.presets.deep_view(), log_level: self.log_level.deep_view() }
    }
}

/// Why a configuration cannot be used.
#[derive(Clone, Debug)]
pub enum ConfigError {
    /// The file defines no presets.
    NoPresetsDefined,
    /// There is no preset to fall back to.
    NoPresets,
    /// No preset has the profile name that was asked for.
    ProfileNotFound(String),
    /// Neither a configuration directory nor a home directory is known.
    HomeNotSet,
    /// The file's log level is none.
    InvalidLogLevel,
    /// No attached monitor is one of the profile's.
    NoAvailableMonitor,
}

/// The contents of a [`ConfigError`].
pub enum ConfigErrorView {
    NoPresetsDefined,
    NoPresets,
    ProfileNotFound(Seq<char>),
    HomeNotSet,
    InvalidLogLevel,
    NoAvailableMonitor,
}

impl View for ConfigError {
    type V = ConfigErrorView;

    open spec fn view(&self) -> ConfigErrorView {
        match *self {
            ConfigError::NoPresetsDefined => ConfigErrorView::NoPresetsDefined,
            ConfigError::NoPresets => ConfigErrorView::NoPresets,
            ConfigError::ProfileNotFound(name) => ConfigErrorView::ProfileNotFound(name@),
            ConfigError::HomeNotSet => ConfigErrorView::HomeNotSet,
            ConfigError::InvalidLogLevel => ConfigErrorView::InvalidLogLevel,
            ConfigError::NoAvailableMonitor => ConfigErrorView::NoAvailableMonitor,
        }
    }
}

impl ConfigErrorView {
    /// The message that tells the user.
    pub open spec fn message(self) -> Seq<char> {
        match self {
            ConfigErrorView::NoPresetsDefined => "Config file has no presets defined"@,
            ConfigErrorView::NoPresets => "No presets in config"@,
            ConfigErrorView::ProfileNotFound(name) => "Profile '"@ + name
                + "' not found in config"@,
            ConfigErrorView::HomeNotSet => "HOME environment variable not set"@,
            ConfigErrorView::InvalidLogLevel => "Invalid log_level in config file"@,
            ConfigErrorView::NoAvailableMonitor => "No available monitor"@,
        }
    }
}

impl ConfigError {
    /// The message that tells the user.
    pub fn message(&self) -> (r: String)
        ensures
            r@ == self@.message(),
    {
        match self {
            ConfigError::NoPresetsDefined => "Config file has no presets defined".to_owned(),
            ConfigError::NoPresets => "No presets in config".to_owned(),
            ConfigError::ProfileNotFound(name) => {
                let mut out = "Profile '".to_owned();
                out.append(name.as_str());
                out.append("' not found in config");
                out
            },
            ConfigError::HomeNotSet => "HOME environment variable not set".to_owned(),
            ConfigError::InvalidLogLevel => "Invalid log_level in config file".to_owned(),
            ConfigError::NoAvailableMonitor => "No available monitor".to_owned(),
        }
    }
}

/// Whether a preset is of the given profile.
pub open spec fn of_profile(name: Seq<char>) -> spec_fn(DisplaysView) -> bool {
    |p: DisplaysView| p.profile == name
}

/// The preset that is meant: the first of the named profile, or the first of
/// all where no name is given.
pub open spec fn chosen_preset(
    presets: Seq<DisplaysView>,
    profile: Option<Seq<char>>,
) -> Option<DisplaysView> {
    match profile {
        Some(name) => search::first_where(presets, of_profile(name)),
        None => if presets.len() > 0 {
            Some(presets[0])
        } else {
            None
        },
    }
}

/// Accepts a configuration as it was read, unless it defines no presets.
pub fn accept_config(config: StoredConfiguration) -> (r: Result<StoredConfiguration, ConfigError>)
    ensures
        match r {
            Ok(c) => config@.presets.len() > 0 && c == config,
            Err(e) => config@.presets.len() == 0 && e@ == ConfigErrorView::NoPresetsDefined,
        },
{
    if config.presets.len() == 0 {
        Err(ConfigError::NoPresetsDefined)
    } else {
        Ok(config)
    }
}

/// The index of the first preset of the named profile.
fn find_profile(presets: &Vec<DisplaysConfiguration>, name: &String) -> (r: Option<usize>)
    ensures
        match r {
            Some(i) => search::first_index(presets.deep_view(), of_profile(name@)) == Some(
                i as int,
            ) && i < presets.len(),
            None => search::first_index(presets.deep_view(), of_profile(name@)) is None,
        },
{
    let ghost all = presets.deep_view();
    let ghost p = of_profile(name@);
    let mut i: usize = 0;
    while i < presets.len()
        invariant
            i <= presets.len(),
            all == presets.deep_view(),
            p == of_profile(name@),
            forall|j: int| 0 <= j < i ==> !p(#[trigger] all[j]),
        decreases presets.len() - i,
    {
        assert(all[i as int] == presets[i as int]@);
        if presets[i].profile == *name {
            proof {
                search::lemma_first_index_found(all, p, i as int);
            }
            return Some(i);
        }
        i += 1;
    }
    proof {
        search::lemma_first_index_absent(all, p);
    }
    None
}

/// The preset that is meant: the first of the named profile, or the first of
/// all where no name is given.
pub fn select_preset(config: StoredConfiguration, profile: Option<String>) -> (r: Result<
    DisplaysConfiguration,
    ConfigError,
>)
    ensures
        match chosen_preset(config@.presets, profile.deep_view()) {
            Some(p) => r matches Ok(preset) && preset@ == p,
            None => r matches Err(e) && e@ == match profile.deep_view() {
                Some(name) => ConfigErrorView::ProfileNotFound(name),
                None => ConfigErrorView::NoPresets,
            },
        },
{
    let mut presets = config.presets;
    match profile {
        None => if presets.len() == 0 {
            Err(ConfigError::NoPresets)
        } else {
            Ok(presets.remove(0))
        },
        Some(name) => match find_profile(&presets, &name) {
            Some(i) => Ok(presets.remove(i)),
            None => Err(ConfigError::ProfileNotFound(name)),
        },
    }
}

/// Where the configuration file lies.
#[derive(Clone, Debug)]
pub enum ConfigLocation<P> {
    /// At the path that the user gave.
    Explicit(P),
    /// Beneath the first of these, each of the others a name beneath the one
    /// before it.
    Beneath(Vec<String>),
}

/// The path of the configuration file where the user gave none, part by part:
/// beneath the configuration directory, or else beneath the home directory.
pub open spec fn default_location(
    config_home: Option<Seq<char>>,
    home: Option<Seq<char>>,
) -> Option<Seq<Seq<char>>> {
    match (config_home, home) {
        (Some(dir), _) => Some(seq![dir, "mon-mapper"@, "config.yaml"@]),
        (None, Some(dir)) => Some(seq![dir, ".config"@, "mon-mapper"@, "config.yaml"@]),
        (None, None) => None,
    }
}

/// Where the configuration file lies: at the explicit path where there is one,
/// whatever the directories are; else beneath the configuration directory;
/// else beneath the home directory.
pub fn resolve_config_path<P>(
    explicit: Option<P>,
    config_home: Option<String>,
    home: Option<String>,
) -> (r: Result<ConfigLocation<P>, ConfigError>)
    ensures
        match explicit {
            Some(p) => r == Ok::<ConfigLocation<P>, ConfigError>(ConfigLocation::Explicit(p)),
            None => match default_location(config_home.deep_view(), home.deep_view()) {
                Some(parts) => r matches Ok(ConfigLocation::Beneath(names)) && names.deep_view()
                    == parts,
                None => r matches Err(e) && e@ == ConfigErrorView::HomeNotSet,
            },
        },
{
    if let Some(p) = explicit {
        return Ok(ConfigLocation::Explicit(p));
    }
    let mut names: Vec<String> = Vec::new();
    match config_home {
        Some(dir) => names.push(dir),
        None => match home {
            Some(dir) => {
                names.push(dir);
                names.push(".config".to_owned());
            },
            None => {
                return Err(ConfigError::HomeNotSet);
            },
        },
    }
    names.push("mon-mapper".to_owned());
    names.push("config.yaml".to_owned());
    assert(names.deep_view() =~= default_location(config_home.deep_view(), home.deep_view())->0);
    Ok(ConfigLocation::Beneath(names))
}

/// A configuration that was accepted always has a preset to fall back to.
pub proof fn accepted_config_has_a_default(presets: Seq<DisplaysView>)
    requires
        presets.len() > 0,
    ensures
        chosen_preset(presets, None) == Some(presets[0]),
{
}

/// A profile that is asked for by name is the first preset of that name, and is
/// missing only where no preset has it. Where no name is given it is the first
/// preset of all, and is missing only where there is none.
pub proof fn the_first_preset_of_a_name_is_chosen(presets: Seq<DisplaysView>, name: Seq<char>)
    ensures
        match chosen_preset(presets, Some(name)) {
            Some(p) => exists|i: int|
                {
                    &&& 0 <= i < presets.len()
                    &&& #[trigger] presets[i] == p
                    &&& p.profile == name
                    &&& forall|j: int| 0 <= j < i ==> (#[trigger] presets[j]).profile != name
                },
            None => forall|j: int|
                0 <= j < presets.len() ==> (#[trigger] presets[j]).profile != name,
        },
        chosen_preset(presets, None) is None <==> presets.len() == 0,
        presets.len() > 0 ==> chosen_preset(presets, None) == Some(presets[0]),
{
    let p = of_profile(name);
    search::first_index_is_first(presets, p);
    match search::first_index(presets, p) {
        Some(i) => {
            assert(presets[i].profile == name);
            assert forall|j: int| 0 <= j < i implies (#[trigger] presets[j]).profile != name by {
                assert(!p(presets[j]));
            }
        },
        None => {
            assert forall|j: int| 0 <= j < presets.len() implies (#[trigger] presets[j]).profile
                != name by {
                assert(!p(presets[j]));
            }
        },
    }
}

/// A configuration directory decides where the file lies, whatever the home
/// directory is; the home directory decides only where there is none, and stands
/// in for it with its directory `.config`.
pub proof fn the_configuration_directory_comes_first(
    dir: Seq<char>,
    home: Option<Seq<char>>,
    home_dir: Seq<char>,
)
    ensures
        default_location(Some(dir), home) == Some(seq![dir, "mon-mapper"@, "config.yaml"@]),
        default_location(None, Some(home_dir)) == Some(
            seq![home_dir, ".config"@, "mon-mapper"@, "config.yaml"@],
        ),
        default_location(None, None) is None,
{
}

/// Every error tells the user what is wrong; a profile that is not found is named.
pub proof fn every_error_says_what_is_wrong(name: Seq<char>)
    ensures
        ConfigErrorView::ProfileNotFound(name).message() == "Profile '"@ + name
            + "' not found in config"@,
        ConfigErrorView::NoPresetsDefined.message() == "Config file has no presets defined"@,
        ConfigErrorView::NoPresets.message() == "No presets in config"@,
        ConfigErrorView::HomeNotSet.message() == "HOME environment variable not set"@,
        ConfigErrorView::InvalidLogLevel.message() == "Invalid log_level in config file"@,
        ConfigErrorView::NoAvailableMonitor.message() == "No available monitor"@,
{
}

} // verus!
