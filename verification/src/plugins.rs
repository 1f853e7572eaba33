//! Which directories hold plugins, and which plugins can be used.

use vstd::prelude::*;

use crate::config::Config;
use crate::env::Env;
use crate::script::{string_config_map, ScriptValue};
use crate::table::TextMap;
use crate::text::split;

verus! {

use crate::config::resolved;
use crate::script::{settings_map, values, ValueView};
use crate::text::{joined, law_pieces_join, opt_text, pieces, strings};

/// The system that the relay runs on.
#[derive(Debug)]
pub enum Platform {
    /// Windows, with the directory of program data where one is set.
    Windows {
        /// The directory of program data.
        program_data: Option<String>,
    },
    /// macOS.
    MacOs,
    /// Any other Unix.
    Unix,
}

impl Platform {
    /// The character between two paths in a list.
    pub open spec fn list_separator(self) -> char {
        if self is Windows {
            ';'
        } else {
            ':'
        }
    }
}

/// A list of paths, each as its components.
pub open spec fn path_views(paths: Seq<Vec<String>>) -> Seq<Seq<Seq<char>>> {
    paths.map_values(|path: Vec<String>| strings(path@))
}

/// The directories that are scanned for plugins, each as the components of its path. A list that
/// was set wins over everything; a debug build else uses a local directory, and a release build
/// that of the platform.
pub open spec fn scanned(overriding: Option<Seq<char>>, debug: bool, platform: Platform) -> Seq<
    Seq<Seq<char>>,
> {
    match overriding {
        Some(list) => pieces(list, platform.list_separator()).map_values(
            |path: Seq<char>| seq![path],
        ),
        None => if debug {
            seq![seq!["plugins"@]]
        } else {
            match platform {
                Platform::Windows { program_data } => {
                    let base = match program_data {
                        Some(base) => base@,
                        None => "C:\\ProgramData"@,
                    };
                    seq![seq![base, "OxidRelay"@, "plugins"@]]
                },
                Platform::MacOs => seq![seq!["/Library/Application Support/OxidRelay/plugins"@]],
                Platform::Unix => seq![seq!["/etc/oxid-relay/plugins"@]],
            }
        },
    }
}

/// A path of one component, as the only one of a list.
fn one_path(path: &str) -> (paths: Vec<Vec<String>>)
    ensures
        path_views(paths@) == seq![seq![path@]],
{
    let mut parts: Vec<String> = Vec::new();
    parts.push(path.to_owned());
    let mut paths: Vec<Vec<String>> = Vec::new();
    assert(strings(parts@) == seq![path@]);
    paths.push(parts);
    assert(path_views(paths@) == seq![seq![path@]]);
    paths
}

/// The directories that are scanned for plugins, each as the components of its path.
pub fn plugin_dirs(overriding: &Option<String>, debug: bool, platform: &Platform) -> (paths: Vec<
    Vec<String>,
>)
    ensures
        path_views(paths@) == scanned(opt_text(*overriding), debug, *platform),
{
    if let Some(list) = overriding {
        let sep = match platform {
            Platform::Windows { .. } => ';',
            _ => ':',
        };
        let parts = split(list.as_str(), sep);
        let ghost views = pieces(list@, sep).map_values(|path: Seq<char>| seq![path]);
        let mut paths: Vec<Vec<String>> = Vec::new();
        let mut i: usize = 0;
        assert(path_views(paths@) == views.take(0));
        while i < parts.len()
            invariant
                i <= parts@.len(),
                views == strings(parts@).map_values(|path: Seq<char>| seq![path]),
                path_views(paths@) == views.take(i as int),
            decreases parts@.len() - i,
        {
            let ghost before = path_views(paths@);
            let mut path: Vec<String> = Vec::new();
            path.push(parts[i].clone());
            let ghost view = strings(path@);
            assert(view == seq![parts@[i as int]@]);
            paths.push(path);
            assert(path_views(paths@) == before.push(view));
            assert(views.take(i + 1) == views.take(i as int).push(view));
            i += 1;
        }
        assert(views.take(parts@.len() as int) == views);
        return paths;
    }
    if debug {
        return one_path("plugins");
    }
    match platform {
        Platform::Windows { program_data } => {
            let base = match program_data {
                Some(base) => base.clone(),
                None => "C:\\ProgramData".to_owned(),
            };
            let ghost base_view = base@;
            let mut parts: Vec<String> = Vec::new();
            parts.push(base);
            parts.push("OxidRelay".to_owned());
            parts.push("plugins".to_owned());
            assert(strings(parts@) == seq![base_view, "OxidRelay"@, "plugins"@]);
            let mut paths: Vec<Vec<String>> = Vec::new();
            paths.push(parts);
            assert(path_views(paths@) == seq![seq![base_view, "OxidRelay"@, "plugins"@]]);
            paths
        },
        Platform::MacOs => one_path("/Library/Application Support/OxidRelay/plugins"),
        Platform::Unix => one_path("/etc/oxid-relay/plugins"),
    }
}

/// A plugin that can be used, and the settings that its script is handed.
#[derive(Debug)]
pub struct UsablePlugin {
    /// Position of the plugin among those that were found.
    pub index: usize,
    /// The settings.
    pub settings: TextMap<ScriptValue>,
}

/// What a list of usable plugins stands for.
pub open spec fn usable_views(list: Seq<UsablePlugin>) -> Seq<(int, Seq<(Seq<char>, ValueView)>)> {
    list.map_values(|p: UsablePlugin| (p.index as int, values(p.settings@)))
}

/// The plugins among those of the given names that can be used, in their order: those whose
/// secrets are all set.
pub open spec fn usable(config: Config, names: Seq<Seq<char>>, env: Env) -> Seq<
    (int, Seq<(Seq<char>, ValueView)>),
>
    decreases names.len(),
{
    if names.len() == 0 {
        Seq::empty()
    } else {
        let before = usable(config, names.drop_last(), env);
        match resolved(config.raw_settings(names.last()), |var: Seq<char>| env.value(var)) {
            Ok(settings) => before.push((names.len() - 1, settings_map(settings))),
            Err(_) => before,
        }
    }
}

/// The plugins that can be used. One with a secret that is not set is skipped.
pub fn usable_plugins(config: &Config, names: &Vec<String>, env: &Env) -> (list: Vec<UsablePlugin>)
    ensures
        usable_views(list@) == usable(*config, strings(names@), *env),
{
    let ghost all = strings(names@);
    let mut list: Vec<UsablePlugin> = Vec::new();
    let mut i: usize = 0;
    assert(all.take(0) == Seq::<Seq<char>>::empty());
    assert(usable_views(list@) == Seq::<(int, Seq<(Seq<char>, ValueView)>)>::empty());
    while i < names.len()
        invariant
            i <= names@.len(),
            all == strings(names@),
            usable_views(list@) == usable(*config, all.take(i as int), *env),
        decreases names@.len() - i,
    {
        let ghost before = usable_views(list@);
        assert(all.take(i + 1).drop_last() == all.take(i as int));
        assert(all.take(i + 1).last() == names@[i as int]@);
        if let Ok(settings) = config.plugin_settings(names[i].as_str(), env) {
            let plugin = UsablePlugin { index: i, settings: string_config_map(&settings) };
            let ghost view = (plugin.index as int, values(plugin.settings@));
            list.push(plugin);
            assert(usable_views(list@) == before.push(view));
        }
        i += 1;
    }
    assert(all.take(names@.len() as int) == all);
    list
}

/// A list of directories that was set is scanned as it is, in a debug build and in a release: its
/// parts between the separators, semicolons on Windows and colons elsewhere, each as one path.
pub proof fn law_set_directories_win(list: Seq<char>, debug: bool, platform: Platform)
    ensures
        ({
            let sep = if platform is Windows {
                ';'
            } else {
                ':'
            };
            let paths = scanned(Some(list), debug, platform);
            &&& forall|i: int|
                0 <= i < paths.len() ==> (#[trigger] paths[i]).len() == 1 && !paths[i][0].contains(
                    sep,
                )
            &&& joined(paths.map_values(|path: Seq<Seq<char>>| path[0]), sep) == list
        }),
{
    let sep = if platform is Windows {
        ';'
    } else {
        ':'
    };
    let parts = pieces(list, sep);
    let paths = scanned(Some(list), debug, platform);
    law_pieces_join(list, sep);
    assert(paths.map_values(|path: Seq<Seq<char>>| path[0]) == parts);
    assert forall|i: int| 0 <= i < paths.len() implies (#[trigger] paths[i]).len() == 1
        && !paths[i][0].contains(sep) by {
        assert(paths[i][0] == parts[i]);
    }
}

/// Where no list was set one directory is scanned: the local one in a debug build, whatever the
/// platform is, and that of the platform in a release.
pub proof fn law_one_directory_where_none_was_set(platform: Platform)
    ensures
        scanned(None, true, platform) == seq![seq!["plugins"@]],
        scanned(None, false, platform).len() == 1,
        platform is Unix ==> scanned(None, false, platform)[0] == seq!["/etc/oxid-relay/plugins"@],
        platform is MacOs ==> scanned(None, false, platform)[0]
            == seq!["/Library/Application Support/OxidRelay/plugins"@],
        platform matches Platform::Windows { program_data: Some(base) } ==> scanned(
            None,
            false,
            platform,
        )[0] == seq![base@, "OxidRelay"@, "plugins"@],
        platform matches Platform::Windows { program_data: None } ==> scanned(
            None,
            false,
            platform,
        )[0] == seq!["C:\\ProgramData"@, "OxidRelay"@, "plugins"@],
{
}

/// Every plugin whose secrets are set can be used, with its own settings, and no other; they keep
/// the order in which they were found.
pub proof fn law_plugins_with_their_secrets_are_used(
    config: Config,
    names: Seq<Seq<char>>,
    env: Env,
)
    ensures
        ({
            let list = usable(config, names, env);
            &&& forall|k: int|
                0 <= k < list.len() ==> {
                    let i = (#[trigger] list[k]).0;
                    &&& 0 <= i < names.len()
                    &&& resolved(
                        config.raw_settings(names[i]),
                        |var: Seq<char>| env.value(var),
                    ) matches Ok(settings) && list[k].1 == settings_map(settings)
                }
            &&& forall|k: int, l: int|
                0 <= k < l < list.len() ==> (#[trigger] list[k]).0 < (#[trigger] list[l]).0
            &&& forall|i: int|
                0 <= i < names.len() && resolved(
                    config.raw_settings(#[trigger] names[i]),
                    |var: Seq<char>| env.value(var),
                ) is Ok ==> exists|k: int| 0 <= k < list.len() && (#[trigger] list[k]).0 == i
        }),
    decreases names.len(),
{
    if names.len() > 0 {
        let rest = names.drop_last();
        let last = names.len() - 1;
        law_plugins_with_their_secrets_are_used(config, rest, env);
        let before = usable(config, rest, env);
        let list = usable(config, names, env);
        assert forall|i: int| 0 <= i < last implies #[trigger] names[i] == rest[i] by {}
        assert forall|k: int| 0 <= k < before.len() implies #[trigger] list[k] == before[k] by {}
        assert forall|i: int|
            0 <= i < names.len() && resolved(
                config.raw_settings(#[trigger] names[i]),
                |var: Seq<char>| env.value(var),
            ) is Ok implies exists|k: int| 0 <= k < list.len() && (#[trigger] list[k]).0 == i by {
            if i < last {
                assert(rest[i] == names[i]);
                let k = choose|k: int| 0 <= k < before.len() && (#[trigger] before[k]).0 == i;
                assert(list[k].0 == i);
            } else {
                assert(list[before.len() as int].0 == i);
            }
        }
        assert forall|k: int| 0 <= k < list.len() implies {
            let i = (#[trigger] list[k]).0;
            &&& 0 <= i < names.len()
            &&& resolved(
                config.raw_settings(names[i]),
                |var: Seq<char>| env.value(var),
            ) matches Ok(settings) && list[k].1 == settings_map(settings)
        } by {
            if k < before.len() {
                assert(list[k] == before[k]);
                assert(names[before[k].0] == rest[before[k].0]);
            }
        }
    }
}

/// The plugins that can be used are, in their order, those whose secrets are all set.
pub proof fn law_plugins_that_are_used(
    config: &Config,
    names: &Vec<String>,
    env: &Env,
    list: Vec<UsablePlugin>,
)
    requires
        call_ensures(usable_plugins, (config, names, env), list),
    ensures
        forall|k: int|
            0 <= k < list@.len() ==> (#[trigger] list@[k]).index < names@.len() && resolved(
                config.raw_settings(names@[list@[k].index as int]@),
                |var: Seq<char>| env.value(var),
            ) is Ok,
        forall|i: int|
            0 <= i < names@.len() && resolved(
                config.raw_settings((#[trigger] names@[i])@),
                |var: Seq<char>| env.value(var),
            ) is Ok ==> exists|k: int| 0 <= k < list@.len() && (#[trigger] list@[k]).index == i,
        forall|k: int, l: int|
            0 <= k < l < list@.len() ==> (#[trigger] list@[k]).index < (#[trigger] list@[l]).index,
{
    let all = strings(names@);
    let views = usable_views(list@);
    law_plugins_with_their_secrets_are_used(*config, all, *env);
    assert forall|k: int| 0 <= k < list@.len() implies (#[trigger] list@[k]).index < names@.len()
        && resolved(
        config.raw_settings(names@[list@[k].index as int]@),
        |var: Seq<char>| env.value(var),
    ) is Ok by {
        assert(views[k].0 == list@[k].index);
        assert(all[views[k].0] == names@[views[k].0]@);
    }
    assert forall|i: int|
        0 <= i < names@.len() && resolved(
            config.raw_settings((#[trigger] names@[i])@),
            |var: Seq<char>| env.value(var),
        ) is Ok implies exists|k: int| 0 <= k < list@.len() && (#[trigger] list@[k]).index == i by {
        assert(all[i] == names@[i]@);
        let k = choose|k: int| 0 <= k < views.len() && (#[trigger] views[k]).0 == i;
        assert(list@[k].index == i);
    }
    assert forall|k: int, l: int| 0 <= k < l < list@.len() implies (#[trigger] list@[k]).index < (
    #[trigger] list@[l]).index by {
        assert(views[k].0 < views[l].0);
    }
}

} // verus!
