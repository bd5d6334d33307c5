use std::collections::BTreeMap;

use monitor_switcher::config::{
    default_hdmi_port, missing_config_message, read, save_step, temporary_suffix, yes, CecConfig,
    Config, Directory, DirectoryState, Reading, SavePaths, SaveState, Surroundings, TargetEntry,
};
use monitor_switcher::display::TargetKey;
use monitor_switcher::error::{causes, Error};
use serde_json::Value;

/// What is at a path of the disk below.
enum Node {
    Directory,
    File(String),
}

/// A disk in memory, so that saving can be driven step by step.
struct Disk {
    nodes: BTreeMap<String, Node>,
}

const DIR: &str = "scratch";

fn parent(path: &str) -> Option<String> {
    path.rfind('/').map(|i| path[..i].to_string())
}

impl Disk {
    fn new() -> Self {
        let mut nodes = BTreeMap::new();
        nodes.insert(DIR.to_string(), Node::Directory);
        Self { nodes }
    }

    fn is_directory(&self, path: &str) -> bool {
        matches!(self.nodes.get(path), Some(Node::Directory))
    }

    fn is_file(&self, path: &str) -> bool {
        matches!(self.nodes.get(path), Some(Node::File(_)))
    }

    fn make_directory(&mut self, path: &str) {
        let mut at = Some(path.to_string());
        while let Some(dir) = at {
            self.nodes.entry(dir.clone()).or_insert(Node::Directory);
            at = parent(&dir);
        }
    }

    fn create(&mut self, path: &str) -> Result<(), String> {
        if parent(path).is_some_and(|dir| self.is_directory(&dir)) {
            self.nodes.insert(path.to_string(), Node::File(String::new()));
            Ok(())
        } else {
            Err("no such directory".to_string())
        }
    }

    fn write(&mut self, path: &str, text: &str) -> Result<(), String> {
        match self.nodes.get_mut(path) {
            Some(Node::File(held)) => {
                *held = text.to_string();
                Ok(())
            }
            _ => Err("no such file".to_string()),
        }
    }

    /// A directory cannot be replaced by a rename.
    fn rename(&mut self, from: &str, to: &str) -> Result<(), String> {
        if self.is_directory(to) {
            return Err("access is denied".to_string());
        }
        match self.nodes.remove(from) {
            Some(node) => {
                self.nodes.insert(to.to_string(), node);
                Ok(())
            }
            None => Err("no such file".to_string()),
        }
    }

    fn entries(&self, dir: &str) -> Vec<String> {
        self.nodes
            .keys()
            .filter(|k| parent(k).as_deref() == Some(dir))
            .map(|k| k[dir.len() + 1..].to_string())
            .collect()
    }

    fn found(&self, path: &str) -> Reading {
        match self.nodes.get(path) {
            None => Reading::NotFound,
            Some(Node::Directory) => Reading::Failed { why: "access is denied".to_string() },
            Some(Node::File(text)) => match serde_json::from_str::<Value>(text) {
                Ok(value) => Reading::Parsed { config: understood(&value) },
                Err(e) => Reading::Unparsable { why: e.to_string() },
            },
        }
    }

    fn around(&self, path: &str) -> Surroundings {
        let directory = parent(path).map(|name| {
            let state = if self.is_directory(&name) {
                DirectoryState::Holds { names: self.entries(&name) }
            } else {
                DirectoryState::Missing
            };
            Directory { name, state }
        });
        Surroundings { directory, local_app_data: None }
    }

    fn load(&self, path: &str) -> Result<Config, Error> {
        Config::load(path, self.found(path), &self.around(path))
    }

    fn load_or_default(&self, path: &str) -> Result<Config, Error> {
        Config::load_or_default(path, self.found(path))
    }

    fn save(&mut self, config: &Config, path: &str) -> Result<(), Error> {
        let paths = SavePaths {
            directory: parent(path),
            temporary: format!("{path}{}", temporary_suffix(7)),
            config: path.to_string(),
        };
        let mut state = Config::save(&paths);
        let mut text = String::new();
        loop {
            let outcome = match &state {
                SaveState::MakeDirectory => {
                    self.make_directory(paths.directory.as_deref().unwrap_or(""));
                    Ok(())
                }
                SaveState::Serialise => {
                    text = written(config);
                    Ok(())
                }
                SaveState::Create => self.create(&paths.temporary),
                SaveState::Write => self.write(&paths.temporary, &text),
                SaveState::Flush => Ok(()),
                SaveState::Move => self.rename(&paths.temporary, &paths.config),
                SaveState::Tidy { .. } => {
                    self.nodes.remove(&paths.temporary);
                    Ok(())
                }
                SaveState::Done => return Ok(()),
                SaveState::Failed { .. } => break,
            };
            state = save_step(state, &paths, outcome);
        }
        match state {
            SaveState::Failed { error } => Err(error),
            _ => unreachable!(),
        }
    }
}

fn written(config: &Config) -> String {
    let mut targets = serde_json::Map::new();
    for i in 0..config.targets.len() {
        let key = &config.targets.value_at(i).key;
        let mut entry = serde_json::Map::new();
        entry.insert("adapter".to_string(), Value::from(key.adapter.as_str()));
        entry.insert("target_id".to_string(), Value::from(key.target_id));
        targets.insert(config.targets.name_at(i).clone(), Value::Object(entry));
    }
    let mut profiles = serde_json::Map::new();
    for i in 0..config.profiles.len() {
        let members = config.profiles.value_at(i).clone();
        profiles.insert(config.profiles.name_at(i).clone(), Value::from(members));
    }
    let mut all = serde_json::Map::new();
    all.insert("targets".to_string(), Value::Object(targets));
    all.insert("profiles".to_string(), Value::Object(profiles));
    serde_json::to_string_pretty(&Value::Object(all)).unwrap() + "\n"
}

fn understood(value: &Value) -> Config {
    let mut config = Config::default();
    for (name, entry) in value["targets"].as_object().unwrap() {
        let key = TargetKey {
            adapter: entry["adapter"].as_str().unwrap().to_string(),
            target_id: entry["target_id"].as_u64().unwrap() as u32,
        };
        config.targets.insert(
            name.clone(),
            TargetEntry { key, edid: None, friendly: None, cec: None },
        );
    }
    for (name, members) in value["profiles"].as_object().unwrap() {
        let members = members.as_array().unwrap();
        config.profiles.insert(
            name.clone(),
            members.iter().map(|m| m.as_str().unwrap().to_string()).collect(),
        );
    }
    config
}

fn config_with(profile: &str, members: &[&str]) -> Config {
    let mut config = Config::default();
    for (i, name) in members.iter().enumerate() {
        config.targets.insert(
            (*name).to_string(),
            TargetEntry {
                key: TargetKey {
                    adapter: "adapter-0".into(),
                    target_id: 100 + i as u32,
                },
                edid: None,
                friendly: None,
                cec: None,
            },
        );
    }
    config.profiles.insert(
        profile.to_string(),
        members.iter().map(|s| (*s).to_string()).collect(),
    );
    config
}

#[test]
fn save_then_load_round_trips() {
    let mut disk = Disk::new();
    let path = "scratch/config.json";
    disk.save(&config_with("tv", &["main", "tv"]), path).unwrap();

    let loaded = disk.load(path).unwrap();
    assert_eq!(loaded.profiles.get("tv").unwrap(), &vec!["main", "tv"]);
    assert_eq!(loaded.targets.get("main").unwrap().key.target_id, 100);
    assert_eq!(loaded.targets.get("tv").unwrap().key.target_id, 101);
}

#[test]
fn save_replaces_an_existing_config() {
    let mut disk = Disk::new();
    let path = "scratch/config.json";
    disk.save(&config_with("old", &["main"]), path).unwrap();
    disk.save(&config_with("new", &["main"]), path).unwrap();

    let loaded = disk.load(path).unwrap();
    assert!(loaded.profiles.contains_key("new"));
    assert!(
        !loaded.profiles.contains_key("old"),
        "the replaced profile survived"
    );
}

#[test]
fn save_leaves_no_temporary_file_behind() {
    let mut disk = Disk::new();
    disk.save(&config_with("tv", &["main"]), "scratch/config.json").unwrap();
    assert_eq!(disk.entries(DIR), ["config.json"]);
}

#[test]
fn save_creates_the_directory_it_needs() {
    let mut disk = Disk::new();
    let path = "scratch/nested/deeper/config.json";
    disk.save(&config_with("tv", &["main"]), path).unwrap();
    assert!(disk.is_file(path));
}

/// The whole point of the temp-file-and-rename dance: a save that cannot finish must
/// not take the existing config down with it, and must not leave its working file
/// lying around either.
#[test]
fn a_save_that_cannot_finish_reports_it_and_tidies_up() {
    let mut disk = Disk::new();
    // A non-empty directory cannot be replaced by a rename, so the move at the end
    // of the save fails after the temporary file has been written.
    let path = "scratch/config.json";
    disk.make_directory(path);
    disk.create("scratch/config.json/occupied").unwrap();

    let err = disk.save(&config_with("tv", &["main"]), path).unwrap_err();
    let rendered = err.message();
    assert!(rendered.contains("config.json"), "{rendered}");
    assert_eq!(
        disk.entries(DIR),
        ["config.json"],
        "a temporary file was left behind"
    );
}

#[test]
fn load_or_default_accepts_a_missing_file() {
    let disk = Disk::new();
    let config = disk.load_or_default("scratch/absent.json").unwrap();
    assert!(config.targets.is_empty() && config.profiles.is_empty());
}

#[test]
fn load_explains_a_missing_file_rather_than_inventing_one() {
    let disk = Disk::new();
    let err = disk.load("scratch/absent.json").unwrap_err().message();
    assert!(err.contains("absent.json"), "{err}");
    assert!(err.contains("save-profile"), "{err}");
}

#[test]
fn a_corrupt_config_is_a_parse_error_not_an_empty_config() {
    let mut disk = Disk::new();
    let path = "scratch/config.json";
    disk.create(path).unwrap();
    disk.write(path, "{ this is not json").unwrap();
    let error = disk.load_or_default(path).unwrap_err();
    let err = error.message();
    assert!(err.contains("parsing config"), "{err}");
    let layers = causes(&error);
    assert_eq!(layers.len(), 2, "{layers:?}");
    assert_eq!(layers[0], "parsing config at scratch/config.json");
}

#[test]
fn a_config_that_cannot_be_read_is_not_a_missing_one() {
    let found = Reading::Failed { why: "access is denied".to_string() };
    let error = read("c.json", found).unwrap_err();
    assert_eq!(error.message(), "reading config at c.json: access is denied");
    assert_eq!(causes(&error), ["reading config at c.json", "access is denied"]);
    assert!(read("c.json", Reading::NotFound).unwrap().is_none());
}

#[test]
fn a_missing_config_is_explained_in_full() {
    let around = |state| Surroundings {
        directory: Some(Directory { name: "d".to_string(), state }),
        local_app_data: Some("L".to_string()),
    };
    let tail = "\n  LOCALAPPDATA for this process is L\n  Run `monitor-switcher save-profile <name>` to create one, or pass --config <path> to use one elsewhere.";
    for (state, said) in [
        (DirectoryState::Missing, "does not exist"),
        (DirectoryState::Holds { names: vec![] }, "exists but is empty"),
        (
            DirectoryState::Holds { names: vec!["a".to_string(), "b".to_string()] },
            "exists and contains: a, b",
        ),
        (DirectoryState::Unreadable { why: "no".to_string() }, "cannot be read: no"),
    ] {
        assert_eq!(
            missing_config_message("d/c.json", &around(state)),
            format!("no config at d/c.json\n  the directory d {said}{tail}")
        );
    }
    let bare = Surroundings { directory: None, local_app_data: None };
    assert!(missing_config_message("c.json", &bare)
        .starts_with("no config at c.json\n  LOCALAPPDATA is not set for this process\n  Run "));
}

#[test]
fn the_usual_place_is_below_local_app_data() {
    assert_eq!(
        Config::default_path(Ok("L".to_string())).unwrap(),
        ["L", "monitor-switcher", "config.json"]
    );
    assert!(Config::default_path(Err("unset".to_string())).is_err());
}

#[test]
fn an_output_goes_by_the_first_of_its_names() {
    let mut config = config_with("tv", &["zoe", "tv"]);
    let key = TargetKey { adapter: "adapter-0".into(), target_id: 100 };
    assert_eq!(config.name_for(&key), Some("zoe"));
    config.targets.insert(
        "main".to_string(),
        TargetEntry { key: key.clone(), edid: None, friendly: None, cec: None },
    );
    assert_eq!(config.name_for(&key), Some("main"));
    let other = TargetKey { adapter: "adapter-1".into(), target_id: 100 };
    assert_eq!(config.name_for(&other), None);
}

#[test]
fn the_switch_pair_has_two_names() {
    let mut config = Config::default();
    assert!(matches!(config.switch_pair(), Err(Error::NoSwitchPair)));
    config.switch = Some(vec!["a".to_string(), "b".to_string()]);
    assert_eq!(config.switch_pair().unwrap(), ("a".to_string(), "b".to_string()));
    config.switch = Some(vec![]);
    assert!(matches!(config.switch_pair(), Err(Error::BadSwitchPair { found: 0 })));
}

#[test]
fn power_control_is_on_unless_it_is_turned_off() {
    let conf = CecConfig::default();
    assert_eq!(
        conf,
        CecConfig { hdmi_port: 1, power_on: true, standby: true, activate_source: true }
    );
    assert_eq!(default_hdmi_port(), 1);
    assert!(yes());
}

#[test]
fn a_save_says_which_step_failed() {
    let paths = SavePaths {
        directory: Some("d".to_string()),
        temporary: "d/c.7.tmp".to_string(),
        config: "d/c".to_string(),
    };
    let fail = |state| match save_step(state, &paths, Err("no".to_string())) {
        SaveState::Failed { error } | SaveState::Tidy { error } => error.message(),
        _ => panic!("did not fail"),
    };
    assert_eq!(fail(SaveState::MakeDirectory), "creating d: no");
    assert_eq!(fail(SaveState::Serialise), "no");
    assert_eq!(fail(SaveState::Create), "creating d/c.7.tmp: no");
    assert_eq!(fail(SaveState::Write), "writing d/c.7.tmp: no");
    assert_eq!(fail(SaveState::Flush), "flushing d/c.7.tmp to disk: no");
    assert_eq!(fail(SaveState::Move), "moving d/c.7.tmp into place as d/c: no");
    // Nothing is beside the config before the directory is there.
    let failed = save_step(SaveState::MakeDirectory, &paths, Err("no".to_string()));
    assert!(matches!(failed, SaveState::Failed { .. }));
    let tidy = save_step(SaveState::Write, &paths, Err("no".to_string()));
    assert!(matches!(tidy, SaveState::Tidy { .. }));
    assert_eq!(temporary_suffix(4711), ".4711.tmp");
}
