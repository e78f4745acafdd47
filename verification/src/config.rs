//! String-keyed settings, as providers and the executable consume them.

use crate::text::same_text;
use vstd::prelude::*;
use vstd::string::StringExecFns;

verus! {

/// The value that `entries` gives for `key`: that of the first entry with
/// this key.
pub open spec fn lookup(entries: Seq<(Seq<char>, Seq<char>)>, key: Seq<char>) -> Option<Seq<char>>
    decreases entries.len(),
{
    if entries.len() == 0 {
        None
    } else if entries.first().0 == key {
        Some(entries.first().1)
    } else {
        lookup(entries.drop_first(), key)
    }
}

/// `entries` with `key` set to `value`: the first entry with this key is
/// replaced in place, and without one a new entry is added at the end.
pub open spec fn updated(
    entries: Seq<(Seq<char>, Seq<char>)>,
    key: Seq<char>,
    value: Seq<char>,
) -> Seq<(Seq<char>, Seq<char>)>
    decreases entries.len(),
{
    if entries.len() == 0 {
        seq![(key, value)]
    } else if entries.first().0 == key {
        seq![(key, value)] + entries.drop_first()
    } else {
        seq![entries.first()] + updated(entries.drop_first(), key, value)
    }
}

/// `entries` set one after the other, on top of `settings`.
pub open spec fn assembled(
    settings: Seq<(Seq<char>, Seq<char>)>,
    entries: Seq<(Seq<char>, Seq<char>)>,
) -> Seq<(Seq<char>, Seq<char>)>
    decreases entries.len(),
{
    if entries.len() == 0 {
        settings
    } else {
        updated(assembled(settings, entries.drop_last()), entries.last().0, entries.last().1)
    }
}

/// Pairs of texts as characters.
pub open spec fn pairs_view(pairs: Seq<(String, String)>) -> Seq<(Seq<char>, Seq<char>)> {
    Seq::new(pairs.len(), |i: int| (pairs[i].0@, pairs[i].1@))
}

/// The table that the TOML document `contents` holds, as pairs of key and
/// value in the order of the keys; nothing for text that is no TOML
/// document or holds anything but text values at its top level.
pub uninterp spec fn toml_table(contents: Seq<char>) -> Option<Seq<(Seq<char>, Seq<char>)>>;

/// Reads `contents` with `toml::from_str` as a map from keys to text values
/// and lists its pairs in the order of the keys. What the reader accepts,
/// and what it then holds, depends on `contents` alone.
#[verifier::external_body]
fn read_table(contents: &str) -> (table: Option<Vec<(String, String)>>)
    ensures
        match table {
            Some(pairs) => toml_table(contents@) == Some(pairs_view(pairs@)),
            None => toml_table(contents@) is None,
        },
{
    match toml::from_str::<std::collections::BTreeMap<String, String>>(contents) {
        Ok(table) => Some(table.into_iter().collect()),
        Err(_) => None,
    }
}

/// Why settings could not be read.
#[derive(Debug, Clone, Copy, PartialEq, Eq, Structural)]
pub enum ConfigError {
    /// The text is no table of text values.
    Invalid,
}

/// A string-keyed mapping, in the order in which its keys were first set.
#[derive(Debug)]
pub struct Settings {
    entries: Vec<(String, String)>,
}

impl View for Settings {
    type V = Seq<(Seq<char>, Seq<char>)>;

    closed spec fn view(&self) -> Seq<(Seq<char>, Seq<char>)> {
        Seq::new(self.entries@.len(), |i: int| (self.entries@[i].0@, self.entries@[i].1@))
    }
}

impl Settings {
    /// No settings.
    pub fn new() -> (settings: Settings)
        ensures
            settings@ == Seq::<(Seq<char>, Seq<char>)>::empty(),
    {
        let settings = Settings { entries: Vec::new() };
        assert(settings@ =~= Seq::empty());
        settings
    }

    /// The number of keys.
    pub fn len(&self) -> (count: usize)
        ensures
            count == self@.len(),
    {
        self.entries.len()
    }

    /// The value of `key`, if it is set.
    pub fn get(&self, key: &str) -> (value: Option<&str>)
        ensures
            match value {
                Some(text) => lookup(self@, key@) == Some(text@),
                None => lookup(self@, key@) is None,
            },
    {
        let mut i: usize = 0;
        assert(self@.skip(0) =~= self@);
        while i < self.entries.len()
            invariant
                i <= self.entries.len(),
                lookup(self@, key@) == lookup(self@.skip(i as int), key@),
            decreases self.entries.len() - i,
        {
            assert(self@.skip(i as int).drop_first() =~= self@.skip(i + 1));
            if same_text(self.entries[i].0.as_str(), key) {
                return Some(self.entries[i].1.as_str());
            }
            i += 1;
        }
        None
    }

    /// Sets `key` to `value`.
    pub fn set(&mut self, key: &str, value: &str)
        ensures
            final(self)@ == updated(old(self)@, key@, value@),
    {
        let ghost before = self@;
        let mut i: usize = 0;
        assert(before.skip(0) =~= before);
        assert(before.take(0) + updated(before, key@, value@) =~= updated(before, key@, value@));
        while i < self.entries.len()
            invariant
                i <= self.entries.len(),
                self@ == before,
                before == old(self)@,
                updated(before, key@, value@) == before.take(i as int) + updated(
                    before.skip(i as int),
                    key@,
                    value@,
                ),
            decreases self.entries.len() - i,
        {
            assert(before.skip(i as int).drop_first() =~= before.skip(i + 1));
            assert(before.skip(i as int).first() == before[i as int]);
            assert(before[i as int].0 == self.entries[i as int].0@);
            if same_text(self.entries[i].0.as_str(), key) {
                assert(updated(before.skip(i as int), key@, value@) == seq![(key@, value@)]
                    + before.skip(i + 1));
                self.entries[i].1 = String::from_str(value);
                assert(self@ =~= before.take(i as int) + (seq![(key@, value@)] + before.skip(
                    i + 1,
                )));
                return ;
            }
            assert(before.take(i + 1) + updated(before.skip(i + 1), key@, value@) =~= before.take(
                i as int,
            ) + (seq![before.skip(i as int).first()] + updated(
                before.skip(i + 1),
                key@,
                value@,
            )));
            i += 1;
        }
        self.entries.push((String::from_str(key), String::from_str(value)));
        assert(self@ =~= before.take(i as int) + seq![(key@, value@)]);
    }

    /// Sets each key of `pairs` to its value, in order.
    pub fn extend(&mut self, pairs: &Vec<(String, String)>)
        ensures
            final(self)@ == assembled(old(self)@, pairs_view(pairs@)),
    {
        let ghost entries = pairs_view(pairs@);
        let mut i: usize = 0;
        while i < pairs.len()
            invariant
                i <= pairs.len(),
                entries == pairs_view(pairs@),
                self@ == assembled(old(self)@, entries.take(i as int)),
            decreases pairs.len() - i,
        {
            assert(entries.take(i + 1).drop_last() =~= entries.take(i as int));
            self.set(pairs[i].0.as_str(), pairs[i].1.as_str());
            i += 1;
        }
        assert(entries.take(entries.len() as int) =~= entries);
    }

    /// A copy of these settings.
    pub fn duplicate(&self) -> (copy: Settings)
        ensures
            copy@ == self@,
    {
        let mut entries: Vec<(String, String)> = Vec::new();
        let mut i: usize = 0;
        while i < self.entries.len()
            invariant
                i <= self.entries.len(),
                entries@ =~= self.entries@.take(i as int),
            decreases self.entries.len() - i,
        {
            entries.push((self.entries[i].0.clone(), self.entries[i].1.clone()));
            i += 1;
        }
        assert(entries@ =~= self.entries@);
        let copy = Settings { entries };
        assert(copy@ =~= self@);
        copy
    }
}

/// The settings of the executable and the file that they were read from.
#[derive(Debug)]
pub struct Config {
    configs: Settings,
    source: String,
}

impl Default for Config {
    /// No settings yet, to be read from the built-in file.
    fn default() -> (config: Config)
        ensures
            config.settings() == Seq::<(Seq<char>, Seq<char>)>::empty(),
            config.source() == Config::default_source(),
    {
        Config::new()
    }
}

impl Config {
    /// The path of the built-in settings file, relative to the resources of
    /// the executable.
    pub open spec fn default_source() -> Seq<char> {
        "./assets/default-config.toml"@
    }

    /// The settings read so far.
    pub closed spec fn settings(&self) -> Seq<(Seq<char>, Seq<char>)> {
        self.configs@
    }

    /// The path of the file to read.
    pub closed spec fn source(&self) -> Seq<char> {
        self.source@
    }

    /// No settings yet, to be read from the built-in file.
    pub fn new() -> (config: Config)
        ensures
            config.settings() == Seq::<(Seq<char>, Seq<char>)>::empty(),
            config.source() == Config::default_source(),
    {
        Config { configs: Settings::new(), source: String::from_str("./assets/default-config.toml") }
    }

    /// Chooses the file to read: the user's own file where there is one,
    /// else the built-in file at the place where the resources were found.
    pub fn set_source(&mut self, resource: String, user_file: Option<String>)
        ensures
            final(self).settings() == old(self).settings(),
            final(self).source() == (match user_file {
                Some(path) => path@,
                None => resource@,
            }),
    {
        match user_file {
            Some(path) => {
                self.source = path;
            },
            None => {
                self.source = resource;
            },
        }
    }

    /// Takes the settings that `contents`, the text of the source file,
    /// holds as a TOML table of text values. Text that holds no such table
    /// leaves the settings as they are.
    pub fn load_config(&mut self, contents: &str) -> (outcome: Result<(), ConfigError>)
        ensures
            final(self).source() == old(self).source(),
            match toml_table(contents@) {
                Some(table) => outcome is Ok && final(self).settings() == assembled(
                    Seq::empty(),
                    table,
                ),
                None => outcome == Err::<(), ConfigError>(ConfigError::Invalid)
                    && final(self).settings() == old(self).settings(),
            },
    {
        match read_table(contents) {
            Some(pairs) => {
                let mut settings = Settings::new();
                settings.extend(&pairs);
                self.configs = settings;
                Ok(())
            },
            None => Err(ConfigError::Invalid),
        }
    }

    /// The path of the file to read.
    pub fn get_source(&self) -> (path: &str)
        ensures
            path@ == self.source(),
    {
        self.source.as_str()
    }

    /// The value of `key`, if the settings hold it.
    pub fn get(&self, key: &str) -> (value: Option<&str>)
        ensures
            match value {
                Some(text) => lookup(self.settings(), key@) == Some(text@),
                None => lookup(self.settings(), key@) is None,
            },
    {
        self.configs.get(key)
    }
}

} // verus!
