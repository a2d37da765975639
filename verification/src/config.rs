//! The configuration: placeholders with a light and a dark text, and the
//! commands to run when the theme changes.

use vstd::prelude::*;
use crate::text::{lemma_replace_absent, occurs_in, replace, replace_all};
use crate::theme::ThemeMode;

verus! {

#[verifier::external_type_specification]
#[verifier::external_body]
pub struct ExIoError(std::io::Error);

#[verifier::external_type_specification]
#[verifier::external_body]
pub struct ExTomlDeError(toml::de::Error);

/// Errors that can occur while loading or parsing the configuration file.
#[derive(Debug)]
pub enum ConfigError {
    /// An error occurred while performing file I/O.
    IO(std::io::Error),
    /// An error occurred while parsing the TOML configuration.
    TOML(toml::de::Error),
}

impl From<std::io::Error> for ConfigError {
    fn from(value: std::io::Error) -> (e: ConfigError) {
        ConfigError::IO(value)
    }
}

impl vstd::std_specs::convert::FromSpecImpl<std::io::Error> for ConfigError {
    open spec fn obeys_from_spec() -> bool {
        true
    }

    open spec fn from_spec(v: std::io::Error) -> ConfigError {
        ConfigError::IO(v)
    }
}

impl From<toml::de::Error> for ConfigError {
    fn from(value: toml::de::Error) -> (e: ConfigError) {
        ConfigError::TOML(value)
    }
}

impl vstd::std_specs::convert::FromSpecImpl<toml::de::Error> for ConfigError {
    open spec fn obeys_from_spec() -> bool {
        true
    }

    open spec fn from_spec(v: toml::de::Error) -> ConfigError {
        ConfigError::TOML(v)
    }
}

/// What became of one candidate configuration file.
#[derive(Debug)]
pub enum ConfigCandidate {
    /// The file could not be opened.
    Unopenable,
    /// The file was opened; it was read and parsed, or it failed to be.
    Found(Result<Config, ConfigError>),
}

/// The place of the first candidate that could be opened, or the number of
/// candidates where none could.
pub open spec fn first_found(candidates: Seq<ConfigCandidate>) -> int
    decreases candidates.len(),
{
    if candidates.len() == 0 {
        0
    } else if candidates[0] is Found {
        0
    } else {
        1 + first_found(candidates.drop_first())
    }
}

/// The first candidate that could be opened is the one before which every
/// candidate could not.
pub proof fn lemma_first_found_at(candidates: Seq<ConfigCandidate>, i: int)
    requires
        0 <= i < candidates.len(),
        candidates[i] is Found,
        forall|j: int| 0 <= j < i ==> #[trigger] candidates[j] is Unopenable,
    ensures
        first_found(candidates) == i,
    decreases i,
{
    if i > 0 {
        let rest = candidates.drop_first();
        assert forall|j: int| 0 <= j < i - 1 implies #[trigger] rest[j] is Unopenable by {
            assert(rest[j] == candidates[j + 1]);
        }
        lemma_first_found_at(rest, i - 1);
    }
}

/// Where no candidate could be opened, none is found.
pub proof fn lemma_first_found_none(candidates: Seq<ConfigCandidate>)
    requires
        forall|j: int| 0 <= j < candidates.len() ==> #[trigger] candidates[j] is Unopenable,
    ensures
        first_found(candidates) == candidates.len(),
    decreases candidates.len(),
{
    if candidates.len() > 0 {
        let rest = candidates.drop_first();
        assert forall|j: int| 0 <= j < rest.len() implies #[trigger] rest[j] is Unopenable by {
            assert(rest[j] == candidates[j + 1]);
        }
        lemma_first_found_none(rest);
    }
}

/// A placeholder's two texts: `(light, dark)`.
pub type PlaceholderView = (Seq<char>, Seq<char>);

/// A mapping entry: an identifier and its placeholder.
pub type EntryView = (Seq<char>, PlaceholderView);

/// The text of a placeholder in a mode.
pub open spec fn placeholder_text(p: PlaceholderView, mode: ThemeMode) -> Seq<char> {
    match mode {
        ThemeMode::Light => p.0,
        ThemeMode::Dark => p.1,
    }
}

/// A command with the identifiers of `entries` replaced, one entry after the
/// other in their order, by their placeholder's text in `mode`.
pub open spec fn expand(cmd: Seq<char>, entries: Seq<EntryView>, mode: ThemeMode) -> Seq<char>
    decreases entries.len(),
{
    if entries.len() == 0 {
        cmd
    } else {
        expand(
            replace_all(cmd, entries[0].0, placeholder_text(entries[0].1, mode)),
            entries.drop_first(),
            mode,
        )
    }
}

/// No identifier occurs twice among the entries.
pub open spec fn keys_distinct(entries: Seq<EntryView>) -> bool {
    forall|i: int, j: int|
        0 <= i < entries.len() && 0 <= j < entries.len() && i != j ==> #[trigger] entries[i].0
            != #[trigger] entries[j].0
}

/// The placeholder that the entries give an identifier, if any.
pub open spec fn lookup(entries: Seq<EntryView>, key: Seq<char>) -> Option<PlaceholderView> {
    if exists|i: int| 0 <= i < entries.len() && #[trigger] entries[i].0 == key {
        Some(entries[choose|i: int| 0 <= i < entries.len() && #[trigger] entries[i].0 == key].1)
    } else {
        None
    }
}

/// The entries after a map insert of `key` and `value`: an entry with that
/// identifier keeps its place and takes the new placeholder; otherwise the
/// entry is added at the end.
pub open spec fn map_insert(entries: Seq<EntryView>, key: Seq<char>, value: PlaceholderView) -> Seq<EntryView> {
    if exists|i: int| 0 <= i < entries.len() && #[trigger] entries[i].0 == key {
        entries.update(choose|i: int| 0 <= i < entries.len() && #[trigger] entries[i].0 == key, (key, value))
    } else {
        entries.push((key, value))
    }
}

/// After a map insert the identifier reads back the placeholder just
/// inserted, every other identifier reads back what it read before, and no
/// identifier occurs twice.
pub proof fn lemma_insert_then_lookup(
    entries: Seq<EntryView>,
    key: Seq<char>,
    value: PlaceholderView,
    other: Seq<char>,
)
    requires
        keys_distinct(entries),
    ensures
        keys_distinct(map_insert(entries, key, value)),
        lookup(map_insert(entries, key, value), key) == Some(value),
        other != key ==> lookup(map_insert(entries, key, value), other) == lookup(entries, other),
{
    let after = map_insert(entries, key, value);
    if exists|i: int| 0 <= i < entries.len() && #[trigger] entries[i].0 == key {
        let i = choose|i: int| 0 <= i < entries.len() && #[trigger] entries[i].0 == key;
        assert(after[i].0 == key);
        assert forall|a: int, b: int| 0 <= a < after.len() && 0 <= b < after.len() && a != b implies #[trigger] after[a].0 != #[trigger] after[b].0 by {
            assert(entries[a].0 != entries[b].0);
        }
        let j = choose|j: int| 0 <= j < after.len() && #[trigger] after[j].0 == key;
        assert(j == i);
        if other != key {
            if exists|j: int| 0 <= j < entries.len() && #[trigger] entries[j].0 == other {
                let j0 = choose|j: int| 0 <= j < entries.len() && #[trigger] entries[j].0 == other;
                assert(after[j0].0 == other);
                let j1 = choose|j: int| 0 <= j < after.len() && #[trigger] after[j].0 == other;
                assert(j1 == j0);
            } else {
                assert forall|j: int| 0 <= j < after.len() implies #[trigger] after[j].0 != other by {
                    if j != i {
                        assert(entries[j].0 != other);
                    }
                }
            }
        }
    } else {
        let n = entries.len() as int;
        assert(after[n].0 == key);
        assert forall|a: int, b: int| 0 <= a < after.len() && 0 <= b < after.len() && a != b implies #[trigger] after[a].0 != #[trigger] after[b].0 by {
            if a < n && b < n {
                assert(entries[a].0 != entries[b].0);
            }
        }
        let j = choose|j: int| 0 <= j < after.len() && #[trigger] after[j].0 == key;
        assert(j == n);
        if other != key {
            if exists|j: int| 0 <= j < entries.len() && #[trigger] entries[j].0 == other {
                let j0 = choose|j: int| 0 <= j < entries.len() && #[trigger] entries[j].0 == other;
                assert(after[j0].0 == other);
                let j1 = choose|j: int| 0 <= j < after.len() && #[trigger] after[j].0 == other;
                assert(j1 == j0);
            } else {
                assert forall|j: int| 0 <= j < after.len() implies #[trigger] after[j].0 != other by {
                    if j < n {
                        assert(entries[j].0 != other);
                    }
                }
            }
        }
    }
}

/// A command in which no identifier occurs comes out of the expansion as it
/// went in.
pub proof fn lemma_expand_without_identifiers(cmd: Seq<char>, entries: Seq<EntryView>, mode: ThemeMode)
    requires
        forall|i: int| 0 <= i < entries.len() ==> (#[trigger] entries[i].0).len() > 0 && !occurs_in(cmd, entries[i].0),
    ensures
        expand(cmd, entries, mode) == cmd,
    decreases entries.len(),
{
    if entries.len() > 0 {
        assert(entries[0].0.len() > 0);
        lemma_replace_absent(cmd, entries[0].0, placeholder_text(entries[0].1, mode));
        let rest = entries.drop_first();
        assert forall|i: int| 0 <= i < rest.len() implies (#[trigger] rest[i].0).len() > 0 && !occurs_in(cmd, rest[i].0) by {
            assert(rest[i] == entries[i + 1]);
        }
        lemma_expand_without_identifiers(cmd, rest, mode);
    }
}

/// Expanding with one mapping replaces every match of its identifier by its
/// text in the mode, whatever that text is.
pub proof fn lemma_expand_single(cmd: Seq<char>, key: Seq<char>, p: PlaceholderView, mode: ThemeMode)
    ensures
        expand(cmd, seq![(key, p)], mode) == replace_all(cmd, key, placeholder_text(p, mode)),
{
    let e = seq![(key, p)];
    let once = replace_all(cmd, key, placeholder_text(p, mode));
    assert(e.drop_first() =~= Seq::<EntryView>::empty());
    assert(expand(once, Seq::<EntryView>::empty(), mode) == once);
}

/// Expanding with two lists of mappings one after the other is expanding
/// with the first, then expanding the result with the second.
pub proof fn lemma_expand_concat(cmd: Seq<char>, e1: Seq<EntryView>, e2: Seq<EntryView>, mode: ThemeMode)
    ensures
        expand(cmd, e1 + e2, mode) == expand(expand(cmd, e1, mode), e2, mode),
    decreases e1.len(),
{
    if e1.len() == 0 {
        assert(e1 + e2 =~= e2);
    } else {
        assert((e1 + e2).drop_first() =~= e1.drop_first() + e2);
        assert((e1 + e2)[0] == e1[0]);
        lemma_expand_concat(
            replace_all(cmd, e1[0].0, placeholder_text(e1[0].1, mode)),
            e1.drop_first(),
            e2,
            mode,
        );
    }
}

/// Each wrapped identifier is the file's key with `{{-` before it and `-}}`
/// after it; the placeholders and their order are kept.
pub proof fn lemma_wrapped_identifiers(entries: Seq<EntryView>)
    ensures
        wrap_entries(entries).len() == entries.len(),
        forall|i: int|
            0 <= i < entries.len() ==> (#[trigger] wrap_entries(entries)[i]).0 == "{{-"@
                + entries[i].0 + "-}}"@ && wrap_entries(entries)[i].1 == entries[i].1,
{
}

/// The identifier under which a key of the configuration file is looked for
/// in commands.
pub open spec fn wrap_key(key: Seq<char>) -> Seq<char> {
    "{{-"@ + key + "-}}"@
}

/// Entries with each identifier wrapped, in the same order.
pub open spec fn wrap_entries(entries: Seq<EntryView>) -> Seq<EntryView> {
    entries.map_values(|e: EntryView| (wrap_key(e.0), e.1))
}

/// The mappings of the built-in configuration, in order.
pub open spec fn default_entries() -> Seq<EntryView> {
    seq![
        ("{{-mode-}}"@, ("light"@, "dark"@)),
        ("{{-Mode-}}"@, ("Light"@, "Dark"@)),
        ("{{-MODE-}}"@, ("LIGHT"@, "DARK"@)),
    ]
}

/// Two keys that differ stay apart once wrapped.
pub proof fn lemma_wrap_key_injective(a: Seq<char>, b: Seq<char>)
    requires
        wrap_key(a) == wrap_key(b),
    ensures
        a == b,
{
    reveal_strlit("{{-");
    reveal_strlit("-}}");
    assert(wrap_key(a).len() == a.len() + 6);
    assert(wrap_key(b).len() == b.len() + 6);
    assert(a.len() == b.len());
    assert(wrap_key(a).subrange(3, 3 + a.len() as int) =~= a);
    assert(wrap_key(b).subrange(3, 3 + b.len() as int) =~= b);
}

/// Wrapping the identifiers keeps them distinct.
pub proof fn lemma_wrap_entries_distinct(entries: Seq<EntryView>)
    requires
        keys_distinct(entries),
    ensures
        keys_distinct(wrap_entries(entries)),
        wrap_entries(entries).len() == entries.len(),
{
    let w = wrap_entries(entries);
    assert forall|i: int, j: int| 0 <= i < w.len() && 0 <= j < w.len() && i != j implies #[trigger] w[i].0 != #[trigger] w[j].0 by {
        if w[i].0 == w[j].0 {
            lemma_wrap_key_injective(entries[i].0, entries[j].0);
        }
    }
}

/// The views of a list of mapping entries.
pub open spec fn entries_of(v: Seq<(String, Placeholder)>) -> Seq<EntryView> {
    v.map_values(|e: (String, Placeholder)| (e.0@, e.1@))
}

/// A placeholder value used for mapping a "light" and a "dark" variant.
#[derive(Debug)]
pub struct Placeholder {
    /// Value used in light mode or light theme contexts.
    light: String,
    /// Value used in dark mode or dark theme contexts.
    dark: String,
}

impl View for Placeholder {
    type V = PlaceholderView;

    closed spec fn view(&self) -> PlaceholderView {
        (self.light@, self.dark@)
    }
}

impl Placeholder {
    /// A placeholder with the given light and dark texts.
    pub fn new(light: String, dark: String) -> (p: Placeholder)
        ensures
            p@ == (light@, dark@),
    {
        Placeholder { light, dark }
    }

    /// The text for a mode.
    pub fn get(&self, mode: ThemeMode) -> (r: &str)
        ensures
            r@ == placeholder_text(self@, mode),
            mode == ThemeMode::Light ==> r@ == self@.0,
            mode == ThemeMode::Dark ==> r@ == self@.1,
    {
        match mode {
            ThemeMode::Light => self.light.as_str(),
            ThemeMode::Dark => self.dark.as_str(),
        }
    }
}

/// Configuration for command execution.
#[derive(Debug)]
pub struct Commands {
    /// If true, the user will be prompted before executing commands.
    ask_before_execute: bool,
    /// List of commands.
    commands: Vec<String>,
}

impl View for Commands {
    type V = (bool, Seq<Seq<char>>);

    closed spec fn view(&self) -> (bool, Seq<Seq<char>>) {
        (self.ask_before_execute, self.commands.deep_view())
    }
}

impl Commands {
    /// The commands, and whether to ask before each.
    pub fn new(ask_before_execute: bool, commands: Vec<String>) -> (c: Commands)
        ensures
            c@ == (ask_before_execute, commands.deep_view()),
    {
        Commands { ask_before_execute, commands }
    }
}

impl Default for Commands {
    fn default() -> (c: Commands)
        ensures
            c@ == (false, Seq::<Seq<char>>::empty()),
    {
        let c = Commands { ask_before_execute: false, commands: Vec::new() };
        assert(c.commands.deep_view() =~= Seq::<Seq<char>>::empty());
        c
    }
}

/// Root configuration structure for the application.
#[derive(Debug)]
pub struct Config {
    /// Mapping of identifiers to placeholder definitions, in insertion order.
    mappings: Vec<(String, Placeholder)>,
    /// Command execution configuration section.
    commands: Commands,
}

impl Config {
    /// The mappings, in order.
    pub closed spec fn entries(&self) -> Seq<EntryView> {
        entries_of(self.mappings@)
    }

    /// The command section.
    pub closed spec fn command_section(&self) -> (bool, Seq<Seq<char>>) {
        self.commands@
    }

    /// No identifier is mapped twice.
    #[verifier::type_invariant]
    spec fn inv(&self) -> bool {
        keys_distinct(self.entries())
    }

    /// A configuration with the given command section and no mappings.
    pub fn new(commands: Commands) -> (c: Config)
        ensures
            c.entries() == Seq::<EntryView>::empty(),
            c.command_section() == commands@,
    {
        let mappings: Vec<(String, Placeholder)> = Vec::new();
        assert(entries_of(mappings@) =~= Seq::<
            EntryView,
        >::empty());
        Config { mappings, commands }
    }

    /// Maps `key` to `value`, as a map's insert does: an identifier that is
    /// already mapped keeps its place and gets the new placeholder (the old one
    /// is returned), a new one is added at the end.
    pub fn insert_mapping(&mut self, key: String, value: Placeholder) -> (old_value: Option<
        Placeholder,
    >)
        ensures
            keys_distinct(final(self).entries()),
            final(self).entries() == map_insert(old(self).entries(), key@, value@),
            final(self).command_section() == old(self).command_section(),
            match old_value {
                Some(p) => lookup(old(self).entries(), key@) == Some(p@),
                None => lookup(old(self).entries(), key@) is None,
            },
    {
        proof {
            use_type_invariant(&*self);
        }
        let ghost old_entries = self.entries();
        let mut mappings: Vec<(String, Placeholder)> = Vec::new();
        std::mem::swap(&mut mappings, &mut self.mappings);
        let ghost kv = key@;
        let ghost vv = value@;
        let r = Self::insert_entry(&mut mappings, key, value);
        proof {
            let after = entries_of(mappings@);
            if r is Some {
                    let p = r->0;
                    let i = choose|i: int|
                        0 <= i < old_entries.len() && #[trigger] old_entries[i].0 == kv && p@
                            == old_entries[i].1 && after == old_entries.update(i, (kv, vv));
                    let c = choose|c: int| 0 <= c < old_entries.len() && #[trigger] old_entries[c].0 == kv;
                    assert(c == i);
            }
        }
        self.mappings = mappings;
        r
    }

    /// `insert_mapping` on the mapping list itself.
    fn insert_entry(mappings: &mut Vec<(String, Placeholder)>, key: String, value: Placeholder) -> (old_value: Option<Placeholder>)
        requires
            keys_distinct(entries_of(old(mappings)@)),
        ensures
            ({
                let before = entries_of(old(mappings)@);
                let after = entries_of(final(mappings)@);
                &&& keys_distinct(after)
                &&& match old_value {
                    Some(p) => exists|i: int|
                        0 <= i < before.len() && #[trigger] before[i].0 == key@ && p@ == before[i].1
                            && after == before.update(i, (key@, value@)),
                    None => (forall|i: int| 0 <= i < before.len() ==> #[trigger] before[i].0 != key@)
                        && after == before.push((key@, value@)),
                }
            }),
    {
        let ghost old_entries = entries_of(mappings@);
        let n = mappings.len();
        let mut i: usize = 0;
        while i < n
            invariant
                n == mappings.len(),
                i <= n,
                entries_of(mappings@) == old_entries,
                old_entries == entries_of(old(mappings)@),
                old_entries.len() == n,
                keys_distinct(old_entries),
                forall|k: int| 0 <= k < i ==> #[trigger] old_entries[k].0 != key@,
            decreases n - i,
        {
            if crate::text::text_eq(mappings[i].0.as_str(), key.as_str()) {
                assert(old_entries[i as int].0 == key@);
                let ghost kv = key@;
                let ghost vv = value@;
                let removed = mappings.remove(i);
                assert(removed.1@ == old_entries[i as int].1);
                mappings.insert(i, (key, value));
                let ghost after = entries_of(mappings@);
                assert(after =~= old_entries.update(i as int, (kv, vv)));
                assert(keys_distinct(after));
                let p = removed.1;
                assert(0 <= i < old_entries.len() && old_entries[i as int].0 == kv && p@
                    == old_entries[i as int].1 && after == old_entries.update(
                    i as int,
                    (kv, vv),
                ));
                return Some(p);
            }
            i = i + 1;
        }
        let ghost kv = key@;
        let ghost vv = value@;
        mappings.push((key, value));
        assert(entries_of(mappings@) =~= old_entries.push((kv, vv)));
        None
    }

    /// The configuration with every identifier wrapped as `wrap_key` says.
    fn wrap_keys(self) -> (r: Config)
        ensures
            r.entries() == wrap_entries(self.entries()),
            r.command_section() == self.command_section(),
    {
        proof {
            use_type_invariant(&self);
        }
        let ghost orig = self.entries();
        let Config { mut mappings, commands } = self;
        let n = mappings.len();
        let mut out: Vec<(String, Placeholder)> = Vec::new();
        let mut i: usize = 0;
        while i < n
            invariant
                n == orig.len(),
                i <= n,
                mappings@.len() == n - i,
                out@.len() == i,
                entries_of(mappings@) == orig.skip(i as int),
                entries_of(out@) == wrap_entries(orig.take(i as int)),
            decreases n - i,
        {
            let ghost rest = mappings@;
            let ghost before_out = out@;
            let (key, placeholder) = mappings.remove(0);
            assert(mappings@ =~= rest.skip(1));
            assert forall|k: int| 0 <= k < n - i - 1 implies #[trigger] entries_of(mappings@)[k]
                == orig.skip(i + 1)[k] by {
                assert(entries_of(rest)[k + 1] == orig.skip(i as int)[k + 1]);
            }
            assert(entries_of(mappings@) =~= orig.skip(i + 1));
            assert(key@ == orig[i as int].0 && placeholder@ == orig[i as int].1) by {
                assert(entries_of(rest)[0] == orig.skip(i as int)[0]);
            }
            let mut wrapped = String::from_str("{{-");
            wrapped.append(key.as_str());
            wrapped.append("-}}");
            out.push((wrapped, placeholder));
            assert forall|k: int| 0 <= k < i + 1 implies #[trigger] entries_of(out@)[k]
                == wrap_entries(orig.take(i + 1))[k] by {
                if k < i {
                    assert(entries_of(before_out)[k] == wrap_entries(orig.take(i as int))[k]);
                }
            }
            assert(entries_of(out@) =~= wrap_entries(orig.take(i + 1)));
            i = i + 1;
        }
        assert(orig.take(n as int) =~= orig);
        proof {
            lemma_wrap_entries_distinct(orig);
        }
        Config { mappings: out, commands }
    }

    /// Chooses the configuration: the first candidate file that could be
    /// opened decides (its read or parse error is passed on, or its mappings
    /// are taken with the identifiers wrapped as `wrap_key` says); where no
    /// candidate could be opened, the built-in configuration is used.
    pub fn load(candidates: Vec<ConfigCandidate>) -> (r: Result<Config, ConfigError>)
        ensures
            first_found(candidates@) == candidates@.len() ==> (r matches Ok(d) && d.entries()
                == default_entries() && d.command_section() == (false, Seq::<Seq<char>>::empty())),
            first_found(candidates@) < candidates@.len() ==> match candidates@[first_found(
                candidates@,
            )] {
                ConfigCandidate::Found(Err(e)) => r == Err::<Config, ConfigError>(e),
                ConfigCandidate::Found(Ok(c)) => r matches Ok(d) && d.entries() == wrap_entries(
                    c.entries(),
                ) && d.command_section() == c.command_section() && d.entries().len()
                    == c.entries().len() && (forall|i: int|
                    0 <= i < c.entries().len() ==> (#[trigger] d.entries()[i]).0 == "{{-"@
                        + c.entries()[i].0 + "-}}"@ && d.entries()[i].1 == c.entries()[i].1),
                ConfigCandidate::Unopenable => false,
            },
    {
        let ghost given = candidates@;
        let mut list = candidates;
        let n = list.len();
        let mut i: usize = 0;
        while i < n
            invariant
                list@ == given,
                given == candidates@,
                n == given.len(),
                i <= n,
                forall|j: int| 0 <= j < i ==> #[trigger] given[j] is Unopenable,
            decreases n - i,
        {
            match &list[i] {
                ConfigCandidate::Found(_) => {
                    proof {
                        lemma_first_found_at(given, i as int);
                    }
                    let found = list.remove(i);
                    assert(found == given[i as int]);
                    return match found {
                        ConfigCandidate::Found(Err(e)) => Err(e),
                        ConfigCandidate::Found(Ok(c)) => Ok(c.wrap_keys()),
                        ConfigCandidate::Unopenable => Ok(Config::default()),
                    };
                },
                ConfigCandidate::Unopenable => {},
            }
            i = i + 1;
        }
        proof {
            lemma_first_found_none(given);
        }
        Ok(Config::default())
    }

    /// Return a flag indicating the user should be prompted before executing commands.
    pub fn ask_before(&self) -> (b: bool)
        ensures
            b == self.command_section().0,
    {
        self.commands.ask_before_execute
    }

    /// The target commands with all mappings expanded for `mode`.
    pub fn commands(&self, mode: ThemeMode) -> (r: Vec<String>)
        ensures
            r@.len() == self.command_section().1.len(),
            forall|i: int|
                0 <= i < r@.len() ==> #[trigger] r@[i]@ == expand(
                    self.command_section().1[i],
                    self.entries(),
                    mode,
                ),
    {
        let n = self.commands.commands.len();
        let mut out: Vec<String> = Vec::new();
        let mut i: usize = 0;
        while i < n
            invariant
                n == self.commands.commands.len(),
                i <= n,
                out@.len() == i,
                forall|k: int|
                    0 <= k < i ==> #[trigger] out@[k]@ == expand(
                        self.commands.commands.deep_view()[k],
                        self.entries(),
                        mode,
                    ),
            decreases n - i,
        {
            let expanded = self.expand_command(self.commands.commands[i].as_str(), mode);
            out.push(expanded);
            i = i + 1;
        }
        out
    }

    /// One command with all mappings expanded for `mode`.
    fn expand_command(&self, command: &str, mode: ThemeMode) -> (r: String)
        ensures
            r@ == expand(command@, self.entries(), mode),
    {
        let m = self.mappings.len();
        let mut cur = String::from_str(command);
        let mut j: usize = 0;
        assert(self.entries().skip(0) =~= self.entries());
        while j < m
            invariant
                m == self.mappings.len(),
                m == self.entries().len(),
                j <= m,
                expand(command@, self.entries(), mode) == expand(
                    cur@,
                    self.entries().skip(j as int),
                    mode,
                ),
            decreases m - j,
        {
            let entry = &self.mappings[j];
            let text = entry.1.get(mode);
            assert(self.entries().skip(j as int).drop_first() =~= self.entries().skip(j + 1));
            assert(self.entries().skip(j as int)[0] == self.entries()[j as int]);
            cur = replace(cur.as_str(), entry.0.as_str(), text);
            j = j + 1;
        }
        assert(self.entries().skip(m as int) =~= Seq::<EntryView>::empty());
        cur
    }
}

/// Two mapping lists map the same identifiers to the same placeholders,
/// whatever their order.
pub open spec fn same_mappings(a: Seq<EntryView>, b: Seq<EntryView>) -> bool {
    a.len() == b.len() && forall|i: int|
        0 <= i < a.len() ==> lookup(b, #[trigger] a[i].0) == Some(a[i].1)
}

/// Configuration equality, like the map equality it stands for, does not
/// depend on which side is taken first.
pub proof fn lemma_same_mappings_symmetric(a: Seq<EntryView>, b: Seq<EntryView>)
    requires
        keys_distinct(a),
        keys_distinct(b),
        same_mappings(a, b),
    ensures
        same_mappings(b, a),
{
    // Every entry of `a` sits at its own place in `b`; as both have as many
    // entries, every place of `b` is taken by one of `a`.
    let f = |i: int| choose|j: int| 0 <= j < b.len() && #[trigger] b[j].0 == a[i].0;
    assert forall|i: int| 0 <= i < a.len() implies 0 <= #[trigger] f(i) < b.len() && b[f(i)].0
        == a[i].0 && b[f(i)].1 == a[i].1 by {
        assert(lookup(b, a[i].0) == Some(a[i].1));
    }
    assert forall|j: int| 0 <= j < b.len() implies lookup(a, #[trigger] b[j].0) == Some(b[j].1) by {
        lemma_injective_onto(a, b, f, j);
        let i = choose|i: int| 0 <= i < a.len() && #[trigger] f(i) == j;
        assert(a[i].0 == b[j].0);
        let c = choose|c: int| 0 <= c < a.len() && #[trigger] a[c].0 == b[j].0;
        assert(c == i);
    }
}

/// A map from the places of `a` into the places of `b`, as many, that never
/// sends two places to one, reaches every place of `b`.
proof fn lemma_injective_onto(a: Seq<EntryView>, b: Seq<EntryView>, f: spec_fn(int) -> int, j: int)
    requires
        keys_distinct(a),
        a.len() == b.len(),
        0 <= j < b.len(),
        forall|i: int| 0 <= i < a.len() ==> 0 <= #[trigger] f(i) < b.len() && b[f(i)].0 == a[i].0,
    ensures
        exists|i: int| 0 <= i < a.len() && #[trigger] f(i) == j,
{
    let fs = Set::new(|j: int| exists|i: int| 0 <= i < a.len() && #[trigger] f(i) == j);
    let dom = Set::new(|i: int| 0 <= i < a.len());
    assert forall|y: int| #[trigger] fs.contains(y) <==> dom.map(f).contains(y) by {
        if fs.contains(y) {
            let i = choose|i: int| 0 <= i < a.len() && #[trigger] f(i) == y;
            assert(dom.contains(i));
        }
        if dom.map(f).contains(y) {
            let i = choose|i: int| dom.contains(i) && y == f(i);
            assert(0 <= i < a.len() && f(i) == y);
        }
    }
    assert(fs =~= dom.map(f));
    assert forall|x: int, y: int| dom.contains(x) && dom.contains(y) && #[trigger] f(x) == #[trigger] f(y) implies x == y by {
        if x != y {
            assert(a[x].0 != a[y].0);
        }
    }
    vstd::set_lib::lemma_int_range(0, a.len() as int);
    assert(dom =~= vstd::set_lib::set_int_range(0, a.len() as int));
    vstd::set_lib::lemma_map_size(dom, fs, f);
    let range = vstd::set_lib::set_int_range(0, b.len() as int);
    vstd::set_lib::lemma_int_range(0, b.len() as int);
    assert(fs.subset_of(range));
    if !fs.contains(j) {
        assert(fs.subset_of(range.remove(j)));
        vstd::set_lib::lemma_len_subset(fs, range.remove(j));
    }
}

impl PartialEq for Placeholder {
    fn eq(&self, other: &Placeholder) -> (r: bool) {
        self.light == other.light && self.dark == other.dark
    }
}

impl vstd::std_specs::cmp::PartialEqSpecImpl for Placeholder {
    open spec fn obeys_eq_spec() -> bool {
        true
    }

    open spec fn eq_spec(&self, other: &Placeholder) -> bool {
        self@ == other@
    }
}

impl PartialEq for Commands {
    fn eq(&self, other: &Commands) -> (r: bool) {
        if self.ask_before_execute != other.ask_before_execute {
            return false;
        }
        let n = self.commands.len();
        if n != other.commands.len() {
            assert(self.commands.deep_view().len() != other.commands.deep_view().len());
            return false;
        }
        let mut i: usize = 0;
        while i < n
            invariant
                n == self.commands.len(),
                n == other.commands.len(),
                i <= n,
                forall|k: int| 0 <= k < i ==> self.commands@[k]@ == other.commands@[k]@,
            decreases n - i,
        {
            if self.commands[i] != other.commands[i] {
                assert(self.commands.deep_view()[i as int] != other.commands.deep_view()[i as int]);
                return false;
            }
            i = i + 1;
        }
        assert(self.commands.deep_view() =~= other.commands.deep_view());
        true
    }
}

impl vstd::std_specs::cmp::PartialEqSpecImpl for Commands {
    open spec fn obeys_eq_spec() -> bool {
        true
    }

    open spec fn eq_spec(&self, other: &Commands) -> bool {
        self@ == other@
    }
}

impl Config {
    /// The position of `key` among the mappings, if it is mapped.
    fn find(&self, key: &str) -> (r: Option<usize>)
        ensures
            match r {
                Some(j) => j < self.entries().len() && self.entries()[j as int].0 == key@,
                None => forall|j: int| 0 <= j < self.entries().len() ==> #[trigger] self.entries()[j].0 != key@,
            },
    {
        let n = self.mappings.len();
        let mut j: usize = 0;
        while j < n
            invariant
                n == self.mappings.len(),
                n == self.entries().len(),
                j <= n,
                forall|k: int| 0 <= k < j ==> #[trigger] self.entries()[k].0 != key@,
            decreases n - j,
        {
            if crate::text::text_eq(self.mappings[j].0.as_str(), key) {
                return Some(j);
            }
            j = j + 1;
        }
        None
    }
}

impl PartialEq for Config {
    fn eq(&self, other: &Config) -> (r: bool) {
        proof {
            use_type_invariant(other);
        }
        if !(self.commands == other.commands) {
            return false;
        }
        let n = self.mappings.len();
        if n != other.mappings.len() {
            return false;
        }
        let mut i: usize = 0;
        while i < n
            invariant
                n == self.mappings.len(),
                n == self.entries().len(),
                n == other.entries().len(),
                keys_distinct(other.entries()),
                i <= n,
                self.command_section() == other.command_section(),
                forall|k: int|
                    0 <= k < i ==> lookup(other.entries(), #[trigger] self.entries()[k].0) == Some(
                        self.entries()[k].1,
                    ),
            decreases n - i,
        {
            let entry = &self.mappings[i];
            match other.find(entry.0.as_str()) {
                Some(j) => {
                    proof {
                        let oe = other.entries();
                        let c = choose|c: int| 0 <= c < oe.len() && #[trigger] oe[c].0 == entry.0@;
                        assert(c == j);
                    }
                    if !(entry.1 == other.mappings[j].1) {
                        assert(lookup(other.entries(), self.entries()[i as int].0) != Some(self.entries()[i as int].1));
                        return false;
                    }
                },
                None => {
                    return false;
                },
            }
            i = i + 1;
        }
        true
    }
}

impl vstd::std_specs::cmp::PartialEqSpecImpl for Config {
    open spec fn obeys_eq_spec() -> bool {
        true
    }

    open spec fn eq_spec(&self, other: &Config) -> bool {
        self.command_section() == other.command_section() && same_mappings(
            self.entries(),
            other.entries(),
        )
    }
}

impl Default for Config {
    fn default() -> (c: Config)
        ensures
            c.entries() == default_entries(),
            c.command_section() == (false, Seq::<Seq<char>>::empty()),
    {
        let mut c = Config::new(Commands::default());
        proof {
            reveal_strlit("{{-mode-}}");
            reveal_strlit("{{-Mode-}}");
            reveal_strlit("{{-MODE-}}");
        }
        assert("{{-mode-}}"@[3] != "{{-Mode-}}"@[3]);
        assert("{{-mode-}}"@[3] != "{{-MODE-}}"@[3]);
        assert("{{-Mode-}}"@[4] != "{{-MODE-}}"@[4]);
        let _ = c.insert_mapping(
            String::from_str("{{-mode-}}"),
            Placeholder::new(String::from_str("light"), String::from_str("dark")),
        );
        let _ = c.insert_mapping(
            String::from_str("{{-Mode-}}"),
            Placeholder::new(String::from_str("Light"), String::from_str("Dark")),
        );
        let _ = c.insert_mapping(
            String::from_str("{{-MODE-}}"),
            Placeholder::new(String::from_str("LIGHT"), String::from_str("DARK")),
        );
        assert(c.entries() =~= default_entries());
        c
    }
}

} // verus!
