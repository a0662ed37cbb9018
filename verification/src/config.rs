//! Settings of a run: defaults, the configuration file and the command line.

use vstd::prelude::*;
use vstd::string::*;
use crate::models::types::{clone_opt_text, clone_texts, opt_text, str_eq, texts};
use crate::result::{RepoError, RepoResult};

verus! {

/// Settings of the indexing stage. None are defined yet.
#[derive(Debug, Clone, PartialEq, Eq)]
pub struct IndexConfig;

/// Settings of the synchronisation worker. None are defined yet.
#[derive(Debug, Clone, PartialEq, Eq)]
pub struct SyncConfig;

/// Where the repository of this run comes from and where its clone lives.
#[derive(Debug, PartialEq, Eq)]
pub struct RepoLocation {
    pub remote: Option<String>,
    pub branches: Vec<String>,
    pub dir: Option<String>,
}

/// What a `RepoLocation` says.
pub struct RepoLocationView {
    pub remote: Option<Seq<char>>,
    pub branches: Seq<Seq<char>>,
    pub dir: Option<Seq<char>>,
}

impl View for RepoLocation {
    type V = RepoLocationView;

    open spec fn view(&self) -> RepoLocationView {
        RepoLocationView {
            remote: opt_text(self.remote),
            branches: texts(self.branches@),
            dir: opt_text(self.dir),
        }
    }
}

impl Clone for RepoLocation {
    fn clone(&self) -> (r: Self)
        ensures
            r@ == self@,
    {
        RepoLocation {
            remote: clone_opt_text(&self.remote),
            branches: clone_texts(&self.branches),
            dir: clone_opt_text(&self.dir),
        }
    }
}

/// The view of an optional repository location.
pub open spec fn opt_location(value: Option<RepoLocation>) -> Option<RepoLocationView> {
    match value {
        Some(location) => Some(location@),
        None => None,
    }
}

/// The settings of one run.
#[derive(Debug, PartialEq, Eq)]
pub struct Config {
    /// Directory that holds the catalog and the clones.
    pub data_dir: String,
    /// Coordination service, as `host:port[/dir]`.
    pub zookeeper: Option<String>,
    /// Search service, as `host[:port]`.
    pub elasticsearch: Option<String>,
    pub index_config: IndexConfig,
    pub sync_config: SyncConfig,
    pub repo_location: Option<RepoLocation>,
}

/// What a `Config` says.
pub struct ConfigView {
    pub data_dir: Seq<char>,
    pub zookeeper: Option<Seq<char>>,
    pub elasticsearch: Option<Seq<char>>,
    pub repo_location: Option<RepoLocationView>,
}

impl View for Config {
    type V = ConfigView;

    open spec fn view(&self) -> ConfigView {
        ConfigView {
            data_dir: self.data_dir@,
            zookeeper: opt_text(self.zookeeper),
            elasticsearch: opt_text(self.elasticsearch),
            repo_location: opt_location(self.repo_location),
        }
    }
}

impl Clone for Config {
    fn clone(&self) -> (r: Self)
        ensures
            r@ == self@,
    {
        Config {
            data_dir: self.data_dir.clone(),
            zookeeper: clone_opt_text(&self.zookeeper),
            elasticsearch: clone_opt_text(&self.elasticsearch),
            index_config: IndexConfig,
            sync_config: SyncConfig,
            repo_location: match &self.repo_location {
                Some(location) => Some(location.clone()),
                None => None,
            },
        }
    }
}

/// The settings used when neither file nor command line says otherwise.
pub open spec fn default_config() -> ConfigView {
    ConfigView { data_dir: "."@, zookeeper: None, elasticsearch: None, repo_location: None }
}

// ---------------------------------------------------------------------------
// The configuration file
// ---------------------------------------------------------------------------

#[verifier::external_type_specification]
#[verifier::external_body]
#[verifier::reject_recursive_types(K)]
#[verifier::reject_recursive_types(V)]
pub struct ExTomlMap<K, V>(toml::map::Map<K, V>);

#[verifier::external_type_specification]
#[verifier::external_body]
pub struct ExTomlValue(toml::Value);

/// What kind of value a table holds under a key, with the text where the
/// value is a string.
pub enum ItemKind {
    Text(Seq<char>),
    Table,
    Other,
}

/// A value taken out of a table.
pub enum TomlItem {
    Text(String),
    Table(toml::Table),
    Other,
}

impl TomlItem {
    pub open spec fn kind(self) -> ItemKind {
        match self {
            TomlItem::Text(text) => ItemKind::Text(text@),
            TomlItem::Table(_) => ItemKind::Table,
            TomlItem::Other => ItemKind::Other,
        }
    }
}

/// The keys of a table, each with the kind of value it holds.
pub uninterp spec fn table_entries(table: toml::Table) -> Map<Seq<char>, ItemKind>;

/// The top-level entries of the TOML document `text`, or `None` where `text`
/// is not a TOML document.
pub uninterp spec fn toml_document(text: Seq<char>) -> Option<Map<Seq<char>, ItemKind>>;

/// Parses a TOML document with `str::parse::<toml::Table>`. The parser is
/// trusted to be a function of the text: the table it returns holds the
/// document's top-level entries, and it fails exactly on what is no document.
#[verifier::external_body]
fn parse_table(text: &str) -> (r: Option<toml::Table>)
    ensures
        match r {
            Some(table) => toml_document(text@) == Some(table_entries(table)),
            None => toml_document(text@) is None,
        },
{
    text.parse::<toml::Table>().ok()
}

/// Looks a key up with `toml::map::Map::get`. The result is present exactly
/// when the table has the key, and then tells a string (with its text) from a
/// table from any other value.
#[verifier::external_body]
fn table_get(table: &toml::Table, key: &str) -> (r: Option<TomlItem>)
    ensures
        r is Some == table_entries(*table).contains_key(key@),
        r matches Some(item) ==> item.kind() == table_entries(*table)[key@],
{
    match table.get(key) {
        None => None,
        Some(toml::Value::String(text)) => Some(TomlItem::Text(text.clone())),
        Some(toml::Value::Table(inner)) => Some(TomlItem::Table(inner.clone())),
        Some(_) => Some(TomlItem::Other),
    }
}

/// The text under `key`, where the table has the key and holds a string
/// there.
pub open spec fn text_entry(entries: Map<Seq<char>, ItemKind>, key: Seq<char>) -> Option<
    Seq<char>,
> {
    if entries.contains_key(key) {
        match entries[key] {
            ItemKind::Text(text) => Some(text),
            _ => None,
        }
    } else {
        None
    }
}

/// Where the table has `key`, it holds a string there.
pub open spec fn text_or_absent(entries: Map<Seq<char>, ItemKind>, key: Seq<char>) -> bool {
    entries.contains_key(key) ==> entries[key] is Text
}

/// Where the table has `key`, it holds a table there.
pub open spec fn table_or_absent(entries: Map<Seq<char>, ItemKind>, key: Seq<char>) -> bool {
    entries.contains_key(key) ==> entries[key] is Table
}

/// The entries are usable as settings: the three scalar keys hold strings
/// and the two sections are tables, wherever they are present. Other keys
/// are not looked at.
pub open spec fn well_typed(entries: Map<Seq<char>, ItemKind>) -> bool {
    &&& text_or_absent(entries, "data_dir"@)
    &&& text_or_absent(entries, "zookeeper"@)
    &&& text_or_absent(entries, "elasticsearch"@)
    &&& table_or_absent(entries, "index"@)
    &&& table_or_absent(entries, "sync"@)
}

/// The settings that well-typed entries spell out.
pub open spec fn config_of(entries: Map<Seq<char>, ItemKind>) -> ConfigView {
    ConfigView {
        data_dir: match text_entry(entries, "data_dir"@) {
            Some(dir) => dir,
            None => "."@,
        },
        zookeeper: text_entry(entries, "zookeeper"@),
        elasticsearch: text_entry(entries, "elasticsearch"@),
        repo_location: None,
    }
}

/// The string under `key`, if the table has one there.
fn get_text(table: &toml::Table, key: &str) -> (r: Option<String>)
    ensures
        opt_text(r) == text_entry(table_entries(*table), key@),
{
    match table_get(table, key) {
        Some(TomlItem::Text(text)) => Some(text),
        _ => None,
    }
}

/// Whether `key` is absent or holds a string.
fn is_text_or_absent(table: &toml::Table, key: &str) -> (r: bool)
    ensures
        r == text_or_absent(table_entries(*table), key@),
{
    match table_get(table, key) {
        None => true,
        Some(TomlItem::Text(_)) => true,
        _ => false,
    }
}

/// Whether `key` is absent or holds a table.
fn is_table_or_absent(table: &toml::Table, key: &str) -> (r: bool)
    ensures
        r == table_or_absent(table_entries(*table), key@),
{
    match table_get(table, key) {
        None => true,
        Some(TomlItem::Table(_)) => true,
        _ => false,
    }
}

/// Whether the table can be read as settings.
pub fn table_is_well_typed(table: &toml::Table) -> (r: bool)
    ensures
        r == well_typed(table_entries(*table)),
{
    is_text_or_absent(table, "data_dir") && is_text_or_absent(table, "zookeeper")
        && is_text_or_absent(table, "elasticsearch") && is_table_or_absent(table, "index")
        && is_table_or_absent(table, "sync")
}

impl IndexConfig {
    pub fn new() -> (r: IndexConfig)
        ensures
            r == IndexConfig,
    {
        IndexConfig
    }

    /// The indexing settings of the `[index]` section. The section is
    /// reserved: whatever it holds, the settings are the defaults.
    pub fn new_from_table(_table: &toml::Table) -> (r: IndexConfig)
        ensures
            r == IndexConfig,
    {
        IndexConfig::new()
    }
}

impl SyncConfig {
    pub fn new() -> (r: SyncConfig)
        ensures
            r == SyncConfig,
    {
        SyncConfig
    }

    /// The worker settings of the `[sync]` section. The section is reserved:
    /// whatever it holds, the settings are the defaults.
    pub fn new_from_table(_table: &toml::Table) -> (r: SyncConfig)
        ensures
            r == SyncConfig,
    {
        SyncConfig::new()
    }
}

impl Config {
    pub fn new() -> (r: Config)
        ensures
            r@ == default_config(),
    {
        Config {
            data_dir: ".".to_owned(),
            zookeeper: None,
            elasticsearch: None,
            index_config: IndexConfig::new(),
            sync_config: SyncConfig::new(),
            repo_location: None,
        }
    }

    /// The settings a parsed configuration file spells out: `data_dir`,
    /// `zookeeper` and `elasticsearch` where present, defaults elsewhere.
    pub fn new_from_table(table: &toml::Table) -> (r: Config)
        requires
            well_typed(table_entries(*table)),
        ensures
            r@ == config_of(table_entries(*table)),
    {
        let mut cfg = Config::new();
        match get_text(table, "data_dir") {
            Some(dir) => {
                cfg.data_dir = dir;
            },
            None => {},
        }
        cfg.zookeeper = get_text(table, "zookeeper");
        cfg.elasticsearch = get_text(table, "elasticsearch");
        match table_get(table, "index") {
            Some(TomlItem::Table(section)) => {
                cfg.index_config = IndexConfig::new_from_table(&section);
            },
            _ => {},
        }
        match table_get(table, "sync") {
            Some(TomlItem::Table(section)) => {
                cfg.sync_config = SyncConfig::new_from_table(&section);
            },
            _ => {},
        }
        cfg
    }
}

/// What reading the configuration text `text` gives: the settings it spells
/// out, or nothing where it is no TOML document or holds a value of the wrong
/// type under one of the known keys.
pub open spec fn parsed_config(text: Seq<char>) -> Option<ConfigView> {
    match toml_document(text) {
        Some(entries) => if well_typed(entries) {
            Some(config_of(entries))
        } else {
            None
        },
        None => None,
    }
}

/// Reads the text of a configuration file.
pub fn parse_config(text: &str) -> (r: RepoResult<Config>)
    ensures
        match parsed_config(text@) {
            Some(view) => r matches Ok(cfg) && cfg@ == view,
            None => r matches Err(RepoError::InvalidArgs(_)),
        },
{
    match parse_table(text) {
        Some(table) => {
            if table_is_well_typed(&table) {
                Ok(Config::new_from_table(&table))
            } else {
                Err(RepoError::InvalidArgs("config parsing error".to_owned()))
            }
        },
        None => Err(RepoError::InvalidArgs("config parsing error".to_owned())),
    }
}

/// The settings of a run, given the text of the configuration file where one
/// was named: that file's settings, or the defaults without a file.
pub fn read_config(config: Option<String>) -> (r: RepoResult<Config>)
    ensures
        match config {
            Some(text) => match parsed_config(text@) {
                Some(view) => r matches Ok(cfg) && cfg@ == view,
                None => r matches Err(RepoError::InvalidArgs(_)),
            },
            None => r matches Ok(cfg) && cfg@ == default_config(),
        },
{
    match config {
        Some(text) => parse_config(text.as_str()),
        None => Ok(Config::new()),
    }
}

// ---------------------------------------------------------------------------
// The command line
// ---------------------------------------------------------------------------

/// One argument that was given on the command line, with its values in the
/// order they were given.
#[derive(Debug, PartialEq, Eq)]
pub struct ArgValues {
    pub name: String,
    pub values: Vec<String>,
}

/// The arguments given to the program or to one of its subcommands.
#[derive(Debug, PartialEq, Eq)]
pub struct ArgMatches {
    pub args: Vec<ArgValues>,
}

/// The subcommand that was given, with its own arguments.
#[derive(Debug, PartialEq, Eq)]
pub struct SubCommand {
    pub name: String,
    pub matches: ArgMatches,
}

/// A parsed command line.
#[derive(Debug, PartialEq, Eq)]
pub struct CommandLine {
    pub global: ArgMatches,
    pub subcommand: Option<SubCommand>,
}

/// Values that the environment offers for settings the command line leaves
/// out.
#[derive(Debug, PartialEq, Eq)]
pub struct Environment {
    pub zookeeper: Option<String>,
    pub elasticsearch: Option<String>,
}

/// The values of the first argument named `key`, if there is one.
pub open spec fn find_values(args: Seq<ArgValues>, key: Seq<char>) -> Option<Seq<Seq<char>>>
    decreases args.len(),
{
    if args.len() == 0 {
        None
    } else if args[0].name@ == key {
        Some(texts(args[0].values@))
    } else {
        find_values(args.drop_first(), key)
    }
}

/// The first value given for `key`.
pub open spec fn first_value(args: Seq<ArgValues>, key: Seq<char>) -> Option<Seq<char>> {
    match find_values(args, key) {
        Some(values) => if values.len() > 0 {
            Some(values[0])
        } else {
            None
        },
        None => None,
    }
}

/// All values given for `key`, where there is at least one.
pub open spec fn all_values(args: Seq<ArgValues>, key: Seq<char>) -> Option<Seq<Seq<char>>> {
    match find_values(args, key) {
        Some(values) => if values.len() > 0 {
            Some(values)
        } else {
            None
        },
        None => None,
    }
}

/// `first` where it is present, else `second`.
pub open spec fn or_text(first: Option<Seq<char>>, second: Option<Seq<char>>) -> Option<
    Seq<char>,
> {
    match first {
        Some(_) => first,
        None => second,
    }
}

impl ArgMatches {
    /// Position of the first argument named `key`.
    fn position(&self, key: &str) -> (r: Option<usize>)
        ensures
            match r {
                Some(i) => i < self.args.len() && self.args[i as int].name@ == key@ && find_values(
                    self.args@,
                    key@,
                ) == Some(texts(self.args[i as int].values@)),
                None => find_values(self.args@, key@) is None,
            },
    {
        let mut i: usize = 0;
        assert(self.args@.skip(0) == self.args@);
        while i < self.args.len()
            invariant
                i <= self.args.len(),
                find_values(self.args@, key@) == find_values(self.args@.skip(i as int), key@),
            decreases self.args.len() - i,
        {
            assert(self.args@.skip(i as int)[0] == self.args@[i as int]);
            assert(self.args@.skip(i as int).drop_first() == self.args@.skip(i + 1));
            if str_eq(self.args[i].name.as_str(), key) {
                return Some(i);
            }
            i += 1;
        }
        assert(self.args@.skip(i as int).len() == 0);
        None
    }

    /// Whether the argument was given at all.
    pub fn is_present(&self, key: &str) -> (r: bool)
        ensures
            r == find_values(self.args@, key@).is_some(),
    {
        self.position(key).is_some()
    }

    /// The first value given for the argument.
    pub fn value_of(&self, key: &str) -> (r: Option<String>)
        ensures
            opt_text(r) == first_value(self.args@, key@),
    {
        match self.position(key) {
            Some(i) => {
                if self.args[i].values.len() > 0 {
                    Some(self.args[i].values[0].clone())
                } else {
                    None
                }
            },
            None => None,
        }
    }

    /// All values given for the argument, in order.
    pub fn values_of(&self, key: &str) -> (r: Option<Vec<String>>)
        ensures
            match all_values(self.args@, key@) {
                Some(values) => r matches Some(found) && texts(found@) == values,
                None => r is None,
            },
    {
        match self.position(key) {
            Some(i) => {
                if self.args[i].values.len() > 0 {
                    Some(clone_texts(&self.args[i].values))
                } else {
                    None
                }
            },
            None => None,
        }
    }
}

/// The value the command line gives for `key`.
pub fn get_config_str(args: &ArgMatches, key: &str) -> (r: Option<String>)
    ensures
        opt_text(r) == first_value(args.args@, key@),
{
    args.value_of(key)
}

/// The value the command line gives for `key`, or else the value the
/// environment offers.
pub fn get_config_str_env(args: &ArgMatches, key: &str, env_value: Option<String>) -> (r: Option<
    String,
>)
    ensures
        opt_text(r) == or_text(first_value(args.args@, key@), opt_text(env_value)),
{
    match args.value_of(key) {
        Some(value) => Some(value),
        None => env_value,
    }
}

/// The repository location a subcommand's arguments spell out: none unless a
/// remote or a clone directory is given; the branch list defaults to
/// `master`.
pub open spec fn location_of(args: Seq<ArgValues>) -> Option<RepoLocationView> {
    if find_values(args, "REMOTE"@).is_some() || find_values(args, "REPO_DIR"@).is_some() {
        Some(
            RepoLocationView {
                remote: first_value(args, "REMOTE"@),
                branches: match all_values(args, "BRANCH"@) {
                    Some(names) => names,
                    None => seq!["master"@],
                },
                dir: first_value(args, "REPO_DIR"@),
            },
        )
    } else {
        None
    }
}

impl RepoLocation {
    pub fn new() -> (r: RepoLocation)
        ensures
            r@ == (RepoLocationView { remote: None, branches: Seq::empty(), dir: None }),
    {
        let r = RepoLocation { remote: None, branches: Vec::new(), dir: None };
        assert(texts(r.branches@) =~= Seq::empty());
        r
    }

    /// The remote URI, which a run on an unknown repository cannot do
    /// without.
    pub fn get_remote<'a>(&'a self) -> (r: RepoResult<&'a str>)
        ensures
            match self.remote {
                Some(remote) => r matches Ok(uri) && uri@ == remote@,
                None => r == Err::<&str, RepoError>(RepoError::NoRemote),
            },
    {
        match &self.remote {
            Some(remote) => Ok(remote.as_str()),
            None => Err(RepoError::NoRemote),
        }
    }

    pub fn new_from_args(args: &ArgMatches) -> (r: Option<RepoLocation>)
        ensures
            opt_location(r) == location_of(args.args@),
    {
        if args.is_present("REMOTE") || args.is_present("REPO_DIR") {
            let mut repo_loc = RepoLocation::new();
            repo_loc.remote = get_config_str(args, "REMOTE");
            match args.values_of("BRANCH") {
                Some(branches) => {
                    repo_loc.branches = branches;
                },
                None => {
                    repo_loc.branches.push("master".to_owned());
                    assert(texts(repo_loc.branches@) =~= seq!["master"@]);
                },
            }
            repo_loc.dir = get_config_str(args, "REPO_DIR");
            Some(repo_loc)
        } else {
            None
        }
    }
}

/// The settings after the command line and the environment have had their
/// say: the command line wins over the environment, which wins over the
/// file; `index` and `fetch` set the repository location from their own
/// arguments.
pub open spec fn applied_config(cfg: ConfigView, line: CommandLine, env: Environment)
    -> ConfigView {
    ConfigView {
        data_dir: match first_value(line.global.args@, "DATA_DIR"@) {
            Some(dir) => dir,
            None => cfg.data_dir,
        },
        zookeeper: or_text(
            or_text(first_value(line.global.args@, "ZOOKEEPER"@), opt_text(env.zookeeper)),
            cfg.zookeeper,
        ),
        elasticsearch: or_text(
            or_text(
                first_value(line.global.args@, "ELASTICSEARCH"@),
                opt_text(env.elasticsearch),
            ),
            cfg.elasticsearch,
        ),
        repo_location: match line.subcommand {
            Some(sub) => if sub.name@ == "index"@ || sub.name@ == "fetch"@ {
                location_of(sub.matches.args@)
            } else {
                cfg.repo_location
            },
            None => cfg.repo_location,
        },
    }
}

pub fn apply_config(cfg: Config, args: &CommandLine, env: Environment) -> (r: Config)
    ensures
        r@ == applied_config(cfg@, *args, env),
{
    let mut cfg = cfg;
    let Environment { zookeeper, elasticsearch } = env;
    match get_config_str_env(&args.global, "ZOOKEEPER", zookeeper) {
        Some(value) => {
            cfg.zookeeper = Some(value);
        },
        None => {},
    }
    match get_config_str_env(&args.global, "ELASTICSEARCH", elasticsearch) {
        Some(value) => {
            cfg.elasticsearch = Some(value);
        },
        None => {},
    }
    match get_config_str(&args.global, "DATA_DIR") {
        Some(dir) => {
            cfg.data_dir = dir;
        },
        None => {},
    }
    match &args.subcommand {
        Some(sub) => {
            if str_eq(sub.name.as_str(), "index") || str_eq(sub.name.as_str(), "fetch") {
                cfg.repo_location = RepoLocation::new_from_args(&sub.matches);
            }
        },
        None => {},
    }
    cfg
}

/// The settings of a run: those of the configuration file, where one was
/// named and `config_text` is its text, overridden by the environment and
/// the command line.
pub fn get_config(args: &CommandLine, config_text: Option<String>, env: Environment) -> (r:
    RepoResult<Config>)
    ensures
        match config_text {
            Some(text) => match parsed_config(text@) {
                Some(view) => r matches Ok(cfg) && cfg@ == applied_config(view, *args, env),
                None => r matches Err(RepoError::InvalidArgs(_)),
            },
            None => r matches Ok(cfg) && cfg@ == applied_config(default_config(), *args, env),
        },
{
    match read_config(config_text) {
        Ok(cfg) => Ok(apply_config(cfg, args, env)),
        Err(e) => Err(e),
    }
}

} // verus!
