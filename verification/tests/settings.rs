use codelauf::config::{
    apply_config, get_config, get_config_str, get_config_str_env, parse_config, read_config,
    ArgMatches, ArgValues, CommandLine, Config, Environment, IndexConfig, RepoLocation, SubCommand,
    SyncConfig,
};
use codelauf::result::RepoError;

fn arg(name: &str, values: &[&str]) -> ArgValues {
    ArgValues { name: name.to_string(), values: values.iter().map(|v| v.to_string()).collect() }
}

fn matches(args: Vec<ArgValues>) -> ArgMatches {
    ArgMatches { args }
}

fn no_env() -> Environment {
    Environment { zookeeper: None, elasticsearch: None }
}

fn line(global: Vec<ArgValues>, sub: Option<(&str, Vec<ArgValues>)>) -> CommandLine {
    CommandLine {
        global: matches(global),
        subcommand: sub.map(|(name, args)| SubCommand { name: name.to_string(), matches: matches(args) }),
    }
}

#[test]
fn defaults_are_the_current_directory_and_nothing_else() {
    let config = Config::new();
    assert_eq!(config.data_dir, ".");
    assert_eq!(config.zookeeper, None);
    assert_eq!(config.elasticsearch, None);
    assert_eq!(config.index_config, IndexConfig::new());
    assert_eq!(config.sync_config, SyncConfig::new());
    assert_eq!(config.repo_location, None);
    assert_eq!(config.clone(), config);
    let location = RepoLocation::new();
    assert_eq!((location.remote.clone(), location.branches.clone(), location.dir.clone()), (None, vec![], None));
    assert_eq!(location.get_remote(), Err(RepoError::NoRemote));
}

#[test]
fn a_configuration_file_sets_the_three_scalars() {
    let text = "data_dir = \"/srv/codelauf\"\nzookeeper = \"zk:2181/cl\"\nelasticsearch = \"es:9300\"\n\n[index]\nanalyse = true\n\n[sync]\n";
    let config = parse_config(text).unwrap();
    assert_eq!(config.data_dir, "/srv/codelauf");
    assert_eq!(config.zookeeper, Some("zk:2181/cl".to_string()));
    assert_eq!(config.elasticsearch, Some("es:9300".to_string()));
    assert_eq!(config.repo_location, None);
}

#[test]
fn absent_keys_keep_defaults_and_unknown_keys_are_ignored() {
    let config = parse_config("colour = \"blue\"\nretries = 3\n[other]\nx = 1.5\n").unwrap();
    assert_eq!(config, Config::new());
    assert_eq!(parse_config("").unwrap(), Config::new());
    let only_es = parse_config("elasticsearch = \"localhost\"").unwrap();
    assert_eq!(only_es.elasticsearch, Some("localhost".to_string()));
    assert_eq!(only_es.data_dir, ".");
}

#[test]
fn a_file_that_is_no_toml_or_ill_typed_is_refused() {
    for text in [
        "data_dir = ",
        "this is not toml",
        "data_dir = 5",
        "zookeeper = [\"a\"]",
        "elasticsearch = true",
        "index = \"text\"",
        "sync = 3",
        "[data_dir]\nx = 1",
    ] {
        assert!(matches!(parse_config(text), Err(RepoError::InvalidArgs(_))), "{}", text);
    }
}

#[test]
fn read_config_without_a_file_gives_the_defaults() {
    assert_eq!(read_config(None), Ok(Config::new()));
    let read = read_config(Some("data_dir = \"d\"".to_string())).unwrap();
    assert_eq!(read.data_dir, "d");
    assert!(matches!(read_config(Some("= =".to_string())), Err(RepoError::InvalidArgs(_))));
}

#[test]
fn arguments_are_looked_up_by_name() {
    let args = matches(vec![arg("BRANCH", &["master", "dev"]), arg("FLAG", &[]), arg("BRANCH", &["late"])]);
    assert!(args.is_present("BRANCH"));
    assert!(args.is_present("FLAG"));
    assert!(!args.is_present("REMOTE"));
    assert!(!args.is_present("branch"));
    assert_eq!(args.value_of("BRANCH"), Some("master".to_string()));
    assert_eq!(args.value_of("FLAG"), None);
    assert_eq!(args.value_of("REMOTE"), None);
    assert_eq!(args.values_of("BRANCH"), Some(vec!["master".to_string(), "dev".to_string()]));
    assert_eq!(args.values_of("FLAG"), None);
    assert_eq!(args.values_of("REMOTE"), None);
    assert_eq!(get_config_str(&args, "BRANCH"), Some("master".to_string()));
    assert_eq!(get_config_str(&args, "CONFIG"), None);
}

#[test]
fn the_command_line_wins_over_the_environment() {
    let args = matches(vec![arg("ZOOKEEPER", &["cli:1"])]);
    assert_eq!(
        get_config_str_env(&args, "ZOOKEEPER", Some("env:2".to_string())),
        Some("cli:1".to_string())
    );
    assert_eq!(
        get_config_str_env(&args, "ELASTICSEARCH", Some("env:2".to_string())),
        Some("env:2".to_string())
    );
    assert_eq!(get_config_str_env(&args, "ELASTICSEARCH", None), None);
}

#[test]
fn a_location_needs_a_remote_or_a_directory() {
    assert_eq!(RepoLocation::new_from_args(&matches(vec![arg("BRANCH", &["dev"])])), None);
    assert_eq!(RepoLocation::new_from_args(&matches(vec![])), None);
    let by_remote = RepoLocation::new_from_args(&matches(vec![arg("REMOTE", &["git://x"])])).unwrap();
    assert_eq!(by_remote.remote, Some("git://x".to_string()));
    assert_eq!(by_remote.branches, vec!["master".to_string()]);
    assert_eq!(by_remote.dir, None);
    assert_eq!(by_remote.get_remote(), Ok("git://x"));
    let by_dir = RepoLocation::new_from_args(&matches(vec![
        arg("REPO_DIR", &["/tmp/x"]),
        arg("BRANCH", &["dev", "next"]),
    ]))
    .unwrap();
    assert_eq!(by_dir.remote, None);
    assert_eq!(by_dir.branches, vec!["dev".to_string(), "next".to_string()]);
    assert_eq!(by_dir.dir, Some("/tmp/x".to_string()));
    assert_eq!(by_dir.clone(), by_dir);
}

#[test]
fn settings_are_layered_file_then_environment_then_command_line() {
    let mut file = Config::new();
    file.zookeeper = Some("file-zk".to_string());
    file.elasticsearch = Some("file-es".to_string());
    file.data_dir = "file-dir".to_string();
    let env = Environment { zookeeper: Some("env-zk".to_string()), elasticsearch: None };
    let applied = apply_config(
        file.clone(),
        &line(vec![arg("DATA_DIR", &["cli-dir"])], Some(("sync", vec![arg("REMOTE", &["r"])]))),
        env,
    );
    assert_eq!(applied.zookeeper, Some("env-zk".to_string()));
    assert_eq!(applied.elasticsearch, Some("file-es".to_string()));
    assert_eq!(applied.data_dir, "cli-dir");
    assert_eq!(applied.repo_location, None);

    let applied = apply_config(
        file,
        &line(
            vec![arg("ZOOKEEPER", &["cli-zk"]), arg("ELASTICSEARCH", &["cli-es"])],
            Some(("index", vec![arg("REMOTE", &["r"]), arg("BRANCH", &["b"])])),
        ),
        Environment { zookeeper: Some("env-zk".to_string()), elasticsearch: Some("env-es".to_string()) },
    );
    assert_eq!(applied.zookeeper, Some("cli-zk".to_string()));
    assert_eq!(applied.elasticsearch, Some("cli-es".to_string()));
    assert_eq!(applied.data_dir, "file-dir");
    let location = applied.repo_location.unwrap();
    assert_eq!(location.remote, Some("r".to_string()));
    assert_eq!(location.branches, vec!["b".to_string()]);
}

#[test]
fn fetch_sets_the_location_and_other_commands_keep_it() {
    let mut before = Config::new();
    let mut kept = RepoLocation::new();
    kept.remote = Some("old".to_string());
    before.repo_location = Some(kept.clone());
    let fetched =
        apply_config(before.clone(), &line(vec![], Some(("fetch", vec![arg("REPO_DIR", &["d"])]))), no_env());
    assert_eq!(fetched.repo_location.unwrap().dir, Some("d".to_string()));
    let cleared = apply_config(before.clone(), &line(vec![], Some(("index", vec![]))), no_env());
    assert_eq!(cleared.repo_location, None);
    let init = apply_config(before.clone(), &line(vec![], Some(("init", vec![arg("REMOTE", &["x"])]))), no_env());
    assert_eq!(init.repo_location, Some(kept.clone()));
    let none = apply_config(before, &line(vec![], None), no_env());
    assert_eq!(none.repo_location, Some(kept));
}

#[test]
fn get_config_reads_the_file_and_applies_the_rest() {
    let command = line(vec![arg("DATA_DIR", &["/d"])], Some(("index", vec![arg("REMOTE", &["r"])])));
    let config = get_config(&command, Some("elasticsearch = \"es\"".to_string()), no_env()).unwrap();
    assert_eq!(config.data_dir, "/d");
    assert_eq!(config.elasticsearch, Some("es".to_string()));
    assert_eq!(config.repo_location.unwrap().remote, Some("r".to_string()));
    let plain = get_config(&command, None, no_env()).unwrap();
    assert_eq!(plain.elasticsearch, None);
    assert!(matches!(
        get_config(&command, Some("data_dir = 1".to_string()), no_env()),
        Err(RepoError::InvalidArgs(_))
    ));
}
