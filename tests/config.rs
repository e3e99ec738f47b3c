use crater_fs::config::{
    BadConfig, Config, Crate, CrateConfig, DemoCrates, GitHubRepo, RegistryCrate, SandboxConfig,
    ServerConfig, ServerLabels, Size,
};

fn flags(settings: &toml::Value) -> CrateConfig {
    let flag = |f: &str| settings.get(f).and_then(|v| v.as_bool()).unwrap_or(false);
    CrateConfig {
        skip: flag("skip"),
        skip_tests: flag("skip-tests"),
        quiet: flag("quiet"),
        update_lockfile: flag("update-lockfile"),
        broken: flag("broken"),
    }
}

fn table(doc: &toml::Table, key: &str) -> Vec<(String, CrateConfig)> {
    let mut out = Vec::new();
    if let Some(t) = doc.get(key).and_then(|v| v.as_table()) {
        for (name, settings) in t {
            out.push((name.clone(), flags(settings)));
        }
    }
    out
}

fn strings(v: &toml::Value) -> Vec<String> {
    v.as_array()
        .unwrap()
        .iter()
        .map(|s| s.as_str().unwrap().to_string())
        .collect()
}

fn config_from_toml(text: &str) -> Config {
    let doc: toml::Table = text.parse().unwrap();
    let server = &doc["server"];
    let labels = &server["labels"];
    let demo = &doc["demo-crates"];
    let memory = doc["sandbox"]["memory-limit"].as_str().unwrap();
    Config {
        demo_crates: DemoCrates {
            crates: strings(&demo["crates"]),
            github_repos: strings(&demo["github-repos"]),
        },
        crates: table(&doc, "crates"),
        github_repos: table(&doc, "github-repos"),
        server: ServerConfig {
            bot_acl: strings(&server["bot-acl"]),
            labels: ServerLabels {
                remove: regex::Regex::new(labels["remove"].as_str().unwrap()).unwrap(),
                experiment_queued: labels["experiment-queued"].as_str().unwrap().to_string(),
                experiment_completed: labels["experiment-completed"].as_str().unwrap().to_string(),
            },
        },
        sandbox: SandboxConfig { memory_limit: Size::parse(memory.as_bytes()).unwrap() },
    }
}

fn registry(name: &str) -> Crate {
    Crate::Registry(RegistryCrate { name: name.into(), version: "42".into() })
}

fn github(org: &str, name: &str) -> Crate {
    Crate::GitHub(GitHubRepo { org: org.into(), name: name.into() })
}

const SAMPLE: &str = "[server]\n\
bot-acl = []\n\
[server.labels]\n\
remove = \"\"\n\
experiment-queued = \"\"\n\
experiment-completed = \"\"\n\
[demo-crates]\n\
crates = []\n\
github-repos = []\n\
[sandbox]\n\
memory-limit = \"2G\"\n\
[crates]\n\
lazy_static = { skip = true }\n\
\n\
[github-repos]\n\
\"rust-lang/rust\" = { quiet = true }\n";

#[test]
fn test_config() {
    let list = config_from_toml(SAMPLE);

    assert!(list.should_skip(&Crate::Registry(RegistryCrate {
        name: "lazy_static".into(),
        version: "42".into(),
    })));
    assert!(!list.should_skip(&Crate::Registry(RegistryCrate {
        name: "rand".into(),
        version: "42".into(),
    })));

    assert!(list.is_quiet(&Crate::GitHub(GitHubRepo {
        org: "rust-lang".into(),
        name: "rust".into(),
    })));
    assert!(!list.is_quiet(&Crate::GitHub(GitHubRepo {
        org: "rust-lang".into(),
        name: "cargo".into(),
    })));
}

#[test]
fn other_flags_default_to_false() {
    let list = config_from_toml(SAMPLE);
    let lazy = registry("lazy_static");
    assert!(!list.should_skip_tests(&lazy));
    assert!(!list.is_quiet(&lazy));
    assert!(!list.should_update_lockfile(&lazy));
    assert!(!list.is_broken(&lazy));
    assert!(!list.should_skip(&github("rust-lang", "rust")));
    assert!(!list.should_skip(&Crate::Local("/tmp/krate".into())));
    assert_eq!(list.sandbox.memory_limit, Size::Gigabytes(2));
    assert!(list.demo_crates().crates.is_empty());
}

#[test]
fn repository_keys_are_org_slash_name() {
    assert_eq!(GitHubRepo { org: "rust-lang".into(), name: "rust".into() }.slug(), "rust-lang/rust");
}

#[test]
fn registry_key_does_not_match_repository() {
    let mut list = config_from_toml(SAMPLE);
    list.crates.push(("rust-lang/rust".into(), CrateConfig {
        skip: true,
        skip_tests: false,
        quiet: false,
        update_lockfile: false,
        broken: true,
    }));
    assert!(!list.should_skip(&github("rust-lang", "rust")));
    assert!(list.is_broken(&registry("rust-lang/rust")));
}

#[test]
fn first_entry_of_a_key_counts() {
    let mut list = config_from_toml(SAMPLE);
    list.crates.push(("lazy_static".into(), CrateConfig {
        skip: false,
        skip_tests: true,
        quiet: true,
        update_lockfile: true,
        broken: true,
    }));
    let lazy = registry("lazy_static");
    assert!(list.should_skip(&lazy));
    assert!(!list.is_broken(&lazy));
}

#[test]
fn configured_crates_all_present() {
    let list = config_from_toml(SAMPLE);
    let crates = vec![registry("rand"), registry("lazy_static"), github("rust-lang", "rust")];
    assert_eq!(list.check_for_missing_crates(&crates), Ok(()));
    assert_eq!(list.check_for_missing_repos(&crates), Ok(()));
}

#[test]
fn configured_crates_missing_are_named() {
    let mut list = config_from_toml(SAMPLE);
    list.crates.push(("serde".into(), CrateConfig {
        skip: true,
        skip_tests: false,
        quiet: false,
        update_lockfile: false,
        broken: false,
    }));
    // a repository of the same name does not stand for a registry crate
    let crates = vec![github("rust-lang", "lazy_static"), registry("serde"), registry("rust")];
    assert_eq!(
        list.check_for_missing_crates(&crates),
        Err(BadConfig { missing: vec!["lazy_static".to_string()] })
    );
    assert_eq!(
        list.check_for_missing_repos(&crates),
        Err(BadConfig { missing: vec!["rust-lang/rust".to_string()] })
    );
}

#[test]
fn empty_tables_have_nothing_missing() {
    let mut list = config_from_toml(SAMPLE);
    list.crates.clear();
    list.github_repos.clear();
    assert_eq!(list.check_for_missing_crates(&[]), Ok(()));
    assert_eq!(list.check_for_missing_repos(&[]), Ok(()));
}

#[test]
fn sizes() {
    assert_eq!(Size::parse(b"2G"), Some(Size::Gigabytes(2)));
    assert_eq!(Size::parse(b"512M"), Some(Size::Megabytes(512)));
    assert_eq!(Size::parse(b"7K"), Some(Size::Kilobytes(7)));
    assert_eq!(Size::parse(b"1T"), Some(Size::Terabytes(1)));
    assert_eq!(Size::parse(b"10B"), Some(Size::Bytes(10)));
    assert_eq!(Size::parse(b"1024"), Some(Size::Bytes(1024)));
    assert_eq!(Size::parse(b""), None);
    assert_eq!(Size::parse(b"G"), None);
    assert_eq!(Size::parse(b"2X"), None);
    assert_eq!(Size::parse(b"2g"), None);
    assert_eq!(Size::parse(b"1.5G"), None);
    assert_eq!(Size::parse(b"99999999999999999999999G"), None);
    assert_eq!(Size::parse(b"18446744073709551615"), Some(Size::Bytes(usize::MAX)));
}

#[test]
fn duplicate_keys_are_reported() {
    assert_eq!(Config::check_for_dup_keys(SAMPLE), Ok(()));
    let dup = "[crates]\nlazy_static = { skip = true }\nlazy_static = { quiet = true }\n";
    let err = Config::check_for_dup_keys(dup).unwrap_err();
    assert!(err.contains("duplicate key"));
    assert!(Config::check_for_dup_keys("[crates\n").is_err());
    assert_eq!(Config::check_for_dup_keys(""), Ok(()));
}
