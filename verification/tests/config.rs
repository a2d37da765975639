use colorschemed::config::{Commands, Config, ConfigCandidate, ConfigError, Placeholder};
use colorschemed::theme::ThemeMode;

fn placeholder(light: &str, dark: &str) -> Placeholder {
    Placeholder::new(light.to_string(), dark.to_string())
}

/// The configuration as `config/config.toml` writes it: the three built-in
/// placeholders under their bare names, and no commands.
fn parsed_default_file() -> Config {
    let mut c = Config::new(Commands::new(false, Vec::new()));
    c.insert_mapping("mode".to_string(), placeholder("light", "dark"));
    c.insert_mapping("Mode".to_string(), placeholder("Light", "Dark"));
    c.insert_mapping("MODE".to_string(), placeholder("LIGHT", "DARK"));
    c
}

#[test]
fn default_config() {
    let default = Config::default();

    let input = Config::load(vec![ConfigCandidate::Found(Ok(parsed_default_file()))]).unwrap();

    assert!(input == default);
}

#[test]
fn example_config() {
    let mut c = Config::new(Commands::new(
        false,
        vec![
            "sed -i 's/theme = \".*\"/theme = \"{{-theme-}}\"/' $HOME/.config/helix/config.toml"
                .to_string(),
            "alacritty msg config colors=~/.config/alacritty/{{-mode-}}.toml".to_string(),
        ],
    ));
    c.insert_mapping("theme".to_string(), placeholder("onelight", "onedark"));
    let input = Config::load(vec![ConfigCandidate::Found(Ok(c))]);
    assert!(input.is_ok());
}

#[test]
fn placeholder_get_picks_the_mode() {
    let p = placeholder("day", "night");
    assert_eq!(p.get(ThemeMode::Light), "day");
    assert_eq!(p.get(ThemeMode::Dark), "night");
}

#[test]
fn default_has_no_commands_and_does_not_ask() {
    let c = Config::default();
    assert!(!c.ask_before());
    assert!(c.commands(ThemeMode::Light).is_empty());
    assert!(Commands::default() == Commands::new(false, Vec::new()));
}

#[test]
fn default_expands_the_built_in_identifiers() {
    // A configuration built from the default one by hand, with a command.
    let mut c = Config::new(Commands::new(
        true,
        vec!["echo {{-mode-}} {{-Mode-}} {{-MODE-}}".to_string(), "true".to_string()],
    ));
    c.insert_mapping("{{-mode-}}".to_string(), placeholder("light", "dark"));
    c.insert_mapping("{{-Mode-}}".to_string(), placeholder("Light", "Dark"));
    c.insert_mapping("{{-MODE-}}".to_string(), placeholder("LIGHT", "DARK"));
    assert!(c.ask_before());
    assert_eq!(
        c.commands(ThemeMode::Light),
        vec!["echo light Light LIGHT".to_string(), "true".to_string()]
    );
    assert_eq!(
        c.commands(ThemeMode::Dark),
        vec!["echo dark Dark DARK".to_string(), "true".to_string()]
    );
}

#[test]
fn load_wraps_the_keys_of_the_file() {
    let mut c = Config::new(Commands::new(false, vec!["kitty +kitten themes {{-kitty-}}".to_string(), "echo kitty".to_string()]));
    c.insert_mapping("kitty".to_string(), placeholder("Tango Light", "Tango Dark"));
    let loaded = Config::load(vec![ConfigCandidate::Found(Ok(c))]).unwrap();
    assert_eq!(
        loaded.commands(ThemeMode::Dark),
        vec!["kitty +kitten themes Tango Dark".to_string(), "echo kitty".to_string()]
    );
    assert_eq!(
        loaded.commands(ThemeMode::Light),
        vec!["kitty +kitten themes Tango Light".to_string(), "echo kitty".to_string()]
    );
}

#[test]
fn load_without_a_file_gives_the_built_in_configuration() {
    assert!(Config::load(Vec::new()).unwrap() == Config::default());
    let loaded =
        Config::load(vec![ConfigCandidate::Unopenable, ConfigCandidate::Unopenable]).unwrap();
    assert!(loaded == Config::default());
    assert!(!loaded.ask_before());
}

#[test]
fn first_openable_candidate_decides() {
    let mut first = Config::new(Commands::new(true, vec!["echo {{-a-}}".to_string()]));
    first.insert_mapping("a".to_string(), placeholder("1", "2"));
    let second = Config::new(Commands::new(false, Vec::new()));
    let err = std::io::Error::new(std::io::ErrorKind::Other, "unused");
    let loaded = Config::load(vec![
        ConfigCandidate::Unopenable,
        ConfigCandidate::Found(Ok(first)),
        ConfigCandidate::Found(Ok(second)),
        ConfigCandidate::Found(Err(ConfigError::IO(err))),
    ])
    .unwrap();
    assert!(loaded.ask_before());
    assert_eq!(loaded.commands(ThemeMode::Dark), vec!["echo 2".to_string()]);

    let toml_err = toml::from_str::<toml::Table>("x = [").unwrap_err();
    let ok = Config::new(Commands::new(false, Vec::new()));
    assert!(matches!(
        Config::load(vec![
            ConfigCandidate::Unopenable,
            ConfigCandidate::Found(Err(ConfigError::TOML(toml_err))),
            ConfigCandidate::Found(Ok(ok)),
        ]),
        Err(ConfigError::TOML(_))
    ));
}

#[test]
fn load_passes_errors_on() {
    let err = std::io::Error::new(std::io::ErrorKind::PermissionDenied, "denied");
    match Config::load(vec![ConfigCandidate::Found(Err(ConfigError::IO(err)))]) {
        Err(ConfigError::IO(e)) => assert_eq!(e.kind(), std::io::ErrorKind::PermissionDenied),
        _ => panic!("expected the I/O error"),
    }
    let toml_err = toml::from_str::<toml::Table>("a = ").unwrap_err();
    assert!(matches!(
        Config::load(vec![ConfigCandidate::Found(Err(ConfigError::TOML(toml_err)))]),
        Err(ConfigError::TOML(_))
    ));
}

#[test]
fn insert_mapping_replaces_in_place() {
    let mut c = Config::new(Commands::new(false, vec!["a-b".to_string()]));
    assert!(c.insert_mapping("a".to_string(), placeholder("1", "2")).is_none());
    assert!(c.insert_mapping("b".to_string(), placeholder("3", "4")).is_none());
    let old = c.insert_mapping("a".to_string(), placeholder("5", "6"));
    assert!(old == Some(placeholder("1", "2")));
    // "a" keeps its place before "b".
    assert_eq!(c.commands(ThemeMode::Light), vec!["5-3".to_string()]);
    assert_eq!(c.commands(ThemeMode::Dark), vec!["6-4".to_string()]);
}

#[test]
fn mappings_apply_in_order() {
    // The first replacement produces the second identifier.
    let mut c = Config::new(Commands::new(false, vec!["x".to_string()]));
    c.insert_mapping("x".to_string(), placeholder("y", "y"));
    c.insert_mapping("y".to_string(), placeholder("z", "w"));
    assert_eq!(c.commands(ThemeMode::Light), vec!["z".to_string()]);
    assert_eq!(c.commands(ThemeMode::Dark), vec!["w".to_string()]);
}

#[test]
fn equality_ignores_mapping_order() {
    let mut a = Config::new(Commands::new(false, Vec::new()));
    a.insert_mapping("p".to_string(), placeholder("1", "2"));
    a.insert_mapping("q".to_string(), placeholder("3", "4"));
    let mut b = Config::new(Commands::new(false, Vec::new()));
    b.insert_mapping("q".to_string(), placeholder("3", "4"));
    b.insert_mapping("p".to_string(), placeholder("1", "2"));
    assert!(a == b);
    b.insert_mapping("p".to_string(), placeholder("1", "9"));
    assert!(!(a == b));
    let c = Config::new(Commands::new(true, Vec::new()));
    let d = Config::new(Commands::new(false, Vec::new()));
    assert!(!(c == d));
}

/// Builds a configuration from TOML text through the library's constructors,
/// as the program does with the parsed file.
fn config_from_toml(text: &str) -> Config {
    let table: toml::Table = toml::from_str(text).unwrap();
    let section = table["Commands"].as_table().unwrap();
    let commands = section["commands"]
        .as_array()
        .unwrap()
        .iter()
        .map(|c| c.as_str().unwrap().to_string())
        .collect();
    let mut config = Config::new(Commands::new(section["ask-before"].as_bool().unwrap(), commands));
    for (key, value) in table["Mappings"].as_table().unwrap() {
        let p = value.as_table().unwrap();
        config.insert_mapping(
            key.clone(),
            placeholder(p["light"].as_str().unwrap(), p["dark"].as_str().unwrap()),
        );
    }
    config
}

#[test]
fn toml_text_to_expanded_commands() {
    let text = r#"
[Mappings]
mode = { light = "light", dark = "dark" }
Mode = { light = "Light", dark = "Dark" }
MODE = { light = "LIGHT", dark = "DARK" }
helix = { light = "onelight", dark = "onedark" }

[Commands]
ask-before = false
commands = ["echo {{-helix-}} {{-MODE-}}", "true"]
"#;
    let loaded = Config::load(vec![
        ConfigCandidate::Unopenable,
        ConfigCandidate::Found(Ok(config_from_toml(text))),
    ])
    .unwrap();
    assert!(!loaded.ask_before());
    assert_eq!(
        loaded.commands(ThemeMode::Light),
        vec!["echo onelight LIGHT".to_string(), "true".to_string()]
    );
    assert_eq!(
        loaded.commands(ThemeMode::Dark),
        vec!["echo onedark DARK".to_string(), "true".to_string()]
    );

    let default_text = r#"
[Mappings]
mode = { light = "light", dark = "dark" }
Mode = { light = "Light", dark = "Dark" }
MODE = { light = "LIGHT", dark = "DARK" }

[Commands]
ask-before = false
commands = []
"#;
    let loaded = Config::load(vec![ConfigCandidate::Found(Ok(config_from_toml(default_text)))]);
    assert!(loaded.unwrap() == Config::default());
}
