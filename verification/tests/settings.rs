use north_db::config::{
    base_directory, Config, ConfigError, DurabilityConfig, LogLevel, LoggingConfig, StorageConfig,
};

fn config() -> Config {
    Config {
        version: 1,
        storage: StorageConfig {
            path: "data.north".to_owned(),
            cache_size_mb: 64,
            create_if_missing: true,
            read_only: false,
        },
        durability: DurabilityConfig { sync_on_commit: true, page_checksums: true },
        logging: LoggingConfig { level: LogLevel::Info },
    }
}

#[test]
fn valid_settings_are_accepted() {
    let config = config();
    config.validate().expect("configuration should validate");
    assert_eq!(config.cache_size_bytes(), 64 * 1024 * 1024);
    assert_eq!(config.logging.level, LogLevel::Info);
}

#[test]
fn rejects_read_only_creation() {
    let mut config = config();
    config.storage.create_if_missing = false;
    config.storage.read_only = true;
    config.storage.create_if_missing = true;
    assert!(matches!(
        config.validate(),
        Err(ConfigError::InvalidValue {
            field: "storage.create_if_missing",
            ..
        })
    ));
}

#[test]
fn rejects_other_versions() {
    let mut config = config();
    config.version = 2;
    assert_eq!(
        config.validate(),
        Err(ConfigError::UnsupportedVersion { found: 2, supported: 1 })
    );
}

#[test]
fn rejects_an_empty_path() {
    let mut config = config();
    config.storage.path = String::new();
    assert_eq!(
        config.validate(),
        Err(ConfigError::InvalidValue {
            field: "storage.path",
            reason: "must not be empty".to_owned(),
        })
    );
}

#[test]
fn rejects_cache_sizes_out_of_range() {
    for size in [0, 1024 * 1024 + 1, u64::MAX] {
        let mut config = config();
        config.storage.cache_size_mb = size;
        assert_eq!(
            config.validate(),
            Err(ConfigError::InvalidValue {
                field: "storage.cache_size_mb",
                reason: "must be between 1 and 1048576 MiB".to_owned(),
            })
        );
    }
    let mut config = config();
    config.storage.cache_size_mb = 1024 * 1024;
    config.validate().unwrap();
    assert_eq!(config.cache_size_bytes(), 1 << 40);
}

#[test]
fn relative_paths_are_resolved_against_the_settings_file() {
    let mut config = config();
    config.resolve_storage_path("settings/north.yaml");
    let expected = std::path::Path::new("settings").join("data.north");
    assert_eq!(config.storage.path, expected.to_str().unwrap());
}

#[test]
fn the_directory_of_the_settings_file_comes_first() {
    let separator = std::path::MAIN_SEPARATOR;
    let cases = [
        ("north.yaml", "data.north", "data.north".to_owned()),
        ("", "data.north", format!(".{separator}data.north")),
        ("./north.yaml", "data.north", format!(".{separator}data.north")),
        ("../north.yaml", "data.north", format!("..{separator}data.north")),
        ("/north.yaml", "data.north", "/data.north".to_owned()),
        ("/etc/north/north.yaml", "db/data", format!("/etc/north{separator}db/data")),
        ("/home/me/.config/north.yaml", "db", format!("/home/me/.config{separator}db")),
        ("etc/.north.yaml", ".db/.data", format!("etc{separator}.db/.data")),
        ("etc/../north.yaml", "a/../db", format!("etc/..{separator}a/../db")),
        ("etc/north.yaml", "db/", format!("etc{separator}db/")),
        ("etc/north.yaml", "./db//data", format!("etc{separator}./db//data")),
        ("etc/north.yaml", "db\\data", format!("etc{separator}db\\data")),
        ("etc/north.yaml", "/srv/./data/", "/srv/./data/".to_owned()),
        ("settings/north.yaml", "/srv/data", "/srv/data".to_owned()),
        ("north.yaml", "/srv/data", "/srv/data".to_owned()),
    ];
    for (config_path, path, expected) in cases {
        let mut config = config();
        config.storage.path = path.to_owned();
        config.resolve_storage_path(config_path);
        assert_eq!(config.storage.path, expected);
    }
}

#[test]
fn absolute_paths_stay() {
    let mut config = config();
    let absolute = if is_absolute("/srv/data.north") { "/srv/data.north" } else { "C:\\data" };
    config.storage.path = absolute.to_owned();
    config.resolve_storage_path("settings/north.yaml");
    assert_eq!(config.storage.path, absolute);
}

fn is_absolute(path: &str) -> bool {
    std::path::Path::new(path).is_absolute()
}

#[test]
fn placing_the_storage_takes_the_joined_path() {
    let mut relative = config();
    relative.place_storage(false, "dir/data.north".to_owned());
    assert_eq!(relative.storage.path, "dir/data.north");
    let mut absolute = config();
    absolute.place_storage(true, "dir/data.north".to_owned());
    assert_eq!(absolute.storage.path, "data.north");
    assert_eq!(base_directory(Some("dir".to_owned())), "dir");
    assert_eq!(base_directory(None), ".");
}
