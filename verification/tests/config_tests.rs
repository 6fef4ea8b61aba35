use yawc::config::binds::{Actions, Bind, Binds, KeyBind, ModMask};
use yawc::config::envs::{Env, Envs};
use yawc::config::xkb::{RawXkb, Xkb};
use yawc::config::{
    config_path_candidates, get_config_path, join_relative, missing_config_path, version_status,
    Config, ConfigValueError, MissingConfigError, RawConfig, VersionStatus,
};

fn empty_raw() -> RawConfig {
    RawConfig { version: None, envs: None, binds: None, xkb: None }
}

#[test]
fn empty_configuration_resolves_to_defaults() {
    let c = Config::from_raw(empty_raw());
    assert_eq!(c.version, -1);
    assert_eq!(c.envs.len(), 0);
    assert_eq!(c.binds.len(), 0);
    assert_eq!(c.xkb.layout, "us");
    assert_eq!(c.xkb.variant, "");
    assert_eq!(c.xkb.options, None);
    assert_eq!(c.xkb.repeat_rate, 50);
    assert_eq!(c.xkb.repeat_delay, 200);
}

#[test]
fn empty_keyboard_section_uses_its_own_defaults() {
    let raw = RawXkb { layout: None, variant: None, options: None, repeat_rate: None, repeat_delay: None };
    let x = Xkb::from_raw(raw);
    assert_eq!(x.layout, "us");
    assert_eq!(x.variant, "");
    assert_eq!(x.repeat_rate, 200);
    assert_eq!(x.repeat_delay, 50);
}

#[test]
fn written_values_are_kept() {
    let raw = RawConfig {
        version: Some("1".to_string()),
        envs: Some(Envs(vec![Env { name: "A".to_string(), value: "b".to_string() }])),
        binds: Some(Binds(vec![Bind {
            key_register: KeyBind { mods: ModMask::super_key(), sym: 0x71 },
            actions: vec![Actions::Quit, Actions::Spawn(vec!["foot".to_string()])],
        }])),
        xkb: Some(RawXkb {
            layout: Some("de".to_string()),
            variant: Some("nodeadkeys".to_string()),
            options: Some("caps:escape".to_string()),
            repeat_rate: Some("25".to_string()),
            repeat_delay: Some("+600".to_string()),
        }),
    };
    assert_eq!(Config::check_raw(&raw), Ok(()));
    let c = Config::from_raw(raw);
    assert_eq!(c.version, 1);
    assert_eq!(c.envs[0].name, "A");
    let names: Vec<String> = (&c.envs).into_iter().map(|e| e.value.clone()).collect();
    assert_eq!(names, vec!["b".to_string()]);
    assert_eq!(c.binds[0].actions[1], Actions::Spawn(vec!["foot".to_string()]));
    assert_eq!(c.xkb.layout, "de");
    assert_eq!(c.xkb.variant, "nodeadkeys");
    assert_eq!(c.xkb.options.as_deref(), Some("caps:escape"));
    assert_eq!(c.xkb.repeat_rate, 25);
    assert_eq!(c.xkb.repeat_delay, 600);
    let binds: Vec<Bind> = c.binds.into_iter().collect();
    assert_eq!(binds.len(), 1);
}

#[test]
fn invalid_numbers_are_reported_in_order() {
    let mut raw = empty_raw();
    raw.version = Some("one".to_string());
    raw.xkb = Some(RawXkb { layout: None, variant: None, options: None, repeat_rate: Some("x".to_string()), repeat_delay: None });
    assert_eq!(Config::check_raw(&raw).err(), Some(ConfigValueError::InvalidVersion));

    let mut raw = empty_raw();
    raw.version = Some("70000".to_string());
    assert_eq!(Config::check_raw(&raw).err(), Some(ConfigValueError::InvalidVersion));

    let mut raw = empty_raw();
    raw.xkb = Some(RawXkb { layout: None, variant: None, options: None, repeat_rate: Some("x".to_string()), repeat_delay: Some("y".to_string()) });
    assert_eq!(Config::check_raw(&raw).err(), Some(ConfigValueError::InvalidRepeatRate));

    let mut raw = empty_raw();
    raw.xkb = Some(RawXkb { layout: None, variant: None, options: None, repeat_rate: None, repeat_delay: Some("".to_string()) });
    assert_eq!(Config::check_raw(&raw).err(), Some(ConfigValueError::InvalidRepeatDelay));
}

#[test]
fn keyboard_section_checks() {
    let ok = RawXkb { layout: None, variant: None, options: None, repeat_rate: Some("-7".to_string()), repeat_delay: Some("2147483647".to_string()) };
    assert_eq!(Xkb::check_raw(&ok), Ok(()));
    let x = Xkb::from_raw(ok);
    assert_eq!((x.repeat_rate, x.repeat_delay), (-7, i32::MAX));
    let bad_rate = RawXkb { layout: None, variant: None, options: None, repeat_rate: Some("2147483648".to_string()), repeat_delay: Some("z".to_string()) };
    assert_eq!(Xkb::check_raw(&bad_rate), Err(ConfigValueError::InvalidRepeatRate));
    let bad_delay = RawXkb { layout: None, variant: None, options: None, repeat_rate: None, repeat_delay: Some("5 ".to_string()) };
    assert_eq!(Xkb::check_raw(&bad_delay), Err(ConfigValueError::InvalidRepeatDelay));
    assert_eq!(Config::check_raw(&empty_raw()), Ok(()));
}

#[test]
fn version_statuses() {
    assert_eq!(version_status(-1), VersionStatus::Unset);
    assert_eq!(version_status(1), VersionStatus::Supported);
    assert_eq!(version_status(2), VersionStatus::Unknown);
    assert_eq!(version_status(0), VersionStatus::Unknown);
}

#[test]
fn joins_like_pathbuf() {
    assert_eq!(join_relative("/home/u/.config", "yawc/config.kdl"), "/home/u/.config/yawc/config.kdl");
    assert_eq!(join_relative("/home/u/.config/", "yawc/config.kdl"), "/home/u/.config/yawc/config.kdl");
    assert_eq!(join_relative("", "yawc/config.kdl"), "yawc/config.kdl");
    for base in ["/a", "/a/", "", "rel"] {
        let expected = std::path::PathBuf::from(base).join("b/c").into_os_string().into_string().unwrap();
        assert_eq!(join_relative(base, "b/c"), expected);
    }
}

#[test]
fn candidates_in_search_order() {
    let c = config_path_candidates(Some("/x/config.kdl"), Some("/xdg"), Some("/home/u"));
    assert_eq!(c, vec![
        "/x/config.kdl".to_string(),
        "/xdg/yawc/config.kdl".to_string(),
        "/home/u/.config/yawc/config.kdl".to_string(),
        "/etc/yawc/config.kdl".to_string(),
    ]);
    let c = config_path_candidates(None, None, None);
    assert_eq!(c, vec!["/etc/yawc/config.kdl".to_string()]);
}

#[test]
fn first_existing_candidate_wins() {
    let c = config_path_candidates(None, Some("/xdg"), Some("/home/u"));
    assert_eq!(get_config_path(c.clone(), &vec![false, true, true]), Some("/home/u/.config/yawc/config.kdl".to_string()));
    assert_eq!(get_config_path(c.clone(), &vec![true, true, true]), Some("/xdg/yawc/config.kdl".to_string()));
    assert_eq!(get_config_path(c, &vec![false, false, false]), None);
}

#[test]
fn missing_config_location() {
    assert_eq!(missing_config_path(Some("root"), Some("/xdg"), Some("/root")).ok(), Some("/etc/yawc/config.kdl".to_string()));
    assert_eq!(missing_config_path(Some("u"), Some("/xdg"), Some("/home/u")).ok(), Some("/xdg/yawc/config.kdl".to_string()));
    assert_eq!(missing_config_path(Some("u"), Some("/xdg/"), None).ok(), Some("/xdg//yawc/config.kdl".to_string()));
    assert_eq!(missing_config_path(Some("u"), None, Some("/home/u")).ok(), Some("/home/u/.config/yawc/config.kdl".to_string()));
    assert_eq!(missing_config_path(Some("u"), None, None).err(), Some(MissingConfigError::NoConfigPath));
    assert_eq!(missing_config_path(None, Some("/xdg"), Some("/h")).err(), Some(MissingConfigError::UserNotSet));
    assert_eq!(MissingConfigError::UserNotSet.message(), "The USER env var was not found.");
    assert_eq!(MissingConfigError::NoConfigPath.message(), "No config path found");
}
