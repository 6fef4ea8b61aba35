//! The compositor's configuration: what a configuration file holds once decoded,
//! how its values are resolved, and where the file is looked for.
use vstd::prelude::*;

pub mod binds;
pub mod envs;
pub mod xkb;

use binds::Binds;
use envs::Envs;
use xkb::{RawXkb, Xkb, i32_setting, text_or};
use crate::numeric::{parse_i16, parse_i32, parsed_in_range};

verus! {

/// A configuration value that does not parse as the number it stands for.
#[derive(Debug, Clone, Copy, PartialEq, Eq, Structural)]
pub enum ConfigValueError {
    /// The version is not an `i16`.
    InvalidVersion,
    /// The key repeat rate is not an `i32`.
    InvalidRepeatRate,
    /// The key repeat delay is not an `i32`.
    InvalidRepeatDelay,
}

/// The configuration as it is written: every section is optional.
#[derive(Debug)]
pub struct RawConfig {
    pub version: Option<String>,
    pub envs: Option<Envs>,
    pub binds: Option<Binds>,
    pub xkb: Option<RawXkb>,
}

/// The configuration the compositor runs with.
#[derive(Debug)]
pub struct Config {
    pub version: i16,
    pub envs: Envs,
    pub binds: Binds,
    pub xkb: Xkb,
}

/// The version a raw configuration declares; absent, it is "-1" (unset).
pub open spec fn raw_version(raw: RawConfig) -> Option<int> {
    parsed_in_range(text_or(raw.version, "-1"@), i16::MIN as int, i16::MAX as int)
}

/// The repeat rate a raw configuration asks for. Without a keyboard section the
/// defaults are the rate "50" and the delay "200".
pub open spec fn config_repeat_rate(raw: RawConfig) -> Option<int> {
    match raw.xkb {
        Some(x) => i32_setting(x.repeat_rate, "200"@),
        None => parsed_in_range("50"@, i32::MIN as int, i32::MAX as int),
    }
}

/// The repeat delay a raw configuration asks for (see `config_repeat_rate`).
pub open spec fn config_repeat_delay(raw: RawConfig) -> Option<int> {
    match raw.xkb {
        Some(x) => i32_setting(x.repeat_delay, "50"@),
        None => parsed_in_range("200"@, i32::MIN as int, i32::MAX as int),
    }
}

/// The layout a raw configuration asks for; "us" by default.
pub open spec fn config_layout(raw: RawConfig) -> Seq<char> {
    match raw.xkb {
        Some(x) => text_or(x.layout, "us"@),
        None => "us"@,
    }
}

/// The layout variant a raw configuration asks for; empty by default.
pub open spec fn config_variant(raw: RawConfig) -> Seq<char> {
    match raw.xkb {
        Some(x) => text_or(x.variant, ""@),
        None => ""@,
    }
}

/// The layout options a raw configuration asks for; none by default.
pub open spec fn config_options(raw: RawConfig) -> Option<String> {
    match raw.xkb {
        Some(x) => x.options,
        None => None,
    }
}

/// The keyboard settings of a configuration are those its keyboard section resolves to
/// on its own: the layout written there, or "us" when none is written (with or without
/// a keyboard section); the variant written, or none; the options written, or none. So
/// the layout is empty only when it is written empty.
pub proof fn lemma_keyboard_defaults(raw: RawConfig)
    ensures
        raw.xkb matches Some(x) ==> (x.layout matches Some(l) ==> config_layout(raw) == l@),
        (raw.xkb is None || raw.xkb.unwrap().layout is None) ==> config_layout(raw) == "us"@,
        config_layout(raw).len() == 0 ==> (raw.xkb matches Some(x) && x.layout matches Some(l) && l@.len() == 0),
        raw.xkb matches Some(x) ==> (x.variant matches Some(v) ==> config_variant(raw) == v@),
        (raw.xkb is None || raw.xkb.unwrap().variant is None) ==> config_variant(raw).len() == 0,
        raw.xkb matches Some(x) ==> config_options(raw) == x.options,
        raw.xkb is None ==> config_options(raw) is None,
        raw.xkb matches Some(x) ==> config_repeat_rate(raw) == xkb::raw_repeat_rate(x)
            && config_repeat_delay(raw) == xkb::raw_repeat_delay(x),
{
    reveal_strlit("us");
    reveal_strlit("");
}

/// The numeric defaults of a configuration: an unset version reads as -1; without a
/// keyboard section the repeat rate is 50 and the delay 200; within a keyboard section
/// an unset rate is 200 and an unset delay 50.
pub proof fn lemma_numeric_defaults(raw: RawConfig)
    ensures
        raw.version is None ==> raw_version(raw) == Some(-1int),
        raw.xkb is None ==> config_repeat_rate(raw) == Some(50int) && config_repeat_delay(raw) == Some(200int),
        raw.xkb matches Some(x) ==> (x.repeat_rate is None ==> config_repeat_rate(raw) == Some(200int)),
        raw.xkb matches Some(x) ==> (x.repeat_delay is None ==> config_repeat_delay(raw) == Some(50int)),
{
    reveal_strlit("-1");
    reveal_strlit("50");
    reveal_strlit("200");
    crate::numeric::lemma_text_round_trip(-1, i16::MIN as int, i16::MAX as int);
    crate::numeric::lemma_text_round_trip(50, i32::MIN as int, i32::MAX as int);
    crate::numeric::lemma_text_round_trip(200, i32::MIN as int, i32::MAX as int);
    assert(crate::numeric::integer_text(-1) =~= "-1"@);
    reveal_with_fuel(crate::numeric::natural_text, 4);
    assert(crate::numeric::natural_text(5) == seq!['5']);
    assert(crate::numeric::natural_text(2) == seq!['2']);
    assert(crate::numeric::natural_text(20) =~= seq!['2', '0']);
    assert(crate::numeric::integer_text(50) =~= "50"@);
    assert(crate::numeric::integer_text(200) =~= "200"@);
}

/// Which value of a raw configuration does not parse as the number it stands for: the
/// version first, then the keyboard's rate and delay; `Ok` when all do.
pub open spec fn config_check(raw: RawConfig) -> Result<(), ConfigValueError> {
    if raw_version(raw) is None {
        Err(ConfigValueError::InvalidVersion)
    } else if config_repeat_rate(raw) is None {
        Err(ConfigValueError::InvalidRepeatRate)
    } else if config_repeat_delay(raw) is None {
        Err(ConfigValueError::InvalidRepeatDelay)
    } else {
        Ok(())
    }
}

impl Config {
    /// Tells which value of a raw configuration does not parse as the number it stands
    /// for (the version, then the keyboard's rate and delay), which `from_raw` does not
    /// accept.
    pub fn check_raw(raw: &RawConfig) -> (r: Result<(), ConfigValueError>)
        ensures
            r == config_check(*raw),
    {
        let version_ok = match &raw.version {
            Some(v) => parse_i16(v.as_str()).is_some(),
            None => parse_i16("-1").is_some(),
        };
        if !version_ok {
            return Err(ConfigValueError::InvalidVersion);
        }
        match &raw.xkb {
            Some(x) => Xkb::check_raw(x),
            None => {
                if parse_i32("50").is_none() {
                    return Err(ConfigValueError::InvalidRepeatRate);
                }
                if parse_i32("200").is_none() {
                    return Err(ConfigValueError::InvalidRepeatDelay);
                }
                Ok(())
            },
        }
    }

    /// Resolves a raw configuration. The version is parsed as an `i16` ("-1" when
    /// absent); missing environment and binding sections are empty; a missing keyboard
    /// section means layout "us", no variant or options, rate "50" and delay "200".
    /// A version, rate or delay that does not parse is fatal and is not accepted.
    pub fn from_raw(raw: RawConfig) -> (c: Config)
        requires
            config_check(raw) is Ok,
        ensures
            raw_version(raw) == Some(c.version as int),
            match raw.envs {
                Some(e) => c.envs == e,
                None => c.envs.0@.len() == 0,
            },
            match raw.binds {
                Some(b) => c.binds == b,
                None => c.binds.0@.len() == 0,
            },
            c.xkb.layout@ == config_layout(raw),
            c.xkb.variant@ == config_variant(raw),
            c.xkb.options == config_options(raw),
            config_repeat_rate(raw) == Some(c.xkb.repeat_rate as int),
            config_repeat_delay(raw) == Some(c.xkb.repeat_delay as int),
            raw.xkb matches Some(x) ==> {
                &&& c.xkb.layout@ == text_or(x.layout, "us"@)
                &&& c.xkb.variant@ == text_or(x.variant, ""@)
                &&& c.xkb.options == x.options
                &&& xkb::raw_repeat_rate(x) == Some(c.xkb.repeat_rate as int)
                &&& xkb::raw_repeat_delay(x) == Some(c.xkb.repeat_delay as int)
            },
            raw.xkb is None ==> c.xkb.layout@ == "us"@ && c.xkb.variant@ == ""@ && c.xkb.options is None,
    {
        let RawConfig { version, envs, binds, xkb } = raw;
        let version_text = match version {
            Some(v) => v,
            None => String::from_str("-1"),
        };
        let version = match parse_i16(version_text.as_str()) {
            Some(v) => v,
            None => {
                proof {
                    assert(false);
                }
                0
            },
        };
        let envs = match envs {
            Some(e) => e,
            None => Envs(Vec::new()),
        };
        let binds = match binds {
            Some(b) => b,
            None => Binds(Vec::new()),
        };
        let raw_xkb = match xkb {
            Some(x) => x,
            None => RawXkb {
                layout: Some(String::from_str("us")),
                variant: None,
                options: None,
                repeat_rate: Some(String::from_str("50")),
                repeat_delay: Some(String::from_str("200")),
            },
        };
        let xkb = Xkb::from_raw(raw_xkb);
        Config { version, envs, binds, xkb }
    }
}

/// How a configuration's version is treated.
#[derive(Debug, Clone, Copy, PartialEq, Eq, Structural)]
pub enum VersionStatus {
    /// No version was given (-1): the first specification is assumed.
    Unset,
    /// Version 1, the one this compositor implements.
    Supported,
    /// Any other version: the first specification is assumed.
    Unknown,
}

/// How a configuration's version is treated: -1 is unset, 1 supported, any other unknown.
pub fn version_status(version: i16) -> (s: VersionStatus)
    ensures
        s == (if version == -1 {
            VersionStatus::Unset
        } else if version == 1 {
            VersionStatus::Supported
        } else {
            VersionStatus::Unknown
        }),
{
    if version == -1 {
        VersionStatus::Unset
    } else if version == 1 {
        VersionStatus::Supported
    } else {
        VersionStatus::Unknown
    }
}

/// A relative path (one that does not start with `/`) joined onto a base directory: a
/// separator goes between them unless the base is empty or already ends with one. This
/// is what `PathBuf::join` gives for such a path; the candidates below join only the
/// fixed relative paths `yawc/config.kdl` and `.config/yawc/config.kdl`.
pub open spec fn joined_path(base: Seq<char>, relative: Seq<char>) -> Seq<char> {
    if base.len() > 0 && base.last() != '/' {
        base + "/"@ + relative
    } else {
        base + relative
    }
}

/// Joins a relative path onto a base directory (see `joined_path`).
pub fn join_relative(base: &str, relative: &str) -> (p: String)
    ensures
        p@ == joined_path(base@, relative@),
{
    let mut p = String::from_str(base);
    let n = base.unicode_len();
    if n > 0 && base.get_char(n - 1) != '/' {
        p.append("/");
    }
    p.append(relative);
    p
}

/// The places a configuration file is looked for, in order: `$YAWC_CONFIG_PATH` as
/// given, `yawc/config.kdl` under `$XDG_CONFIG_HOME`, `.config/yawc/config.kdl` under
/// `$HOME`, and the system file `/etc/yawc/config.kdl`; a variable that is not set
/// gives no place.
pub open spec fn config_path_candidate_texts(yawc: Option<Seq<char>>, xdg: Option<Seq<char>>, home: Option<Seq<char>>) -> Seq<Seq<char>> {
    (match yawc {
        Some(p) => seq![p],
        None => Seq::empty(),
    }) + (match xdg {
        Some(d) => seq![joined_path(d, "yawc/config.kdl"@)],
        None => Seq::empty(),
    }) + (match home {
        Some(h) => seq![joined_path(h, ".config/yawc/config.kdl"@)],
        None => Seq::empty(),
    }) + seq!["/etc/yawc/config.kdl"@]
}

/// A joined path keeps the base directory in front and the relative path at the end,
/// with exactly one separator between them unless the base is empty or already ends
/// with one.
pub proof fn lemma_joined_path_shape(base: Seq<char>, relative: Seq<char>)
    ensures
        joined_path(base, relative).subrange(0, base.len() as int) == base,
        joined_path(base, relative).subrange(
            joined_path(base, relative).len() - relative.len(),
            joined_path(base, relative).len() as int,
        ) == relative,
        base.len() > 0 ==> joined_path(base, relative)[base.len() + (if base.last() == '/' { -1int } else { 0int })] == '/',
        joined_path(base, relative).len() == base.len() + relative.len() + (if base.len() > 0 && base.last() != '/' {
            1int
        } else {
            0int
        }),
{
    reveal_strlit("/");
    let j = joined_path(base, relative);
    assert(j.subrange(0, base.len() as int) =~= base);
    assert(j.subrange(j.len() - relative.len(), j.len() as int) =~= relative);
}

/// The search order of configuration files: `$YAWC_CONFIG_PATH` first when set, then
/// the file under `$XDG_CONFIG_HOME`, then the one under `$HOME`, and always the system
/// file `/etc/yawc/config.kdl` last; one place per variable that is set.
pub proof fn lemma_config_search_order(yawc: Option<Seq<char>>, xdg: Option<Seq<char>>, home: Option<Seq<char>>)
    ensures
        config_path_candidate_texts(yawc, xdg, home).len() == (if yawc is Some { 1int } else { 0int }) + (if xdg is Some {
            1int
        } else {
            0int
        }) + (if home is Some { 1int } else { 0int }) + 1,
        config_path_candidate_texts(yawc, xdg, home).last() == "/etc/yawc/config.kdl"@,
        yawc matches Some(p) ==> config_path_candidate_texts(yawc, xdg, home)[0] == p,
        xdg matches Some(d) ==> config_path_candidate_texts(yawc, xdg, home)[if yawc is Some { 1int } else { 0int }]
            == joined_path(d, "yawc/config.kdl"@),
        home matches Some(h) ==> config_path_candidate_texts(yawc, xdg, home)[(if yawc is Some { 1int } else { 0int }) + (if xdg
            is Some {
            1int
        } else {
            0int
        })] == joined_path(h, ".config/yawc/config.kdl"@),
{
}

/// The view of an optional string./// The view of an optional string.
pub open spec fn opt_view(s: Option<&str>) -> Option<Seq<char>> {
    match s {
        Some(t) => Some(t@),
        None => None,
    }
}

/// The views of a sequence of strings.
pub open spec fn string_views(v: Seq<String>) -> Seq<Seq<char>> {
    v.map_values(|s: String| s@)
}

/// Lists the places a configuration file is looked for, in order, from the values of
/// `YAWC_CONFIG_PATH`, `XDG_CONFIG_HOME` and `HOME` (see `config_path_candidate_texts`).
pub fn config_path_candidates(yawc: Option<&str>, xdg: Option<&str>, home: Option<&str>) -> (c: Vec<String>)
    ensures
        string_views(c@) == config_path_candidate_texts(opt_view(yawc), opt_view(xdg), opt_view(home)),
{
    let mut c: Vec<String> = Vec::new();
    let ghost mut texts: Seq<Seq<char>> = Seq::empty();
    match yawc {
        Some(p) => {
            c.push(String::from_str(p));
        },
        None => {},
    }
    match xdg {
        Some(d) => {
            c.push(join_relative(d, "yawc/config.kdl"));
        },
        None => {},
    }
    match home {
        Some(h) => {
            c.push(join_relative(h, ".config/yawc/config.kdl"));
        },
        None => {},
    }
    c.push(String::from_str("/etc/yawc/config.kdl"));
    assert(string_views(c@) =~= config_path_candidate_texts(opt_view(yawc), opt_view(xdg), opt_view(home)));
    c
}

/// The first candidate path that exists: `present[i]` tells whether `candidates[i]` does.
/// `None` when none of them exists.
pub fn get_config_path(candidates: Vec<String>, present: &Vec<bool>) -> (p: Option<String>)
    requires
        candidates@.len() == present@.len(),
    ensures
        match p {
            Some(path) => exists|i: int| #![trigger present@[i]]
                0 <= i < candidates@.len() && present@[i] && path == candidates@[i]
                && forall|j: int| 0 <= j < i ==> !present@[j],
            None => forall|j: int| 0 <= j < present@.len() ==> !present@[j],
        },
{
    let ghost original = candidates@;
    let mut pool = candidates;
    let n = present.len();
    let mut i: usize = 0;
    while i < n
        invariant
            n == present@.len(),
            pool@ == original,
            original == candidates@,
            original.len() == n,
            i <= n,
            forall|j: int| 0 <= j < i ==> !present@[j],
        decreases n - i,
    {
        if present[i] {
            let path = pool.swap_remove(i);
            assert(path == original[i as int]);
            return Some(path);
        }
        i = i + 1;
    }
    None
}

/// Why no place for a new configuration file can be chosen.
#[derive(Debug, Clone, Copy, PartialEq, Eq, Structural)]
pub enum MissingConfigError {
    /// `USER` is not set.
    UserNotSet,
    /// Neither `XDG_CONFIG_HOME` nor `HOME` is set.
    NoConfigPath,
}

impl MissingConfigError {
    /// The message reported for the error.
    pub fn message(&self) -> (m: &'static str)
        ensures
            m@ == (match *self {
                MissingConfigError::UserNotSet => "The USER env var was not found."@,
                MissingConfigError::NoConfigPath => "No config path found"@,
            }),
    {
        match self {
            MissingConfigError::UserNotSet => "The USER env var was not found.",
            MissingConfigError::NoConfigPath => "No config path found",
        }
    }
}

/// Where a missing configuration file is created: for root the system file; otherwise
/// `<XDG_CONFIG_HOME>/yawc/config.kdl`, or else `<HOME>/.config/yawc/config.kdl`.
pub open spec fn missing_config_target(user: Option<Seq<char>>, xdg: Option<Seq<char>>, home: Option<Seq<char>>) -> Result<Seq<char>, MissingConfigError> {
    match user {
        None => Err(MissingConfigError::UserNotSet),
        Some(u) => if u == "root"@ {
            Ok("/etc/yawc/config.kdl"@)
        } else {
            match xdg {
                Some(d) => Ok(d + "/yawc/config.kdl"@),
                None => match home {
                    Some(h) => Ok(h + "/.config/yawc/config.kdl"@),
                    None => Err(MissingConfigError::NoConfigPath),
                },
            }
        },
    }
}

/// Where a missing configuration file goes: nowhere without a user; the system file
/// for root, whatever else is set; otherwise a `yawc/config.kdl` under the user's
/// configuration directory (`$XDG_CONFIG_HOME` first, else `$HOME/.config`), and
/// nowhere when neither variable is set.
pub proof fn lemma_missing_config_target(user: Option<Seq<char>>, xdg: Option<Seq<char>>, home: Option<Seq<char>>)
    ensures
        user is None ==> missing_config_target(user, xdg, home) == Err::<Seq<char>, MissingConfigError>(MissingConfigError::UserNotSet),
        user == Some("root"@) ==> missing_config_target(user, xdg, home) == Ok::<Seq<char>, MissingConfigError>("/etc/yawc/config.kdl"@),
        (user matches Some(u) && u != "root"@) ==> {
            &&& xdg matches Some(d) ==> missing_config_target(user, xdg, home) == Ok::<Seq<char>, MissingConfigError>(
                d + "/yawc/config.kdl"@,
            )
            &&& xdg is None ==> (home matches Some(h) ==> missing_config_target(user, xdg, home)
                == Ok::<Seq<char>, MissingConfigError>(h + "/.config/yawc/config.kdl"@))
            &&& (xdg is None && home is None) ==> missing_config_target(user, xdg, home)
                == Err::<Seq<char>, MissingConfigError>(MissingConfigError::NoConfigPath)
        },
        missing_config_target(user, xdg, home) matches Ok(p) ==> p.subrange(p.len() - 16, p.len() as int) == "/yawc/config.kdl"@,
{
    reveal_strlit("/etc/yawc/config.kdl");
    reveal_strlit("/yawc/config.kdl");
    reveal_strlit("/.config/yawc/config.kdl");
    match missing_config_target(user, xdg, home) {
        Ok(p) => {
            let t = "/yawc/config.kdl"@;
            assert(t.len() == 16);
            if user == Some("root"@) {
                assert(p.subrange(p.len() - 16, p.len() as int) =~= t);
            } else if xdg is Some {
                assert(p.subrange(p.len() - 16, p.len() as int) =~= t);
            } else {
                assert(p.subrange(p.len() - 16, p.len() as int) =~= t);
            }
        },
        Err(_) => {},
    }
}

/// Chooses where a missing configuration file is created, from the values of `USER`,
/// `XDG_CONFIG_HOME` and `HOME` (see `missing_config_target`).
pub fn missing_config_path(user: Option<&str>, xdg: Option<&str>, home: Option<&str>) -> (r: Result<String, MissingConfigError>)
    ensures
        match r {
            Ok(p) => missing_config_target(opt_view(user), opt_view(xdg), opt_view(home)) == Ok::<Seq<char>, MissingConfigError>(p@),
            Err(e) => missing_config_target(opt_view(user), opt_view(xdg), opt_view(home)) == Err::<Seq<char>, MissingConfigError>(e),
        },
{
    proof {
        reveal_strlit("root");
    }
    match user {
        None => Err(MissingConfigError::UserNotSet),
        Some(u) => {
            if crate::text::str_eq(u, "root") {
                Ok(String::from_str("/etc/yawc/config.kdl"))
            } else {
                match xdg {
                    Some(d) => {
                        let mut p = String::from_str(d);
                        p.append("/yawc/config.kdl");
                        Ok(p)
                    },
                    None => match home {
                        Some(h) => {
                            let mut p = String::from_str(h);
                            p.append("/.config/yawc/config.kdl");
                            Ok(p)
                        },
                        None => Err(MissingConfigError::NoConfigPath),
                    },
                }
            }
        },
    }
}

} // verus!
