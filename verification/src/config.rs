//! Global configuration shared by every scraper.
use vstd::prelude::*;
use crate::str_map::StrMap;
use crate::text::push_str_chars;

verus! {

#[verifier::external_type_specification]
#[verifier::external_body]
pub struct ExTomlValue(toml::Value);

/// Global configuration (normally loaded from `fijit.toml`).
pub struct Config {
    /// Path to the Obscura binary. Defaults to `/tmp/obscura`.
    pub obscura_path: Option<String>,
    /// Global Slack webhook URL. Supports `${ENV_VAR}` interpolation.
    pub slack_webhook: Option<String>,
    /// Global template variables available in all scraper message templates.
    pub vars: StrMap,
    /// Per-scraper overrides keyed by scraper name.
    pub scrapers: Vec<(String, ScraperConfig)>,
}

/// Per-scraper overrides that can appear under `[scrapers.<name>]`.
pub struct ScraperConfig {
    /// Cron expression, e.g. `"*/30 * * * *"`.
    pub schedule: Option<String>,
    /// Scraper-specific overrides (e.g. target URL), kept as read.
    pub extra: Vec<(String, toml::Value)>,
}

impl Config {
    /// The configuration used when no file is found: nothing set, no vars,
    /// no per-scraper overrides.
    pub fn empty() -> (r: Config)
        ensures
            r.obscura_path is None,
            r.slack_webhook is None,
            r.vars@ == Map::<Seq<char>, Seq<char>>::empty(),
            r.scrapers@.len() == 0,
    {
        Config { obscura_path: None, slack_webhook: None, vars: StrMap::new(), scrapers: Vec::new() }
    }

    /// The Obscura binary path, defaulting to `/tmp/obscura`.
    pub fn obscura(&self) -> (r: &str)
        ensures
            r@ == (match self.obscura_path {
                Some(p) => p@,
                None => "/tmp/obscura"@,
            }),
    {
        match &self.obscura_path {
            Some(p) => p.as_str(),
            None => "/tmp/obscura",
        }
    }
}

/// A path with one more component: `base` and `part` with a `/` between
/// them, unless `base` is empty or already ends in `/`.
pub open spec fn path_join(base: Seq<char>, part: Seq<char>) -> Seq<char> {
    if base.len() == 0 || base.last() == '/' {
        base + part
    } else {
        base + "/"@ + part
    }
}

/// Appends one path component to `base`, as `PathBuf::join` does for a
/// relative component.
pub fn join_path(base: &str, part: &str) -> (r: String)
    ensures
        r@ == path_join(base@, part@),
{
    let mut out = String::new();
    push_str_chars(&mut out, base);
    let chars = crate::text::chars_of(base);
    if chars.len() > 0 && chars[chars.len() - 1] != '/' {
        out.push('/');
    }
    push_str_chars(&mut out, part);
    proof {
        reveal_strlit("/");
        if base@.len() != 0 && base@.last() != '/' {
            assert(out@ =~= base@ + "/"@ + part@);
        } else {
            assert(out@ =~= base@ + part@);
        }
    }
    out
}

/// The directory of the global configuration of `app`: `<home>/.config/<app>`,
/// or the relative `.config/<app>` when no home directory is known.
pub open spec fn config_dir_spec(home: Option<Seq<char>>, app: Seq<char>) -> Seq<char> {
    match home {
        Some(h) => path_join(path_join(h, ".config"@), app),
        None => ".config/"@ + app,
    }
}

/// The global configuration directory of `app`, given the value of `HOME`.
pub fn config_dir(home: Option<&str>, app: &str) -> (r: String)
    ensures
        r@ == config_dir_spec(
            match home {
                Some(h) => Some(h@),
                None => None,
            },
            app@,
        ),
{
    match home {
        Some(h) => {
            let dot = join_path(h, ".config");
            join_path(dot.as_str(), app)
        },
        None => {
            let mut out = String::new();
            push_str_chars(&mut out, ".config/");
            push_str_chars(&mut out, app);
            out
        },
    }
}

/// Which configuration file is read: the local one when it exists, else the
/// global one when it exists, else none, with the message that says where
/// to create one.
pub open spec fn located_config(
    local: Seq<char>,
    local_exists: bool,
    global: Seq<char>,
    global_exists: bool,
) -> Result<Seq<char>, Seq<char>> {
    if local_exists {
        Ok(local)
    } else if global_exists {
        Ok(global)
    } else {
        Err("no config found — create ./"@ + local + " or "@ + global)
    }
}

/// Chooses the configuration file from what exists on disk: `./<local>`
/// first, then the global path.
pub fn locate_config(local: &str, local_exists: bool, global: &str, global_exists: bool) -> (r:
    Result<String, String>)
    ensures
        (match r {
            Ok(p) => Ok(p@),
            Err(m) => Err(m@),
        }) == located_config(local@, local_exists, global@, global_exists),
{
    if local_exists {
        Ok(crate::text::owned(local))
    } else if global_exists {
        Ok(crate::text::owned(global))
    } else {
        let mut m = String::new();
        push_str_chars(&mut m, "no config found — create ./");
        push_str_chars(&mut m, local);
        push_str_chars(&mut m, " or ");
        push_str_chars(&mut m, global);
        Err(m)
    }
}

} // verus!
