//! Application settings and the locations of the files the viewer keeps.

use vstd::prelude::*;

use crate::text::chars_of;

verus! {

/// Auto-pronunciation language choice.
#[derive(Debug, Clone, Copy, PartialEq, Eq, Structural)]
pub enum AutoPronLanguage {
    Off,
    GB,
    US,
}

impl Default for AutoPronLanguage {
    fn default() -> (r: Self)
        ensures
            r == AutoPronLanguage::Off,
    {
        AutoPronLanguage::Off
    }
}

/// All persisted application settings.
#[derive(Debug, Clone)]
pub struct Config {
    /// Path to the LDOCE5 data directory.
    pub data_dir: Option<String>,
    /// Auto-pronunciation language.
    pub auto_pron: AutoPronLanguage,
    /// Monitor clipboard and auto-search when it changes.
    pub monitor_clipboard: bool,
    /// Index directory (built from data_dir).
    pub index_dir: Option<String>,
    /// Last search query (restored on start).
    pub last_query: String,
    /// Terminal width saved for session restore.
    pub terminal_width: u16,
    /// Terminal height saved for session restore.
    pub terminal_height: u16,
    /// Whether to wrap long lines in the content pane.
    pub content_wrap: bool,
}

/// The settings of a first start.
pub open spec fn is_default_config(c: Config) -> bool {
    &&& c.data_dir is None
    &&& c.auto_pron == AutoPronLanguage::Off
    &&& !c.monitor_clipboard
    &&& c.index_dir is None
    &&& c.last_query@ == Seq::<char>::empty()
    &&& c.terminal_width == 120
    &&& c.terminal_height == 40
    &&& c.content_wrap
}

impl Default for Config {
    fn default() -> (r: Self)
        ensures
            is_default_config(r),
    {
        Config {
            data_dir: None,
            auto_pron: AutoPronLanguage::Off,
            monitor_clipboard: false,
            index_dir: None,
            last_query: String::new(),
            terminal_width: 120,
            terminal_height: 40,
            content_wrap: true,
        }
    }
}

/// `base` joined with the relative name `name`, with one `/` between them.
pub open spec fn join_path(base: Seq<char>, name: Seq<char>) -> Seq<char> {
    if base.len() == 0 || base.last() == '/' {
        base + name
    } else {
        base + "/"@ + name
    }
}

/// Joins the relative name `name` to `base`.
pub fn path_join(base: &str, name: &str) -> (r: String)
    ensures
        r@ == join_path(base@, name@),
{
    let b = chars_of(base);
    let mut r = String::from_str(base);
    if b.len() == 0 || b[b.len() - 1] == '/' {
        r.append(name);
    } else {
        r.append("/");
        r.append(name);
    }
    r
}

/// The places searched for the data directory, in order: `ldoce5.data`
/// in the working directory `cwd`, in the home directory `home` and in its
/// `Downloads` folder, then the system-wide places.
pub open spec fn spec_data_dir_candidates(cwd: Option<Seq<char>>, home: Option<Seq<char>>) -> Seq<Seq<char>> {
    let here = match cwd {
        Some(c) => seq![join_path(c, "ldoce5.data"@)],
        None => Seq::empty(),
    };
    let home_dirs = match home {
        Some(h) => seq![join_path(h, "ldoce5.data"@), join_path(join_path(h, "Downloads"@), "ldoce5.data"@)],
        None => Seq::empty(),
    };
    here + home_dirs + seq![
        "/usr/share/ldoce5/ldoce5.data"@,
        "/usr/local/share/ldoce5/ldoce5.data"@,
        "/opt/Longman/ldoce5/ldoce5.data"@,
    ]
}

/// The places searched for the data directory, as
/// [`spec_data_dir_candidates`] says.
pub fn data_dir_candidates(cwd: Option<&str>, home: Option<&str>) -> (r: Vec<String>)
    ensures
        r@.map_values(|s: String| s@) == spec_data_dir_candidates(
            match cwd {
                Some(c) => Some(c@),
                None => None,
            },
            match home {
                Some(h) => Some(h@),
                None => None,
            },
        ),
{
    let mut r: Vec<String> = Vec::new();
    match cwd {
        Some(c) => r.push(path_join(c, "ldoce5.data")),
        None => {},
    }
    match home {
        Some(h) => {
            r.push(path_join(h, "ldoce5.data"));
            let d = path_join(h, "Downloads");
            r.push(path_join(d.as_str(), "ldoce5.data"));
        },
        None => {},
    }
    r.push(String::from_str("/usr/share/ldoce5/ldoce5.data"));
    r.push(String::from_str("/usr/local/share/ldoce5/ldoce5.data"));
    r.push(String::from_str("/opt/Longman/ldoce5/ldoce5.data"));
    assert(r@.map_values(|s: String| s@) =~= spec_data_dir_candidates(
        match cwd {
            Some(c) => Some(c@),
            None => None,
        },
        match home {
            Some(h) => Some(h@),
            None => None,
        },
    ));
    r
}

/// The directory of this application under the platform directory `base`,
/// or under the current directory when the platform has none.
pub open spec fn app_dir(base: Option<Seq<char>>) -> Seq<char> {
    join_path(
        match base {
            Some(b) => b,
            None => "."@,
        },
        "ldoce5viewer-tui"@,
    )
}

/// `dirs::config_dir`: the platform's configuration directory, if it has
/// one. It depends on the environment; nothing is stated of it.
#[verifier::external_body]
fn platform_config_dir() -> (r: Option<String>) {
    match dirs::config_dir() {
        Some(p) => Some(p.to_string_lossy().into_owned()),
        None => None,
    }
}

/// `dirs::data_dir`: the platform's data directory, if it has one. It
/// depends on the environment; nothing is stated of it.
#[verifier::external_body]
fn platform_data_dir() -> (r: Option<String>) {
    match dirs::data_dir() {
        Some(p) => Some(p.to_string_lossy().into_owned()),
        None => None,
    }
}

/// The directory of this application under `base`, or under `.`.
fn app_dir_under(base: Option<String>) -> (r: String)
    ensures
        r@ == app_dir(
            match base {
                Some(b) => Some(b@),
                None => None,
            },
        ),
{
    match base {
        Some(b) => path_join(b.as_str(), "ldoce5viewer-tui"),
        None => path_join(".", "ldoce5viewer-tui"),
    }
}

/// The application config directory.
pub fn config_dir() -> (r: String)
    ensures
        exists|base: Option<Seq<char>>| r@ == app_dir(base),
{
    let base = platform_config_dir();
    let ghost b = match &base {
        Some(s) => Some(s@),
        None => None,
    };
    let r = app_dir_under(base);
    assert(r@ == app_dir(b));
    r
}

/// The application data directory (indices, etc.).
pub fn data_dir() -> (r: String)
    ensures
        exists|base: Option<Seq<char>>| r@ == app_dir(base),
{
    let base = platform_data_dir();
    let ghost b = match &base {
        Some(s) => Some(s@),
        None => None,
    };
    let r = app_dir_under(base);
    assert(r@ == app_dir(b));
    r
}

/// Path to the config JSON file.
pub fn config_file_path() -> (r: String)
    ensures
        exists|base: Option<Seq<char>>| r@ == join_path(app_dir(base), "config.json"@),
{
    let d = config_dir();
    path_join(d.as_str(), "config.json")
}

/// Path to the incremental index file.
pub fn incremental_index_path() -> (r: String)
    ensures
        exists|base: Option<Seq<char>>| r@ == join_path(app_dir(base), "incremental.db"@),
{
    let d = data_dir();
    path_join(d.as_str(), "incremental.db")
}

/// Path to the full-text index of headwords and phrases.
pub fn fulltext_hwdphr_dir() -> (r: String)
    ensures
        exists|base: Option<Seq<char>>| r@ == join_path(app_dir(base), "fulltext_hp"@),
{
    let d = data_dir();
    path_join(d.as_str(), "fulltext_hp")
}

/// Path to the full-text index of definitions and examples.
pub fn fulltext_defexa_dir() -> (r: String)
    ensures
        exists|base: Option<Seq<char>>| r@ == join_path(app_dir(base), "fulltext_de"@),
{
    let d = data_dir();
    path_join(d.as_str(), "fulltext_de")
}

/// Path to the filemap CDB.
pub fn filemap_path() -> (r: String)
    ensures
        exists|base: Option<Seq<char>>| r@ == join_path(app_dir(base), "filemap.cdb"@),
{
    let d = data_dir();
    path_join(d.as_str(), "filemap.cdb")
}

/// Path to the word-variations CDB.
pub fn variations_path() -> (r: String)
    ensures
        exists|base: Option<Seq<char>>| r@ == join_path(app_dir(base), "variations.cdb"@),
{
    let d = data_dir();
    path_join(d.as_str(), "variations.cdb")
}

} // verus!
