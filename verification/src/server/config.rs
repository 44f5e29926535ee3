//! The settings of the server.
use crate::module::Profile;
use crate::text;
use crate::text::same_text;
use vstd::prelude::*;

verus! {

/// Where the names of a configuration come from.
#[derive(Debug, Clone)]
pub struct SymbolSourceConfig {
    /// `none`, `lite`, `code_index_db` or `code_index_mcp`.
    pub kind: String,
    /// The file of the index.
    pub db_path: Option<String>,
    /// The folder of the dump, from which an index of its own is made.
    pub root: Option<String>,
    /// The address of the service.
    pub url: Option<String>,
    /// The name of the configuration at the service.
    pub repo: Option<String>,
    /// How long to wait for the service, in milliseconds.
    pub timeout_ms: u64,
}

impl Default for SymbolSourceConfig {
    fn default() -> (r: SymbolSourceConfig)
        ensures
            r.kind@ == "none"@,
            r.db_path is None,
            r.root is None,
            r.url is None,
            r.repo is None,
            r.timeout_ms == 5000,
    {
        SymbolSourceConfig {
            kind: "none".to_string(),
            db_path: None,
            root: None,
            url: None,
            repo: None,
            timeout_ms: 5000,
        }
    }
}

/// What is wrong with the settings.
#[derive(Debug, Clone)]
pub enum ConfigError {
    /// The kind of source needs the file of an index.
    NoDbPath(String),
    /// The source is a service, and there is no address.
    NoUrl,
    /// The source is a service, and the configuration has no name there.
    NoRepo,
    /// There is no such kind of source.
    UnknownKind(String),
}

/// The value of a fault.
pub enum ConfigErrorView {
    NoDbPath(Seq<char>),
    NoUrl,
    NoRepo,
    UnknownKind(Seq<char>),
}

impl View for ConfigError {
    type V = ConfigErrorView;

    open spec fn view(&self) -> ConfigErrorView {
        match *self {
            ConfigError::NoDbPath(kind) => ConfigErrorView::NoDbPath(kind@),
            ConfigError::NoUrl => ConfigErrorView::NoUrl,
            ConfigError::NoRepo => ConfigErrorView::NoRepo,
            ConfigError::UnknownKind(kind) => ConfigErrorView::UnknownKind(kind@),
        }
    }
}

/// What is said of a fault.
pub open spec fn error_text(e: ConfigErrorView) -> Seq<char> {
    match e {
        ConfigErrorView::NoDbPath(kind) => "symbol_source.kind = \""@ + kind
            + "\" требует symbol_source.db_path"@,
        ConfigErrorView::NoUrl => "symbol_source.kind = \"code_index_mcp\" требует symbol_source.url"@,
        ConfigErrorView::NoRepo => "symbol_source.kind = \"code_index_mcp\" требует symbol_source.repo"@,
        ConfigErrorView::UnknownKind(kind) => "symbol_source.kind = \""@ + kind
            + "\" неизвестен. Допустимые значения: none, lite, code_index_db, code_index_mcp"@,
    }
}

impl ConfigError {
    /// What is said of the fault.
    pub fn message(&self) -> (r: String)
        ensures
            r@ == error_text(self@),
    {
        match self {
            ConfigError::NoDbPath(kind) => {
                let mut s = "symbol_source.kind = \"".to_string();
                s.append(kind.as_str());
                s.append("\" требует symbol_source.db_path");
                s
            },
            ConfigError::NoUrl => {
                "symbol_source.kind = \"code_index_mcp\" требует symbol_source.url".to_string()
            },
            ConfigError::NoRepo => {
                "symbol_source.kind = \"code_index_mcp\" требует symbol_source.repo".to_string()
            },
            ConfigError::UnknownKind(kind) => {
                let mut s = "symbol_source.kind = \"".to_string();
                s.append(kind.as_str());
                s.append(
                    "\" неизвестен. Допустимые значения: none, lite, code_index_db, code_index_mcp",
                );
                s
            },
        }
    }
}

/// What is wrong with a source: each kind needs its own settings.
pub open spec fn source_fault(c: SymbolSourceConfig) -> Option<ConfigErrorView> {
    if c.kind@ == "none"@ {
        None
    } else if c.kind@ == "lite"@ || c.kind@ == "code_index_db"@ {
        if c.db_path is None {
            Some(ConfigErrorView::NoDbPath(c.kind@))
        } else {
            None
        }
    } else if c.kind@ == "code_index_mcp"@ {
        if c.url is None {
            Some(ConfigErrorView::NoUrl)
        } else if c.repo is None {
            Some(ConfigErrorView::NoRepo)
        } else {
            None
        }
    } else {
        Some(ConfigErrorView::UnknownKind(c.kind@))
    }
}

/// The result says what is wrong.
pub open spec fn says<T>(r: Result<T, ConfigError>, fault: Option<ConfigErrorView>) -> bool {
    match r {
        Ok(_) => fault is None,
        Err(e) => fault == Some(e@),
    }
}

/// What a source is made from.
#[derive(Debug, Clone)]
pub enum SourcePlan {
    /// There is no source.
    Nothing,
    /// The settings lack something that the kind needs, or there is no such kind.
    Broken,
    /// The index is to be made first.
    NotBuilt,
    /// An index in a file of its own.
    Lite { path: String },
    /// An index that another program keeps.
    CodeIndexDb { path: String },
    /// A service.
    CodeIndexMcp { url: String, repo: String, timeout_ms: u64 },
}

/// The value of a plan.
pub enum SourcePlanView {
    Nothing,
    Broken,
    NotBuilt,
    Lite { path: Seq<char> },
    CodeIndexDb { path: Seq<char> },
    CodeIndexMcp { url: Seq<char>, repo: Seq<char>, timeout_ms: u64 },
}

impl View for SourcePlan {
    type V = SourcePlanView;

    open spec fn view(&self) -> SourcePlanView {
        match *self {
            SourcePlan::Nothing => SourcePlanView::Nothing,
            SourcePlan::Broken => SourcePlanView::Broken,
            SourcePlan::NotBuilt => SourcePlanView::NotBuilt,
            SourcePlan::Lite { path } => SourcePlanView::Lite { path: path@ },
            SourcePlan::CodeIndexDb { path } => SourcePlanView::CodeIndexDb { path: path@ },
            SourcePlan::CodeIndexMcp { url, repo, timeout_ms } => SourcePlanView::CodeIndexMcp {
                url: url@,
                repo: repo@,
                timeout_ms,
            },
        }
    }
}

/// What a source is made from, where it is known whether the file of its index exists.
pub open spec fn plan_of(c: SymbolSourceConfig, db_exists: bool) -> SourcePlanView {
    if c.kind@ == "none"@ {
        SourcePlanView::Nothing
    } else if source_fault(c) is Some {
        SourcePlanView::Broken
    } else if c.kind@ == "lite"@ {
        if db_exists {
            SourcePlanView::Lite { path: c.db_path->0@ }
        } else {
            SourcePlanView::NotBuilt
        }
    } else if c.kind@ == "code_index_db"@ {
        SourcePlanView::CodeIndexDb { path: c.db_path->0@ }
    } else {
        SourcePlanView::CodeIndexMcp {
            url: c.url->0@,
            repo: c.repo->0@,
            timeout_ms: c.timeout_ms,
        }
    }
}

impl SymbolSourceConfig {
    /// Whether the settings hold what the kind of the source needs.
    pub fn validate(&self) -> (r: Result<(), ConfigError>)
        ensures
            says(r, source_fault(*self)),
    {
        let kind = self.kind.as_str();
        if same_text(kind, "none") {
            return Ok(());
        }
        if same_text(kind, "lite") || same_text(kind, "code_index_db") {
            if self.db_path.is_none() {
                return Err(ConfigError::NoDbPath(kind.to_string()));
            }
            return Ok(());
        }
        if same_text(kind, "code_index_mcp") {
            if self.url.is_none() {
                return Err(ConfigError::NoUrl);
            }
            if self.repo.is_none() {
                return Err(ConfigError::NoRepo);
            }
            return Ok(());
        }
        Err(ConfigError::UnknownKind(kind.to_string()))
    }

    /// What the source is made from; `db_exists` says whether the file of the index exists.
    pub fn plan(&self, db_exists: bool) -> (r: SourcePlan)
        ensures
            r@ == plan_of(*self, db_exists),
    {
        let kind = self.kind.as_str();
        if same_text(kind, "none") {
            return SourcePlan::Nothing;
        }
        if let Err(_) = self.validate() {
            return SourcePlan::Broken;
        }
        match (&self.db_path, &self.url, &self.repo) {
            (Some(path), _, _) if same_text(kind, "lite") => if db_exists {
                SourcePlan::Lite { path: path.as_str().to_string() }
            } else {
                SourcePlan::NotBuilt
            },
            (Some(path), _, _) if same_text(kind, "code_index_db") => {
                SourcePlan::CodeIndexDb { path: path.as_str().to_string() }
            },
            (_, Some(url), Some(repo)) => SourcePlan::CodeIndexMcp {
                url: url.as_str().to_string(),
                repo: repo.as_str().to_string(),
                timeout_ms: self.timeout_ms,
            },
            _ => SourcePlan::Broken,
        }
    }
}

/// Which tools the server offers.
#[derive(Debug, Clone)]
pub struct ToolsConfig {
    /// The names of the tools; an empty list means all of them.
    pub enabled: Vec<String>,
}

impl Default for ToolsConfig {
    fn default() -> (r: ToolsConfig)
        ensures
            r.enabled@.len() == 0,
    {
        ToolsConfig { enabled: Vec::new() }
    }
}

/// The settings of the server.
#[derive(Debug, Clone)]
pub struct Config {
    pub host: String,
    pub port: u16,
    /// The folder of the platform.
    pub platform_path: Option<String>,
    pub log_dir: String,
    pub log_level: String,
    /// The level at which modules are checked where a request names none.
    pub default_validation_level: u8,
    /// The profile for which modules are checked where a request names none.
    pub default_profile: Profile,
    /// The names under which the server may be asked.
    pub allowed_hosts: Vec<String>,
    pub symbol_source: SymbolSourceConfig,
    pub tools: ToolsConfig,
}

impl Default for Config {
    fn default() -> (r: Config)
        ensures
            r.host@ == "127.0.0.1"@,
            r.port == 8007,
            r.platform_path is None,
            r.log_dir@ == "C:\\bsl-context-rs\\logs"@,
            r.log_level@ == "info"@,
            r.default_validation_level == 1,
            r.default_profile == Profile::Full,
            text::texts(r.allowed_hosts@) == seq!["localhost"@, "127.0.0.1"@, "::1"@],
            r.symbol_source.kind@ == "none"@,
            r.symbol_source.db_path is None,
            r.symbol_source.root is None,
            r.symbol_source.url is None,
            r.symbol_source.repo is None,
            r.symbol_source.timeout_ms == 5000,
            r.tools.enabled@.len() == 0,
    {
        let allowed_hosts: Vec<String> = vec![
            "localhost".to_string(),
            "127.0.0.1".to_string(),
            "::1".to_string(),
        ];
        assert(text::texts(allowed_hosts@) =~= seq!["localhost"@, "127.0.0.1"@, "::1"@]);
        Config {
            host: "127.0.0.1".to_string(),
            port: 8007,
            platform_path: None,
            log_dir: "C:\\bsl-context-rs\\logs".to_string(),
            log_level: "info".to_string(),
            default_validation_level: 1,
            default_profile: Profile::Full,
            allowed_hosts,
            symbol_source: SymbolSourceConfig::default(),
            tools: ToolsConfig::default(),
        }
    }
}

/// A level within the levels that there are.
pub open spec fn level_in_range(level: u8) -> u8 {
    if level < 1 {
        1
    } else if level > 3 {
        3
    } else {
        level
    }
}

/// A level within the levels that there are.
pub fn clamp_level(level: u8) -> (r: u8)
    ensures
        r == level_in_range(level),
        1 <= r <= 3,
{
    if level < 1 {
        1
    } else if level > 3 {
        3
    } else {
        level
    }
}

impl Config {
    /// The settings as they were read, made usable: the level is brought within the levels that
    /// there are, and everything else stays. Settings of a source that lack something are refused.
    pub fn checked(self) -> (r: Result<Config, ConfigError>)
        ensures
            says(r, source_fault(self.symbol_source)),
            r matches Ok(c) ==> c == (Config {
                default_validation_level: level_in_range(self.default_validation_level),
                ..self
            }),
    {
        let mut c = self;
        c.default_validation_level = clamp_level(c.default_validation_level);
        match c.symbol_source.validate() {
            Ok(_) => Ok(c),
            Err(e) => Err(e),
        }
    }
}

/// Settings that are usable stay as they are.
pub proof fn law_checked_settings_stay(c: Config)
    requires
        1 <= c.default_validation_level <= 3,
    ensures
        level_in_range(c.default_validation_level) == c.default_validation_level,
        forall|level: u8| level_in_range(#[trigger] level_in_range(level)) == level_in_range(level),
{
}

/// A source is made exactly where the settings name one, lack nothing, and its index is there: of
/// the kinds only the index of its own has to be made first.
pub proof fn law_source_is_made(c: SymbolSourceConfig, db_exists: bool)
    ensures
        (plan_of(c, db_exists) is Lite || plan_of(c, db_exists) is CodeIndexDb || plan_of(
            c,
            db_exists,
        ) is CodeIndexMcp) <==> (c.kind@ != "none"@ && source_fault(c) is None && (c.kind@
            == "lite"@ ==> db_exists)),
{
}

/// Settings of a source are in order exactly where what its kind needs is there: the file of an
/// index, or the address of a service and a name at it. No source at all needs nothing, and a kind
/// that is none of these is never in order.
pub proof fn law_source_needs_what_its_kind_needs(c: SymbolSourceConfig)
    ensures
        c.kind@ == "none"@ ==> source_fault(c) is None,
        source_fault(c) is None ==> c.kind@ == "none"@ || ((c.kind@ == "lite"@ || c.kind@ == "code_index_db"@)
            && c.db_path is Some) || (c.kind@ == "code_index_mcp"@ && c.url is Some && c.repo is Some),
        (c.kind@ == "lite"@ || c.kind@ == "code_index_db"@) && c.db_path is Some ==> source_fault(c) is None,
        c.kind@ == "code_index_mcp"@ && c.url is Some && c.repo is Some ==> source_fault(c) is None,
        c.kind@ == "code_index_mcp"@ && c.url is None ==> source_fault(c) == Some(ConfigErrorView::NoUrl),
        c.kind@ == "code_index_mcp"@ && c.url is Some && c.repo is None ==> source_fault(c) == Some(
            ConfigErrorView::NoRepo,
        ),
        (c.kind@ == "lite"@ || c.kind@ == "code_index_db"@) && c.db_path is None ==> source_fault(c) == Some(
            ConfigErrorView::NoDbPath(c.kind@),
        ),
        c.kind@ != "none"@ && c.kind@ != "lite"@ && c.kind@ != "code_index_db"@ && c.kind@ != "code_index_mcp"@
            ==> source_fault(c) == Some(ConfigErrorView::UnknownKind(c.kind@)),
        source_fault(c) matches Some(ConfigErrorView::NoDbPath(kind)) ==> kind == c.kind@ && c.db_path is None,
        source_fault(c) matches Some(ConfigErrorView::UnknownKind(kind)) ==> kind == c.kind@,
        source_fault(c) == Some(ConfigErrorView::NoUrl) ==> c.url is None,
        source_fault(c) == Some(ConfigErrorView::NoRepo) ==> c.url is Some && c.repo is None,
{
    reveal_strlit("none");
    reveal_strlit("lite");
    reveal_strlit("code_index_db");
    reveal_strlit("code_index_mcp");
    assert("none"@[0] == 'n' && "lite"@[0] == 'l');
    assert("code_index_db"@.len() == 13 && "code_index_mcp"@.len() == 14 && "none"@.len() == 4);
}

/// A source is made of its own settings: an index of its file, a service of its address, its name
/// and its time limit. An index of this program that was not built yet is told apart from settings
/// that are out of order.
pub proof fn law_source_is_made_of_its_settings(c: SymbolSourceConfig, db_exists: bool)
    ensures
        plan_of(c, db_exists) matches SourcePlanView::Lite { path } ==> c.kind@ == "lite"@ && db_exists
            && c.db_path is Some && path == c.db_path->0@,
        plan_of(c, db_exists) matches SourcePlanView::CodeIndexDb { path } ==> c.kind@ == "code_index_db"@
            && c.db_path is Some && path == c.db_path->0@,
        plan_of(c, db_exists) matches SourcePlanView::CodeIndexMcp { url, repo, timeout_ms } ==> c.kind@
            == "code_index_mcp"@ && c.url is Some && c.repo is Some && url == c.url->0@ && repo == c.repo->0@
            && timeout_ms == c.timeout_ms,
        plan_of(c, db_exists) is NotBuilt ==> c.kind@ == "lite"@ && !db_exists && c.db_path is Some,
        plan_of(c, db_exists) is Broken <==> c.kind@ != "none"@ && source_fault(c) is Some,
        plan_of(c, db_exists) is Nothing <==> c.kind@ == "none"@,
{
}

/// A level is brought into the range from one to three by the shortest way: one within stays, one
/// below becomes the least and one above the greatest, so that the order of levels is kept.
pub proof fn law_level_is_brought_into_range(level: u8, higher: u8)
    requires
        level <= higher,
    ensures
        1 <= level_in_range(level) <= 3,
        1 <= level <= 3 ==> level_in_range(level) == level,
        level_in_range(level) <= level_in_range(higher),
{
}

} // verus!
