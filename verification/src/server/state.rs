//! The state of the server, and what it does with a request.
use super::config;
use super::config::{clamp_level, SymbolSourceConfig};
use super::params::ValidateModuleParams;
use super::slots;
use super::slots::{Slots, SourceSlot};
use crate::context_names;
use crate::facts::ParsedModule;
use crate::findings;
use crate::findings::{Confidence, ExprError, ExprErrorKind, FindingView};
use crate::module;
use crate::module::{keep_reliable, validate_module_with_symbols, ExpressionValidation, ModuleContext, Profile};
use crate::platform::PlatformIndex;
use crate::symbols;
use crate::symbols::{NoSymbols, SymbolSource};
use crate::text;
use crate::text::{copy_texts, holds_text, same_text, to_lower};
use vstd::prelude::*;

verus! {

/// What the server knows and how it was set up.
#[derive(Debug)]
pub struct BslContextServer {
    pub index: PlatformIndex,
    pub default_validation_level: u8,
    pub default_profile: Profile,
    /// The configurations whose names can be asked for.
    pub sources: Slots,
    /// The tools that are offered; `None` where all are.
    pub allowed_tools: Option<Vec<String>>,
}

/// The names of the tools that are offered, where not all are.
pub open spec fn opt_tools(o: Option<Vec<String>>) -> Option<Seq<Seq<char>>> {
    match o {
        Some(v) => Some(text::texts(v@)),
        None => None,
    }
}

/// A tool is offered: it is on the list, or there is no list.
pub open spec fn offers(allowed: Option<Seq<Seq<char>>>, name: Seq<char>) -> bool {
    match allowed {
        Some(names) => names.contains(name),
        None => true,
    }
}

/// Why a request for a configuration is refused.
pub open spec fn no_sources_text() -> Seq<char> {
    "на сервере не настроено ни одной конфигурации: ни выгрузки, ни источника имён (секция [[symbol_sources]] в config.toml)"@
}

/// Why a request for an unknown configuration is refused.
pub open spec fn unknown_repo_text(name: Seq<char>, names: Seq<Seq<char>>) -> Seq<char> {
    "конфигурация \""@ + name + "\" не настроена; доступны: "@ + text::joined(names, ", "@)
}

/// Why a request that names no configuration is refused.
pub open spec fn no_repo_text(names: Seq<Seq<char>>) -> Seq<char> {
    "параметр repo обязателен; доступные конфигурации: "@ + text::joined(names, ", "@)
}

/// The configuration that a request is about, or why it is refused. The name is always needed,
/// even where there is one configuration only.
pub open spec fn slot_of(names: Seq<Seq<char>>, repo: Option<Seq<char>>) -> Result<int, Seq<char>> {
    if names.len() == 0 {
        Err(no_sources_text())
    } else {
        match repo {
            Some(name) => match slots::name_at(names, name, 0) {
                Some(i) => Ok(i),
                None => Err(unknown_repo_text(name, names)),
            },
            None => Err(no_repo_text(names)),
        }
    }
}

/// The value of a choice of a configuration.
pub open spec fn opt_slot(r: Result<usize, String>) -> Result<int, Seq<char>> {
    match r {
        Ok(i) => Ok(i as int),
        Err(e) => Err(e@),
    }
}

/// What a module is checked against.
#[derive(Debug, Clone)]
pub enum Target {
    /// The request is refused, for a reason.
    Refused(String),
    /// The platform only.
    Platform,
    /// The platform and the names of the configuration at a position.
    Configuration(usize),
}

/// The value of what a module is checked against.
pub enum TargetView {
    Refused(Seq<char>),
    Platform,
    Configuration(int),
}

impl View for Target {
    type V = TargetView;

    open spec fn view(&self) -> TargetView {
        match *self {
            Target::Refused(e) => TargetView::Refused(e@),
            Target::Platform => TargetView::Platform,
            Target::Configuration(i) => TargetView::Configuration(i as int),
        }
    }
}

/// How a module is checked.
#[derive(Debug, Clone)]
pub struct ValidationPlan {
    pub level: u8,
    pub profile: Profile,
    pub target: Target,
}

/// What a module is checked against: without configurations, and where none is asked for, the
/// platform only.
pub open spec fn target_of(names: Seq<Seq<char>>, repo: Option<Seq<char>>) -> TargetView {
    if names.len() == 0 && repo is None {
        TargetView::Platform
    } else {
        match slot_of(names, repo) {
            Ok(i) => TargetView::Configuration(i),
            Err(e) => TargetView::Refused(e),
        }
    }
}

/// The names of a configuration, as far as they are at hand.
pub enum Names<'a, S: SymbolSource> {
    /// They are not asked for.
    NotAsked,
    /// They are at hand.
    Known(&'a S),
    /// They are not at hand, for a reason.
    Missing(String),
}

/// What is answered to a request to check a module.
#[derive(Debug, Clone)]
pub struct ModuleReply {
    pub validation: ExpressionValidation,
    /// The names that were asked for were at hand.
    pub symbols_available: bool,
    /// Why they were not.
    pub degraded_reason: Option<String>,
}

/// A finding that rests on names of the configuration, where they are not at hand: that a method
/// exists nowhere cannot be said for sure.
pub open spec fn doubted(f: FindingView) -> FindingView {
    if f.kind == ExprErrorKind::UndeclaredMethod {
        FindingView { confidence: Confidence::Low, ..f }
    } else {
        f
    }
}

/// The findings, where the names of the configuration are not at hand.
pub open spec fn all_doubted(s: Seq<FindingView>) -> Seq<FindingView> {
    s.map_values(|f: FindingView| doubted(f))
}

/// All findings of a module at the level that a profile checks at.
pub open spec fn findings_with(
    index: PlatformIndex,
    m: ParsedModule,
    level: u8,
    profile: Profile,
    path: Option<Seq<char>>,
    attributes: Option<Seq<Seq<char>>>,
    answers: Option<symbols::Answers>,
) -> Seq<FindingView> {
    module::ordered(
        module::module_findings(
            index,
            m,
            module::level_for(profile, level),
            ModuleContext {
                path,
                attributes,
                answers,
                owner_exports: module::exports_of_owner(path, answers),
            },
        ),
    )
}

/// The reply holds the findings with the names of a configuration, or without them: then they
/// are doubted, and the reply says why.
pub open spec fn replies<S: SymbolSource>(
    r: ModuleReply,
    index: PlatformIndex,
    m: ParsedModule,
    level: u8,
    profile: Profile,
    path: Option<Seq<char>>,
    attributes: Option<Seq<Seq<char>>>,
    names: Names<S>,
) -> bool {
    match names {
        Names::NotAsked => module::reports(
            r.validation,
            module::for_profile(
                profile,
                findings_with(index, m, level, profile, path, attributes, None),
            ),
        ) && r.symbols_available && r.degraded_reason is None,
        Names::Known(s) => module::reports(
            r.validation,
            module::for_profile(
                profile,
                findings_with(index, m, level, profile, path, attributes, Some(s.knows())),
            ),
        ) && r.symbols_available && r.degraded_reason is None,
        Names::Missing(reason) => module::reports(
            r.validation,
            module::for_profile(
                profile,
                all_doubted(findings_with(index, m, level, profile, path, attributes, None)),
            ),
        ) && !r.symbols_available && text::opt_text(r.degraded_reason) == Some(reason@),
    }
}

fn doubt_findings(errors: &mut Vec<ExprError>)
    ensures
        findings::finding_views(final(errors)@) == all_doubted(findings::finding_views(old(errors)@)),
{
    let ghost before = findings::finding_views(errors@);
    let count = errors.len();
    for i in 0..count
        invariant
            errors.len() == count,
            before.len() == count,
            before == findings::finding_views(old(errors)@),
            forall|k: int| 0 <= k < i ==> (#[trigger] errors[k])@ == doubted(before[k]),
            forall|k: int| i <= k < count ==> (#[trigger] errors[k])@ == before[k],
    {
        assert(errors[i as int]@ == before[i as int]);
        if errors[i].kind == ExprErrorKind::UndeclaredMethod {
            let mut e = errors.remove(i);
            e.confidence = Confidence::Low;
            assert(e@ =~= doubted(before[i as int]));
            errors.insert(i, e);
        }
    }
    assert(findings::finding_views(errors@) =~= all_doubted(before));
}

/// Why the names of a configuration are not at hand.
pub open spec fn missing_text(kind: Seq<char>, repo: Seq<char>, last_error: Option<Seq<char>>) -> Seq<
    char,
> {
    match last_error {
        Some(e) => "источник имён конфигурации \""@ + repo + "\" не подключён: "@ + e,
        None => if kind == "lite"@ {
            "индекс имён конфигурации \""@ + repo
                + "\" не собран — вызовите rebuild_symbol_index с repo=\""@ + repo + "\""@
        } else {
            "источник имён конфигурации \""@ + repo
                + "\" не подключён — смотрите ошибку в журнале сервера"@
        },
    }
}

/// Why the names of a configuration are not at hand.
pub fn missing_reason(slot: &SourceSlot, repo: &str) -> (r: String)
    ensures
        r@ == missing_text(slot.config.kind@, repo@, text::opt_text(slot.last_error)),
{
    let mut s;
    match &slot.last_error {
        Some(e) => {
            s = "источник имён конфигурации \"".to_string();
            s.append(repo);
            s.append("\" не подключён: ");
            s.append(e.as_str());
        },
        None => {
            if same_text(slot.config.kind.as_str(), "lite") {
                s = "индекс имён конфигурации \"".to_string();
                s.append(repo);
                s.append("\" не собран — вызовите rebuild_symbol_index с repo=\"");
                s.append(repo);
                s.append("\"");
            } else {
                s = "источник имён конфигурации \"".to_string();
                s.append(repo);
                s.append("\" не подключён — смотрите ошибку в журнале сервера");
            }
        },
    }
    s
}

/// Names in lower case.
pub open spec fn lower_names(names: Seq<Seq<char>>) -> Seq<Seq<char>> {
    names.map_values(|n: Seq<char>| text::lowercase(n))
}

/// The names of the attributes of the form that a request gives, in lower case.
pub fn form_attributes(p: &ValidateModuleParams) -> (r: Option<Vec<String>>)
    ensures
        symbols::opt_texts(r) == match p.form_attributes {
            Some(names) => Some(lower_names(text::texts(names@))),
            None => None,
        },
{
    match &p.form_attributes {
        None => None,
        Some(names) => {
            let ghost all = text::texts(names@);
            let mut out: Vec<String> = Vec::new();
            for i in 0..names.len()
                invariant
                    all == text::texts(names@),
                    out.len() == i,
                    forall|k: int| 0 <= k < i ==> (#[trigger] out[k])@ == text::lowercase(all[k]),
            {
                assert(all[i as int] == names[i as int]@);
                out.push(to_lower(names[i].as_str()));
            }
            assert(text::texts(out@) =~= lower_names(all));
            Some(out)
        },
    }
}

/// Why a module is not checked where the source of the names does not work.
pub open spec fn unavailable_text(repo: Seq<char>, source: Seq<char>) -> Seq<char> {
    "источник имён конфигурации \""@ + repo + "\" недоступен: "@ + source
        + ". Проверьте code-index."@
}

/// Why a module is not checked where the source of the names does not work; `source` says what
/// the source is.
pub fn unavailable_reason(repo: &str, source: &str) -> (r: String)
    ensures
        r@ == unavailable_text(repo@, source@),
{
    let mut s = "источник имён конфигурации \"".to_string();
    s.append(repo);
    s.append("\" недоступен: ");
    s.append(source);
    s.append(". Проверьте code-index.");
    s
}

/// What is handed out where a module is checked with the names of a configuration: the reply, or
/// a refusal where the source did not work before the check, or has stopped working behind it.
/// Some of its answers may then be empty ones, and the reply would not be complete. `before` and
/// `behind` say what the source is, where it does not work.
pub fn settle(
    repo: &str,
    before: Option<&str>,
    reply: ModuleReply,
    behind: Option<&str>,
) -> (r: Result<ModuleReply, String>)
    ensures
        match (before, behind) {
            (Some(source), _) => r matches Err(e) && e@ == unavailable_text(repo@, source@),
            (None, Some(source)) => r matches Err(e) && e@ == unavailable_text(repo@, source@),
            (None, None) => r == Ok::<ModuleReply, String>(reply),
        },
{
    match (before, behind) {
        (Some(source), _) => Err(unavailable_reason(repo, source)),
        (None, Some(source)) => Err(unavailable_reason(repo, source)),
        (None, None) => Ok(reply),
    }
}

/// How it stands with the source of the names of a configuration.
#[derive(Debug, Clone, Copy, PartialEq, Eq, Structural)]
pub enum SourceState {
    /// There is none.
    Absent,
    /// There is one, and it does not work.
    Broken,
    /// There is one, and it works.
    Works,
}

/// What to do next in order to get the names of a configuration.
#[derive(Debug, Clone, Copy, PartialEq, Eq, Structural)]
pub enum SourceStep {
    /// Check the module with the names.
    Use,
    /// Try to connect.
    Connect,
    /// Check the module without the names, and say so.
    GoWithout,
    /// Refuse to check the module.
    Refuse,
}

/// What to do next: a source that works is used, otherwise there is one attempt to connect. If
/// that is of no use, a module is checked without names where there is no source, and not at all
/// where there is one that does not work.
pub open spec fn step_of(source: SourceState, tried: bool) -> SourceStep {
    match source {
        SourceState::Works => SourceStep::Use,
        SourceState::Absent => if tried {
            SourceStep::GoWithout
        } else {
            SourceStep::Connect
        },
        SourceState::Broken => if tried {
            SourceStep::Refuse
        } else {
            SourceStep::Connect
        },
    }
}

/// What to do next in order to get the names of a configuration; `tried` says whether there was
/// an attempt to connect.
pub fn next_step(source: SourceState, tried: bool) -> (r: SourceStep)
    ensures
        r == step_of(source, tried),
{
    match source {
        SourceState::Works => SourceStep::Use,
        SourceState::Absent => if tried {
            SourceStep::GoWithout
        } else {
            SourceStep::Connect
        },
        SourceState::Broken => if tried {
            SourceStep::Refuse
        } else {
            SourceStep::Connect
        },
    }
}

/// How a configuration stands with its names.
#[derive(Debug, Clone)]
pub struct SourceStatus {
    pub repo: String,
    pub kind: String,
    pub connected: bool,
    /// `connected` or `not_connected`.
    pub state: String,
    pub last_error: Option<String>,
}

/// The status says how a configuration stands.
pub open spec fn tells(s: SourceStatus, repo: Seq<char>, slot: SourceSlot) -> bool {
    &&& s.repo@ == repo
    &&& s.kind@ == slot.config.kind@
    &&& s.connected == slot.connected
    &&& s.state@ == if slot.connected {
        "connected"@
    } else {
        "not_connected"@
    }
    &&& text::opt_text(s.last_error) == text::opt_text(slot.last_error)
}

impl BslContextServer {
    /// A server that checks at the first level and gives all findings.
    pub fn new(index: PlatformIndex) -> (r: BslContextServer)
        ensures
            r.index == index,
            r.default_validation_level == 1,
            r.default_profile == Profile::Full,
            r.sources.names().len() == 0,
            r.allowed_tools is None,
    {
        BslContextServer::with_defaults(index, 1, Profile::Full)
    }

    /// A server that checks at a level and gives all findings.
    pub fn with_default_level(index: PlatformIndex, default_validation_level: u8) -> (r:
        BslContextServer)
        ensures
            r.index == index,
            r.default_validation_level == config::level_in_range(default_validation_level),
            r.default_profile == Profile::Full,
            r.sources.names().len() == 0,
            r.allowed_tools is None,
    {
        BslContextServer::with_defaults(index, default_validation_level, Profile::Full)
    }

    /// A server that checks at a level and for a profile, where a request does not name them.
    pub fn with_defaults(
        index: PlatformIndex,
        default_validation_level: u8,
        default_profile: Profile,
    ) -> (r: BslContextServer)
        ensures
            r.index == index,
            r.default_validation_level == config::level_in_range(default_validation_level),
            r.default_profile == default_profile,
            r.sources.names().len() == 0,
            r.allowed_tools is None,
    {
        BslContextServer {
            index,
            default_validation_level: clamp_level(default_validation_level),
            default_profile,
            sources: Slots::new(),
            allowed_tools: None,
        }
    }

    /// The server with configurations: their names, their settings, and whether their names are
    /// at hand. The last one of two with the same name counts.
    pub fn with_sources(
        self,
        given: Vec<(String, SymbolSourceConfig, Result<bool, String>)>,
    ) -> (r: BslContextServer)
        ensures
            r.index == self.index,
            r.default_validation_level == self.default_validation_level,
            r.default_profile == self.default_profile,
            r.allowed_tools == self.allowed_tools,
            slots::in_order(r.sources.names()),
            forall|x: Seq<char>| #[trigger]
                r.sources.names().contains(x) <==> exists|i: int|
                    0 <= i < given.len() && (#[trigger] given@[i]).0@ == x,
            forall|j: int|
                0 <= j < r.sources.view().len() ==> last_given(
                    given@,
                    given.len() as int,
                    (#[trigger] r.sources.view()[j]).0,
                    r.sources.view()[j].1,
                ),
    {
        let ghost all = given@;
        let mut sources = Slots::new();
        let mut rest = given;
        let ghost mut done: int = 0;
        assert(sources.names() =~= Seq::<Seq<char>>::empty());
        assert(rest@ =~= all.subrange(0, all.len() as int));
        while rest.len() > 0
            invariant
                0 <= done <= all.len(),
                rest@ == all.subrange(done, all.len() as int),
                slots::in_order(sources.names()),
                forall|j: int|
                    0 <= j < sources.view().len() ==> last_given(
                        all,
                        done,
                        (#[trigger] sources.view()[j]).0,
                        sources.view()[j].1,
                    ),
                forall|x: Seq<char>| #[trigger]
                    sources.names().contains(x) <==> exists|i: int|
                        0 <= i < done && (#[trigger] all[i]).0@ == x,
            decreases rest.len(),
        {
            let ghost before = sources.names();
            let ghost shown = sources.view();
            let (name, settings, opened) = rest.remove(0);
            assert(rest@ =~= all.subrange(done + 1, all.len() as int));
            let ghost key = name@;
            assert(all[done].0@ == key);
            let slot = SourceSlot::new(settings, opened);
            let ghost pair = (key, slot);
            sources.set(name, slot);
            proof {
                lemma_set_names(shown, sources.view(), pair);
                lemma_set_last(all, done, shown, sources.view(), pair);
                assert(before =~= slot_names(shown));
                assert(sources.names() =~= slot_names(sources.view()));
                assert forall|x: Seq<char>| #[trigger] sources.names().contains(x) <==> exists|
                    i: int,
                |
                    0 <= i < done + 1 && (#[trigger] all[i]).0@ == x by {
                    assert(sources.names().contains(x) <==> before.contains(x) || x == key);
                    if before.contains(x) {
                        let i = choose|i: int| 0 <= i < done && (#[trigger] all[i]).0@ == x;
                        assert(all[i].0@ == x);
                    }
                    if exists|i: int| 0 <= i < done + 1 && (#[trigger] all[i]).0@ == x {
                        let i = choose|i: int| 0 <= i < done + 1 && (#[trigger] all[i]).0@ == x;
                        if i < done {
                            assert(all[i].0@ == x);
                        }
                    }
                }
                done = done + 1;
            }
        }
        BslContextServer { sources, ..self }
    }

    /// The server with a list of the tools that it offers. An empty list means all of them.
    pub fn apply_tools_whitelist(self, enabled: &Vec<String>) -> (r: BslContextServer)
        ensures
            r.index == self.index,
            r.default_validation_level == self.default_validation_level,
            r.default_profile == self.default_profile,
            r.sources == self.sources,
            opt_tools(r.allowed_tools) == if enabled.len() == 0 {
                opt_tools(self.allowed_tools)
            } else {
                Some(text::texts(enabled@))
            },
    {
        if enabled.len() == 0 {
            return self;
        }
        BslContextServer { allowed_tools: Some(copy_texts(enabled)), ..self }
    }

    /// Whether a tool is offered.
    pub fn is_tool_allowed(&self, name: &str) -> (r: bool)
        ensures
            r == offers(opt_tools(self.allowed_tools), name@),
    {
        match &self.allowed_tools {
            Some(allowed) => holds_text(allowed, name),
            None => true,
        }
    }

    /// The configuration that a request is about, or why the request is refused.
    pub fn resolve_slot(&self, repo: Option<&str>) -> (r: Result<usize, String>)
        ensures
            opt_slot(r) == slot_of(self.sources.names(), text::opt_str(repo)),
            r matches Ok(i) ==> i < self.sources.names().len(),
    {
        if self.sources.len() == 0 {
            return Err(
                "на сервере не настроено ни одной конфигурации: ни выгрузки, ни источника имён (секция [[symbol_sources]] в config.toml)".to_string(),
            );
        }
        match repo {
            Some(name) => match self.sources.find(name) {
                Some(i) => Ok(i),
                None => {
                    let mut s = "конфигурация \"".to_string();
                    s.append(name);
                    s.append("\" не настроена; доступны: ");
                    s.append(self.sources.listed().as_str());
                    Err(s)
                },
            },
            None => {
                let mut s = "параметр repo обязателен; доступные конфигурации: ".to_string();
                s.append(self.sources.listed().as_str());
                Err(s)
            },
        }
    }

    /// How a module is to be checked.
    pub fn plan_validation(&self, p: &ValidateModuleParams) -> (r: ValidationPlan)
        ensures
            r.level == config::level_in_range(
                match p.level {
                    Some(level) => level,
                    None => self.default_validation_level,
                },
            ),
            r.profile == match p.profile {
                Some(s) => module::profile_of(Some(s@)),
                None => self.default_profile,
            },
            r.target@ == target_of(self.sources.names(), text::opt_text(p.repo)),
            r.target matches Target::Configuration(i) ==> i < self.sources.names().len(),
    {
        let level = match p.level {
            Some(level) => level,
            None => self.default_validation_level,
        };
        let profile = match &p.profile {
            Some(s) => Profile::parse_or_default(Some(s.as_str())),
            None => self.default_profile,
        };
        let repo = match &p.repo {
            Some(s) => Some(s.as_str()),
            None => None,
        };
        let target = if self.sources.len() == 0 && repo.is_none() {
            Target::Platform
        } else {
            match self.resolve_slot(repo) {
                Ok(i) => Target::Configuration(i),
                Err(e) => Target::Refused(e),
            }
        };
        ValidationPlan { level: clamp_level(level), profile, target }
    }

    /// Checks a module, with the names of a configuration as far as they are at hand. Where they
    /// are not, everything that does not rest on them is still found.
    pub fn check_module<S: SymbolSource>(
        &self,
        module: &ParsedModule,
        level: u8,
        profile: Profile,
        path: Option<&str>,
        form_attributes: Option<&Vec<String>>,
        names: Names<S>,
    ) -> (r: ModuleReply)
        requires
            module::fits(*module),
        ensures
            replies(
                r,
                self.index,
                *module,
                level,
                profile,
                text::opt_str(path),
                context_names::opt_names(form_attributes),
                names,
            ),
    {
        match names {
            Names::NotAsked => ModuleReply {
                validation: validate_module_with_symbols(
                    &self.index,
                    module,
                    level,
                    profile,
                    path,
                    form_attributes,
                    None::<&NoSymbols>,
                ),
                symbols_available: true,
                degraded_reason: None,
            },
            Names::Known(s) => ModuleReply {
                validation: validate_module_with_symbols(
                    &self.index,
                    module,
                    level,
                    profile,
                    path,
                    form_attributes,
                    Some(s),
                ),
                symbols_available: true,
                degraded_reason: None,
            },
            Names::Missing(reason) => {
                let effective = match profile {
                    Profile::Strict => 1,
                    Profile::Full => level,
                };
                let found = validate_module_with_symbols(
                    &self.index,
                    module,
                    effective,
                    Profile::Full,
                    path,
                    form_attributes,
                    None::<&NoSymbols>,
                );
                let mut errors = found.errors;
                doubt_findings(&mut errors);
                if let Profile::Strict = profile {
                    errors = keep_reliable(errors);
                }
                ModuleReply {
                    validation: ExpressionValidation { valid: errors.len() == 0, errors },
                    symbols_available: false,
                    degraded_reason: Some(reason),
                }
            },
        }
    }

    /// Answers a request to check a module, with the names of the configuration `repo` as far as
    /// they are at hand. The source is asked whether it works before the check and again behind
    /// it; where it does not, the request is refused.
    pub fn validate_module<S: SymbolSource>(
        &self,
        module: &ParsedModule,
        level: u8,
        profile: Profile,
        path: Option<&str>,
        form_attributes: Option<&Vec<String>>,
        repo: &str,
        names: Names<S>,
    ) -> (r: Result<ModuleReply, String>)
        requires
            module::fits(*module),
        ensures
            r matches Ok(reply) ==> replies(
                reply,
                self.index,
                *module,
                level,
                profile,
                text::opt_str(path),
                context_names::opt_names(form_attributes),
                names,
            ),
            r matches Err(e) ==> names is Known && exists|source: Seq<char>|
                e@ == #[trigger] unavailable_text(repo@, source),
    {
        match names {
            Names::Known(s) => {
                if !s.is_healthy() {
                    return Err(unavailable_reason(repo, s.describe().as_str()));
                }
                let reply = self.check_module(
                    module,
                    level,
                    profile,
                    path,
                    form_attributes,
                    Names::Known(s),
                );
                if s.is_healthy() {
                    settle(repo, None, reply, None)
                } else {
                    settle(repo, None, reply, Some(s.describe().as_str()))
                }
            },
            other => Ok(self.check_module(module, level, profile, path, form_attributes, other)),
        }
    }

    /// How a configuration stands with its names.
    pub fn source_status(&self, i: usize) -> (r: SourceStatus)
        requires
            i < self.sources.view().len(),
        ensures
            tells(r, self.sources.view()[i as int].0, self.sources.view()[i as int].1),
    {
        let slot = self.sources.get(i);
        SourceStatus {
            repo: self.sources.alias(i).to_string(),
            kind: slot.config.kind.as_str().to_string(),
            connected: slot.connected,
            state: if slot.connected {
                "connected".to_string()
            } else {
                "not_connected".to_string()
            },
            last_error: text::copy_opt(&slot.last_error),
        }
    }

    /// How all configurations stand with their names, in the order of the configurations.
    pub fn symbol_sources_status(&self) -> (r: Vec<SourceStatus>)
        ensures
            r.len() == self.sources.view().len(),
            forall|i: int|
                0 <= i < r.len() ==> tells(
                    #[trigger] r[i],
                    self.sources.view()[i].0,
                    self.sources.view()[i].1,
                ),
    {
        let mut out: Vec<SourceStatus> = Vec::new();
        let count = self.sources.len();
        for i in 0..count
            invariant
                count == self.sources.view().len(),
                out.len() == i,
                forall|k: int|
                    0 <= k < i ==> tells(
                        #[trigger] out[k],
                        self.sources.view()[k].0,
                        self.sources.view()[k].1,
                    ),
        {
            out.push(self.source_status(i));
        }
        out
    }
}

/// The names in a list of configurations.
pub open spec fn slot_names(v: Seq<(Seq<char>, SourceSlot)>) -> Seq<Seq<char>> {
    v.map_values(|s: (Seq<char>, SourceSlot)| s.0)
}

proof fn lemma_set_names(
    before: Seq<(Seq<char>, SourceSlot)>,
    after: Seq<(Seq<char>, SourceSlot)>,
    pair: (Seq<char>, SourceSlot),
)
    requires
        match slots::name_at(slot_names(before), pair.0, 0) {
            Some(i) => after == before.update(i, pair),
            None => exists|i: int|
                0 <= i <= before.len() && after == #[trigger] before.insert(i, pair),
        },
    ensures
        forall|x: Seq<char>| #[trigger]
            slot_names(after).contains(x) <==> slot_names(before).contains(x) || x == pair.0,
{
    let old_names = slot_names(before);
    let new_names = slot_names(after);
    slots::lemma_name_at(old_names, pair.0, 0);
    match slots::name_at(old_names, pair.0, 0) {
        Some(i) => {
            assert(new_names =~= old_names);
        },
        None => {
            let i = choose|i: int|
                0 <= i <= before.len() && after == #[trigger] before.insert(i, pair);
            assert(new_names =~= old_names.insert(i, pair.0));
            assert forall|x: Seq<char>| #[trigger]
                new_names.contains(x) <==> old_names.contains(x) || x == pair.0 by {
                if old_names.contains(x) {
                    let k = choose|k: int| 0 <= k < old_names.len() && old_names[k] == x;
                    let j = if k < i {
                        k
                    } else {
                        k + 1
                    };
                    assert(new_names[j] == x);
                }
                if x == pair.0 {
                    assert(new_names[i] == x);
                }
                if new_names.contains(x) && x != pair.0 {
                    let k = choose|k: int| 0 <= k < new_names.len() && new_names[k] == x;
                    let j = if k < i {
                        k
                    } else {
                        k - 1
                    };
                    assert(old_names[j] == x);
                }
            }
        },
    }
}

/// The configuration is made from the last one with its name among the first `n` given ones.
pub open spec fn last_given(
    given: Seq<(String, SymbolSourceConfig, Result<bool, String>)>,
    n: int,
    name: Seq<char>,
    slot: SourceSlot,
) -> bool {
    exists|i: int|
        0 <= i < n && (#[trigger] given[i]).0@ == name && slots::made_from(
            slot,
            given[i].1,
            given[i].2,
        ) && forall|k: int| i < k < n ==> (#[trigger] given[k]).0@ != name
}

proof fn lemma_still_last(
    given: Seq<(String, SymbolSourceConfig, Result<bool, String>)>,
    n: int,
    name: Seq<char>,
    slot: SourceSlot,
)
    requires
        0 <= n < given.len(),
        last_given(given, n, name, slot),
        given[n].0@ != name,
    ensures
        last_given(given, n + 1, name, slot),
{
    let i = choose|i: int|
        0 <= i < n && (#[trigger] given[i]).0@ == name && slots::made_from(
            slot,
            given[i].1,
            given[i].2,
        ) && forall|k: int| i < k < n ==> (#[trigger] given[k]).0@ != name;
    assert(given[i].0@ == name);
}

proof fn lemma_set_last(
    given: Seq<(String, SymbolSourceConfig, Result<bool, String>)>,
    n: int,
    before: Seq<(Seq<char>, SourceSlot)>,
    after: Seq<(Seq<char>, SourceSlot)>,
    pair: (Seq<char>, SourceSlot),
)
    requires
        0 <= n < given.len(),
        given[n].0@ == pair.0,
        slots::made_from(pair.1, given[n].1, given[n].2),
        slots::in_order(slot_names(before)),
        forall|j: int|
            0 <= j < before.len() ==> last_given(given, n, (#[trigger] before[j]).0, before[j].1),
        match slots::name_at(slot_names(before), pair.0, 0) {
            Some(i) => after == before.update(i, pair),
            None => exists|i: int|
                0 <= i <= before.len() && after == #[trigger] before.insert(i, pair),
        },
    ensures
        forall|j: int|
            0 <= j < after.len() ==> last_given(given, n + 1, (#[trigger] after[j]).0, after[j].1),
{
    let names = slot_names(before);
    slots::lemma_name_at(names, pair.0, 0);
    assert(last_given(given, n + 1, pair.0, pair.1)) by {
        assert(given[n].0@ == pair.0);
    }
    assert forall|j: int| 0 <= j < after.len() implies last_given(
        given,
        n + 1,
        (#[trigger] after[j]).0,
        after[j].1,
    ) by {
        match slots::name_at(names, pair.0, 0) {
            Some(i) => {
                if j != i {
                    slots::law_order_is_strict(names[i], names[j]);
                    if j < i {
                        assert(slots::stands_first(names[j], names[i]));
                    } else {
                        assert(slots::stands_first(names[i], names[j]));
                    }
                    assert(names[j] == before[j].0 && names[i] == before[i].0);
                    lemma_still_last(given, n, before[j].0, before[j].1);
                }
            },
            None => {
                let i = choose|i: int|
                    0 <= i <= before.len() && after == #[trigger] before.insert(i, pair);
                if j != i {
                    let k = if j < i {
                        j
                    } else {
                        j - 1
                    };
                    assert(after[j] == before[k]);
                    assert(names[k] == before[k].0);
                    lemma_still_last(given, n, before[k].0, before[k].1);
                }
            },
        }
    }
}

/// Without the names of the configuration no finding says for sure that a method is declared
/// nowhere.
pub proof fn law_without_names_nothing_is_undeclared_for_sure(s: Seq<FindingView>, i: int)
    requires
        0 <= i < s.len(),
    ensures
        !(all_doubted(s)[i].kind == ExprErrorKind::UndeclaredMethod && all_doubted(s)[i].confidence
            == Confidence::High),
{
}

/// Without the names of the configuration no finding is lost: each one stays at its place, with
/// its kind and its message.
pub proof fn law_without_names_no_finding_is_lost(s: Seq<FindingView>, i: int)
    requires
        0 <= i < s.len(),
    ensures
        all_doubted(s).len() == s.len(),
        all_doubted(s)[i].line == s[i].line,
        all_doubted(s)[i].col == s[i].col,
        all_doubted(s)[i].kind == s[i].kind,
        all_doubted(s)[i].message == s[i].message,
{
}

/// A request names its configuration: where there is any, a request without a name is refused,
/// and so is one with a name that no configuration has.
pub proof fn law_repo_is_needed(names: Seq<Seq<char>>, repo: Option<Seq<char>>)
    ensures
        slot_of(names, repo) is Ok <==> (repo is Some && names.contains(repo->0)),
        target_of(names, repo) is Platform <==> (names.len() == 0 && repo is None),
{
    if repo is Some {
        slots::lemma_name_at(names, repo->0, 0);
    }
}

/// It is settled what to do with a module after one attempt to connect at most.
pub proof fn law_one_attempt_is_enough(source: SourceState)
    ensures
        step_of(source, true) != SourceStep::Connect,
        step_of(source, false) == SourceStep::Connect || step_of(source, false) == SourceStep::Use,
{
}

/// A source that does not work is never passed over: a module is checked without names only where
/// there is no source, and with names only where the source works.
pub proof fn law_broken_source_is_refused(source: SourceState, tried: bool)
    ensures
        step_of(source, tried) == SourceStep::GoWithout <==> source == SourceState::Absent && tried,
        step_of(source, tried) == SourceStep::Refuse <==> source == SourceState::Broken && tried,
        step_of(source, tried) == SourceStep::Use <==> source == SourceState::Works,
{
}

/// The slot of a configuration is the one that bears its name, in the very letters; it is the one
/// that a request is answered from.
pub proof fn law_slot_bears_the_name(names: Seq<Seq<char>>, repo: Seq<char>)
    ensures
        slot_of(names, Some(repo)) matches Ok(i) ==> 0 <= i < names.len() && names[i] == repo,
        target_of(names, Some(repo)) matches TargetView::Configuration(i) ==> 0 <= i < names.len() && names[i]
            == repo,
        names.contains(repo) ==> target_of(names, Some(repo)) is Configuration,
        !names.contains(repo) ==> target_of(names, Some(repo)) is Refused,
        names.len() > 0 ==> target_of(names, None) is Refused,
{
    slots::lemma_name_at(names, repo, 0);
}

/// A server that lists its tools offers those of the list and no others; one that does not offers
/// all.
pub proof fn law_listed_tools_are_offered(allowed: Seq<Seq<char>>, name: Seq<char>)
    ensures
        offers(Some(allowed), name) <==> exists|i: int| 0 <= i < allowed.len() && #[trigger] allowed[i] == name,
        offers(None, name),
{
}

/// Names are brought into lower case one by one, each in its place.
pub proof fn law_names_are_lowered_one_by_one(names: Seq<Seq<char>>, i: int)
    requires
        0 <= i < names.len(),
    ensures
        lower_names(names).len() == names.len(),
        lower_names(names)[i] == text::lowercase(names[i]),
{
}

/// Without names only what is undeclared is doubted: every other finding is told as surely as
/// before, and what is suggested stays.
pub proof fn law_only_undeclared_names_are_doubted(s: Seq<FindingView>, i: int)
    requires
        0 <= i < s.len(),
    ensures
        s[i].kind != ExprErrorKind::UndeclaredMethod ==> all_doubted(s)[i] == s[i],
        s[i].kind == ExprErrorKind::UndeclaredMethod ==> all_doubted(s)[i].confidence == Confidence::Low,
        all_doubted(s)[i].suggestion == s[i].suggestion,
{
}

} // verus!
