//! The configuration: its parts and their defaults, the checks and the
//! derivations after loading, overrides, and the overlay of an agent profile.

use vstd::prelude::*;

use crate::agents::{dir_of, profile_dir, AgentProfile, MAIN};
use crate::models::{lookup, model_named};
use crate::text::{after_prefix, clone_list, join_path, path_join, str_eq, strip_prefix, strs};
use crate::types::opt_view;

verus! {

/// The configuration.
#[derive(Debug, Clone)]
pub struct Config {
    /// The file it was loaded from.
    pub source_path: Option<String>,
    pub model: ModelConfig,
    pub agent: AgentConfig,
    pub context: ContextConfig,
    pub sandbox: SandboxConfig,
    pub session: SessionConfig,
    pub mcp: McpConfig,
}

/// Which model answers. The provider is `openai_compat` or `anthropic`.
#[derive(Debug, Clone)]
pub struct ModelConfig {
    pub provider: String,
    pub openai_compat: OpenAiCompatConfig,
    pub anthropic: AnthropicConfig,
    /// Named models to choose from.
    pub profiles: Vec<ModelProfile>,
    /// The chosen profile; empty for none.
    pub active_profile: String,
}

/// A named model.
#[derive(Debug, Clone)]
pub struct ModelProfile {
    pub name: String,
    pub model: String,
}

#[derive(Debug, Clone)]
pub struct OpenAiCompatConfig {
    pub base_url: String,
    pub api_key: String,
    pub model: String,
}

#[derive(Debug, Clone)]
pub struct AnthropicConfig {
    pub base_url: String,
    pub api_key: String,
    pub model: String,
}

/// How the agent runs. Zero tokens stand for the model's own window.
#[derive(Debug, Clone)]
pub struct AgentConfig {
    pub max_turns: usize,
    pub max_total_tokens: usize,
    pub work_dir: String,
    /// Replaces the personality and project layers of the system prompt.
    pub system_prompt: String,
    /// The directory of the agent profile that speaks.
    pub persona_dir: Option<String>,
}

/// How the conversation is kept.
#[derive(Debug, Clone)]
pub struct ContextConfig {
    pub l2_summary_model: String,
    pub l3_enabled: bool,
    /// `hash` or `api`.
    pub l3_embedding: String,
    pub embedding: EmbeddingConfig,
}

/// The embedding service.
#[derive(Debug, Clone)]
pub struct EmbeddingConfig {
    pub base_url: String,
    pub api_key: String,
    pub model: String,
}

/// Limits of the commands that the agent runs.
#[derive(Debug, Clone)]
pub struct SandboxConfig {
    /// `off`, `container` or `strict`.
    pub level: String,
    pub bash_timeout_secs: u64,
    pub max_processes: usize,
    pub max_memory_mb: usize,
    pub cpu_time_secs: u32,
    pub max_file_size_mb: u32,
    pub cgroup: bool,
    pub cgroup_memory_mb: u32,
    pub bash_restrict_workdir: bool,
}

/// Where sessions are kept.
#[derive(Debug, Clone)]
pub struct SessionConfig {
    pub dir: String,
}

/// Outside tool servers.
#[derive(Debug, Clone)]
pub struct McpConfig {
    pub servers: Vec<McpServerConfig>,
}

/// One outside tool server.
#[derive(Debug, Clone)]
pub struct McpServerConfig {
    pub name: String,
    pub command: String,
    pub args: Vec<String>,
}

// ---------- defaults ----------

pub fn default_provider() -> (r: String)
    ensures
        r@ == "openai_compat"@,
{
    "openai_compat".to_string()
}

pub fn default_openai_base_url() -> (r: String)
    ensures
        r@ == "https://api.openai.com/v1"@,
{
    "https://api.openai.com/v1".to_string()
}

pub fn default_openai_model() -> (r: String)
    ensures
        r@ == "gpt-4o"@,
{
    "gpt-4o".to_string()
}

pub fn default_anthropic_base_url() -> (r: String)
    ensures
        r@ == "https://api.anthropic.com"@,
{
    "https://api.anthropic.com".to_string()
}

pub fn default_anthropic_model() -> (r: String)
    ensures
        r@.len() == 0,
{
    String::new()
}

pub fn default_max_turns() -> (r: usize)
    ensures
        r == 50,
{
    50
}

pub fn default_max_total_tokens() -> (r: usize)
    ensures
        r == 0,
{
    0
}

pub fn default_work_dir() -> (r: String)
    ensures
        r@ == "."@,
{
    ".".to_string()
}

pub fn default_l2_summary_model() -> (r: String)
    ensures
        r@ == "gpt-4o-mini"@,
{
    "gpt-4o-mini".to_string()
}

pub fn default_l3_embedding() -> (r: String)
    ensures
        r@ == "hash"@,
{
    "hash".to_string()
}

pub fn default_sandbox_level() -> (r: String)
    ensures
        r@ == "container"@,
{
    "container".to_string()
}

pub fn default_bash_timeout() -> (r: u64)
    ensures
        r == 30,
{
    30
}

/// Zero: no limit. A limit counts all threads of the user, not only the
/// agent's.
pub fn default_max_processes() -> (r: usize)
    ensures
        r == 0,
{
    0
}

pub fn default_max_memory_mb() -> (r: usize)
    ensures
        r == 512,
{
    512
}

pub fn default_cpu_time_secs() -> (r: u32)
    ensures
        r == 60,
{
    60
}

pub fn default_max_file_size_mb() -> (r: u32)
    ensures
        r == 100,
{
    100
}

pub fn default_cgroup() -> (r: bool)
    ensures
        r,
{
    true
}

pub fn default_session_dir() -> (r: String)
    ensures
        r@ == "~/.r2/sessions"@,
{
    "~/.r2/sessions".to_string()
}

impl Default for OpenAiCompatConfig {
    fn default() -> (r: Self)
        ensures
            r.base_url@ == "https://api.openai.com/v1"@,
            r.api_key@.len() == 0,
            r.model@ == "gpt-4o"@,
    {
        OpenAiCompatConfig {
            base_url: default_openai_base_url(),
            api_key: String::new(),
            model: default_openai_model(),
        }
    }
}

impl Default for AnthropicConfig {
    fn default() -> (r: Self)
        ensures
            r.base_url@ == "https://api.anthropic.com"@,
            r.api_key@.len() == 0,
            r.model@.len() == 0,
    {
        AnthropicConfig {
            base_url: default_anthropic_base_url(),
            api_key: String::new(),
            model: default_anthropic_model(),
        }
    }
}

impl Default for ModelConfig {
    fn default() -> (r: Self)
        ensures
            r.provider@ == "openai_compat"@,
            r.openai_compat.base_url@ == "https://api.openai.com/v1"@,
            r.openai_compat.api_key@.len() == 0,
            r.openai_compat.model@ == "gpt-4o"@,
            r.anthropic.base_url@ == "https://api.anthropic.com"@,
            r.anthropic.api_key@.len() == 0,
            r.anthropic.model@.len() == 0,
            r.profiles@.len() == 0,
            r.active_profile@.len() == 0,
    {
        ModelConfig {
            provider: default_provider(),
            openai_compat: OpenAiCompatConfig::default(),
            anthropic: AnthropicConfig::default(),
            profiles: Vec::new(),
            active_profile: String::new(),
        }
    }
}

impl Default for AgentConfig {
    fn default() -> (r: Self)
        ensures
            r.max_turns == 50,
            r.max_total_tokens == 0,
            r.work_dir@ == "."@,
            r.system_prompt@.len() == 0,
            r.persona_dir is None,
    {
        AgentConfig {
            max_turns: default_max_turns(),
            max_total_tokens: default_max_total_tokens(),
            work_dir: default_work_dir(),
            system_prompt: String::new(),
            persona_dir: None,
        }
    }
}

impl Default for EmbeddingConfig {
    fn default() -> (r: Self)
        ensures
            r.base_url@.len() == 0,
            r.api_key@.len() == 0,
            r.model@.len() == 0,
    {
        EmbeddingConfig { base_url: String::new(), api_key: String::new(), model: String::new() }
    }
}

impl Default for ContextConfig {
    fn default() -> (r: Self)
        ensures
            r.l2_summary_model@ == "gpt-4o-mini"@,
            !r.l3_enabled,
            r.l3_embedding@ == "hash"@,
            r.embedding.base_url@.len() == 0,
            r.embedding.api_key@.len() == 0,
            r.embedding.model@.len() == 0,
    {
        ContextConfig {
            l2_summary_model: default_l2_summary_model(),
            l3_enabled: false,
            l3_embedding: default_l3_embedding(),
            embedding: EmbeddingConfig::default(),
        }
    }
}

impl Default for SandboxConfig {
    fn default() -> (r: Self)
        ensures
            r.level@ == "container"@,
            r.bash_timeout_secs == 30,
            r.max_processes == 0,
            r.max_memory_mb == 512,
            r.cpu_time_secs == 60,
            r.max_file_size_mb == 100,
            r.cgroup,
            r.cgroup_memory_mb == 0,
            !r.bash_restrict_workdir,
    {
        SandboxConfig {
            level: default_sandbox_level(),
            bash_timeout_secs: default_bash_timeout(),
            max_processes: default_max_processes(),
            max_memory_mb: default_max_memory_mb(),
            cpu_time_secs: default_cpu_time_secs(),
            max_file_size_mb: default_max_file_size_mb(),
            cgroup: default_cgroup(),
            cgroup_memory_mb: 0,
            bash_restrict_workdir: false,
        }
    }
}

impl Default for SessionConfig {
    fn default() -> (r: Self)
        ensures
            r.dir@ == "~/.r2/sessions"@,
    {
        SessionConfig { dir: default_session_dir() }
    }
}

impl Default for McpConfig {
    fn default() -> (r: Self)
        ensures
            r.servers@.len() == 0,
    {
        McpConfig { servers: Vec::new() }
    }
}

/// The configuration that holds where nothing is set.
pub open spec fn is_default(c: Config) -> bool {
    &&& c.source_path is None
    &&& c.model.provider@ == "openai_compat"@
    &&& c.model.openai_compat.base_url@ == "https://api.openai.com/v1"@
    &&& c.model.openai_compat.api_key@.len() == 0
    &&& c.model.openai_compat.model@ == "gpt-4o"@
    &&& c.model.anthropic.base_url@ == "https://api.anthropic.com"@
    &&& c.model.anthropic.api_key@.len() == 0
    &&& c.model.anthropic.model@.len() == 0
    &&& c.model.profiles@.len() == 0
    &&& c.model.active_profile@.len() == 0
    &&& c.agent.max_turns == 50
    &&& c.agent.max_total_tokens == 0
    &&& c.agent.work_dir@ == "."@
    &&& c.agent.system_prompt@.len() == 0
    &&& c.agent.persona_dir is None
    &&& c.context.l2_summary_model@ == "gpt-4o-mini"@
    &&& !c.context.l3_enabled
    &&& c.context.l3_embedding@ == "hash"@
    &&& c.context.embedding.base_url@.len() == 0
    &&& c.context.embedding.api_key@.len() == 0
    &&& c.context.embedding.model@.len() == 0
    &&& c.sandbox.level@ == "container"@
    &&& c.sandbox.bash_timeout_secs == 30
    &&& c.sandbox.max_processes == 0
    &&& c.sandbox.max_memory_mb == 512
    &&& c.sandbox.cpu_time_secs == 60
    &&& c.sandbox.max_file_size_mb == 100
    &&& c.sandbox.cgroup
    &&& c.sandbox.cgroup_memory_mb == 0
    &&& !c.sandbox.bash_restrict_workdir
    &&& c.session.dir@ == "~/.r2/sessions"@
    &&& c.mcp.servers@.len() == 0
}

impl Default for Config {
    fn default() -> (r: Self)
        ensures
            is_default(r),
    {
        Config::default_config()
    }
}

// ---------- after loading ----------

/// A path with a leading `~` replaced by the home directory, where there is
/// one.
pub open spec fn expanded(path: Seq<char>, home: Option<Seq<char>>) -> Seq<char> {
    match home {
        Some(h) => match after_prefix(path, "~/"@) {
            Some(rest) => h + "/"@ + rest,
            None => if path == "~"@ {
                h
            } else {
                path
            },
        },
        None => path,
    }
}

/// Replaces a leading `~` by the home directory.
pub fn expand_tilde(path: &str, home: Option<&str>) -> (r: String)
    ensures
        r@ == expanded(
            path@,
            match home {
                Some(h) => Some(h@),
                None => None,
            },
        ),
{
    match home {
        Some(h) => match strip_prefix(path, "~/") {
            Some(rest) => {
                let mut s: String = h.to_string();
                s.append("/");
                s.append(rest.as_str());
                s
            },
            None => if str_eq(path, "~") {
                h.to_string()
            } else {
                path.to_string()
            },
        },
        None => path.to_string(),
    }
}

/// How strictly commands are contained.
#[derive(Debug, Clone, Copy, PartialEq, Eq, Structural)]
pub enum SandboxLevel {
    Off,
    Container,
    Strict,
}

pub open spec fn level_of(s: Seq<char>) -> Option<SandboxLevel> {
    if s == "off"@ {
        Some(SandboxLevel::Off)
    } else if s == "container"@ {
        Some(SandboxLevel::Container)
    } else if s == "strict"@ {
        Some(SandboxLevel::Strict)
    } else {
        None
    }
}

impl SandboxLevel {
    pub fn parse(s: &str) -> (r: Result<SandboxLevel, String>)
        ensures
            match r {
                Ok(l) => level_of(s@) == Some(l),
                Err(e) => level_of(s@) is None && e@ == "非法沙箱级别: \""@ + s@
                    + "\"，仅支持 \"off\"、\"container\" 或 \"strict\""@,
            },
    {
        if str_eq(s, "off") {
            Ok(SandboxLevel::Off)
        } else if str_eq(s, "container") {
            Ok(SandboxLevel::Container)
        } else if str_eq(s, "strict") {
            Ok(SandboxLevel::Strict)
        } else {
            let mut e: String = "非法沙箱级别: \"".to_string();
            e.append(s);
            e.append("\"，仅支持 \"off\"、\"container\" 或 \"strict\"");
            Err(e)
        }
    }
}

/// The window of a model; 128000 where the model is not known.
pub open spec fn window_of(model: Seq<char>) -> usize {
    match model_named(model) {
        Some(m) => m.context_window,
        None => 128_000,
    }
}

/// The budget of a model: the one that is set, or else its window.
pub open spec fn budget(set: usize, model: Seq<char>) -> usize {
    if set != 0 {
        set
    } else {
        window_of(model)
    }
}

/// The model that answers.
pub open spec fn model_text(m: ModelConfig) -> Seq<char> {
    if m.provider@ == "anthropic"@ {
        m.anthropic.model@
    } else {
        m.openai_compat.model@
    }
}

/// A provider that is known.
pub open spec fn known_provider(p: Seq<char>) -> bool {
    p == "openai_compat"@ || p == "anthropic"@
}

/// The configuration after loading: the paths expanded and the budget set,
/// everything else as it was.
pub open spec fn processed(c: Config, d: Config, home: Option<Seq<char>>) -> bool {
    &&& d.session.dir@ == expanded(c.session.dir@, home)
    &&& d.agent.work_dir@ == expanded(c.agent.work_dir@, home)
    &&& d.agent.max_total_tokens == budget(c.agent.max_total_tokens, model_text(c.model))
    &&& d == (Config {
        session: SessionConfig { dir: d.session.dir },
        agent: AgentConfig {
            work_dir: d.agent.work_dir,
            max_total_tokens: d.agent.max_total_tokens,
            ..c.agent
        },
        ..c
    })
}

pub open spec fn opt_home(home: Option<&str>) -> Option<Seq<char>> {
    match home {
        Some(h) => Some(h@),
        None => None,
    }
}

impl Config {
    /// The default configuration.
    pub fn default_config() -> (r: Config)
        ensures
            is_default(r),
    {
        Config {
            source_path: None,
            model: ModelConfig::default(),
            agent: AgentConfig::default(),
            context: ContextConfig::default(),
            sandbox: SandboxConfig::default(),
            session: SessionConfig::default(),
            mcp: McpConfig::default(),
        }
    }

    /// The model that answers.
    pub fn current_model(&self) -> (r: &str)
        ensures
            r@ == model_text(self.model),
    {
        if str_eq(self.model.provider.as_str(), "anthropic") {
            self.model.anthropic.model.as_str()
        } else {
            self.model.openai_compat.model.as_str()
        }
    }

    /// Sets the token budget to the model's window where none is set.
    pub fn resolve_auto_budget(&mut self)
        ensures
            *final(self) == (Config {
                agent: AgentConfig {
                    max_total_tokens: budget(
                        old(self).agent.max_total_tokens,
                        model_text(old(self).model),
                    ),
                    ..old(self).agent
                },
                ..*old(self)
            }),
    {
        if self.agent.max_total_tokens != 0 {
            return;
        }
        let window: usize = match lookup(self.current_model()) {
            Some(info) => info.context_window,
            None => 128_000,
        };
        self.agent.max_total_tokens = window;
    }

    /// Checks a loaded configuration and completes it: the provider and the
    /// sandbox level must be known; paths are expanded and the budget is set.
    pub fn post_process(&mut self, home: Option<&str>) -> (r: Result<(), String>)
        ensures
            match r {
                Ok(_) => {
                    &&& known_provider(old(self).model.provider@)
                    &&& level_of(old(self).sandbox.level@) is Some
                    &&& processed(*old(self), *final(self), opt_home(home))
                },
                Err(e) => {
                    &&& *final(self) == *old(self)
                    &&& if !known_provider(old(self).model.provider@) {
                        e@ == "非法 provider: \""@ + old(self).model.provider@
                            + "\"，仅支持 \"openai_compat\" 或 \"anthropic\""@
                    } else {
                        &&& level_of(old(self).sandbox.level@) is None
                        &&& e@ == "非法沙箱级别: \""@ + old(self).sandbox.level@
                            + "\"，仅支持 \"off\"、\"container\" 或 \"strict\""@
                    }
                },
            },
    {
        if !str_eq(self.model.provider.as_str(), "openai_compat") && !str_eq(
            self.model.provider.as_str(),
            "anthropic",
        ) {
            let mut e: String = "非法 provider: \"".to_string();
            e.append(self.model.provider.as_str());
            e.append("\"，仅支持 \"openai_compat\" 或 \"anthropic\"");
            return Err(e);
        }
        match SandboxLevel::parse(self.sandbox.level.as_str()) {
            Ok(_) => {},
            Err(e) => {
                return Err(e);
            },
        }
        self.session.dir = expand_tilde(self.session.dir.as_str(), home);
        self.agent.work_dir = expand_tilde(self.agent.work_dir.as_str(), home);
        self.resolve_auto_budget();
        Ok(())
    }
}

/// Every model has a window.
pub proof fn law_windows_are_positive(model: Seq<char>)
    ensures
        window_of(model) >= 8_192,
{
    crate::models::law_longest_key_wins(model);
    if model_named(model) is Some {
        let m = model_named(model)->Some_0;
        let i = crate::models::known_models().index_of(m);
        assert(crate::models::known_models()[i] == m);
    }
}

/// Setting the budget twice is the same as setting it once, and then it is
/// set.
pub proof fn law_budget_is_settled(set: usize, model: Seq<char>)
    ensures
        budget(budget(set, model), model) == budget(set, model),
        budget(set, model) != 0,
{
    law_windows_are_positive(model);
}

// ---------- overrides ----------

/// The configuration with another model for its provider, and nothing else
/// changed.
pub open spec fn model_set(c: ModelConfig, d: ModelConfig, name: Seq<char>) -> bool {
    if c.provider@ == "anthropic"@ {
        &&& d.anthropic.model@ == name
        &&& d == (ModelConfig {
            anthropic: AnthropicConfig { model: d.anthropic.model, ..c.anthropic },
            ..c
        })
    } else {
        &&& d.openai_compat.model@ == name
        &&& d == (ModelConfig {
            openai_compat: OpenAiCompatConfig { model: d.openai_compat.model, ..c.openai_compat },
            ..c
        })
    }
}

/// Chooses another model for the present provider.
pub fn set_model(config: &mut Config, model: &str)
    ensures
        model_set(old(config).model, final(config).model, model@),
        *final(config) == (Config { model: final(config).model, ..*old(config) }),
{
    if str_eq(config.model.provider.as_str(), "anthropic") {
        config.model.anthropic.model = model.to_string();
    } else {
        config.model.openai_compat.model = model.to_string();
    }
}

/// Applies what the command line overrides: the model of the present provider
/// and the working directory.
pub fn apply_overrides(config: &mut Config, model: Option<&str>, work_dir: Option<&str>, home: Option<&str>)
    ensures
        match model {
            Some(m) => model_set(old(config).model, final(config).model, m@),
            None => final(config).model == old(config).model,
        },
        match work_dir {
            Some(w) => final(config).agent.work_dir@ == expanded(w@, opt_home(home)),
            None => final(config).agent.work_dir == old(config).agent.work_dir,
        },
        *final(config) == (Config {
            model: final(config).model,
            agent: AgentConfig { work_dir: final(config).agent.work_dir, ..old(config).agent },
            ..*old(config)
        }),
{
    if let Some(m) = model {
        set_model(config, m);
    }
    if let Some(w) = work_dir {
        config.agent.work_dir = expand_tilde(w, home);
    }
}

/// Whether the provider in use has its key.
pub fn check_api_key(config: &Config) -> (r: bool)
    ensures
        r == (if config.model.provider@ == "openai_compat"@ {
            config.model.openai_compat.api_key@.len() > 0
        } else if config.model.provider@ == "anthropic"@ {
            config.model.anthropic.api_key@.len() > 0
        } else {
            true
        }),
{
    if str_eq(config.model.provider.as_str(), "openai_compat") {
        !config.model.openai_compat.api_key.as_str().is_empty()
    } else if str_eq(config.model.provider.as_str(), "anthropic") {
        !config.model.anthropic.api_key.as_str().is_empty()
    } else {
        true
    }
}

// ---------- the overlay of a profile ----------

/// What a tool server holds.
pub struct ServerView {
    pub name: Seq<char>,
    pub command: Seq<char>,
    pub args: Seq<Seq<char>>,
}

impl View for McpServerConfig {
    type V = ServerView;

    open spec fn view(&self) -> ServerView {
        ServerView { name: self.name@, command: self.command@, args: strs(self.args@) }
    }
}

pub open spec fn server_views(v: Seq<McpServerConfig>) -> Seq<ServerView> {
    Seq::new(v.len(), |i: int| v[i]@)
}

/// The servers without those of this name.
pub open spec fn without(v: Seq<ServerView>, name: Seq<char>) -> Seq<ServerView>
    decreases v.len(),
{
    if v.len() == 0 {
        Seq::empty()
    } else if v.last().name == name {
        without(v.drop_last(), name)
    } else {
        without(v.drop_last(), name).push(v.last())
    }
}

/// The servers with more of them: each replaces those of its name and goes to
/// the end.
pub open spec fn upserted(v: Seq<ServerView>, more: Seq<ServerView>) -> Seq<ServerView>
    decreases more.len(),
{
    if more.len() == 0 {
        v
    } else {
        without(upserted(v, more.drop_last()), more.last().name).push(more.last())
    }
}

fn clone_server(s: &McpServerConfig) -> (r: McpServerConfig)
    ensures
        r@ == s@,
{
    McpServerConfig { name: s.name.clone(), command: s.command.clone(), args: clone_list(&s.args) }
}

/// Puts a server among others; those of its name leave.
pub fn upsert_server(servers: Vec<McpServerConfig>, s: &McpServerConfig) -> (r: Vec<McpServerConfig>)
    ensures
        server_views(r@) == without(server_views(servers@), s@.name).push(s@),
{
    let ghost all = server_views(servers@);
    let ghost items = servers@;
    let mut out: Vec<McpServerConfig> = Vec::new();
    assert(server_views(out@) =~= without(all.take(0), s@.name));
    for x in it: servers
        invariant
            it.seq() == items,
            all == server_views(items),
            server_views(out@) == without(all.take(it.index() as int), s@.name),
    {
        let ghost before = server_views(out@);
        let ghost k = it.index() as int;
        proof {
            assert(all.take(k + 1).drop_last() =~= all.take(k));
            assert(all.take(k + 1).last() == x@);
        }
        if !str_eq(x.name.as_str(), s.name.as_str()) {
            out.push(x);
            assert(server_views(out@) =~= before.push(x@));
        }
    }
    assert(all.take(items.len() as int) =~= all);
    let ghost before = server_views(out@);
    out.push(clone_server(s));
    assert(server_views(out@) =~= before.push(s@));
    out
}

/// No server of this name.
pub open spec fn lacks(v: Seq<ServerView>, name: Seq<char>) -> bool {
    forall|i: int| 0 <= i < v.len() ==> (#[trigger] v[i]).name != name
}

proof fn lemma_without_lacks(v: Seq<ServerView>, name: Seq<char>)
    ensures
        lacks(without(v, name), name),
        lacks(v, name) ==> without(v, name) == v,
    decreases v.len(),
{
    if v.len() > 0 {
        lemma_without_lacks(v.drop_last(), name);
        if lacks(v, name) {
            assert(v[v.len() - 1].name != name);
            assert forall|i: int| 0 <= i < v.drop_last().len() implies (#[trigger] v.drop_last()[i]).name
                != name by {
                assert(v[i].name != name);
            }
            assert(v.drop_last().push(v.last()) =~= v);
        }
    } else {
        assert(without(v, name) =~= v);
    }
}

proof fn lemma_without_concat(a: Seq<ServerView>, b: Seq<ServerView>, name: Seq<char>)
    ensures
        without(a + b, name) == without(a, name) + without(b, name),
    decreases b.len(),
{
    if b.len() == 0 {
        assert(a + b =~= a);
        assert(without(a, name) + without(b, name) =~= without(a, name));
    } else {
        assert((a + b).drop_last() =~= a + b.drop_last());
        assert((a + b).last() == b.last());
        lemma_without_concat(a, b.drop_last(), name);
        if b.last().name != name {
            assert((without(a, name) + without(b.drop_last(), name)).push(b.last()) =~= without(a, name)
                + without(b, name));
        }
    }
}

/// The servers without those whose name is among `more`.
pub open spec fn without_all(v: Seq<ServerView>, more: Seq<ServerView>) -> Seq<ServerView>
    decreases more.len(),
{
    if more.len() == 0 {
        v
    } else {
        without(without_all(v, more.drop_last()), more.last().name)
    }
}

proof fn lemma_upserted_splits(v: Seq<ServerView>, more: Seq<ServerView>)
    ensures
        upserted(v, more) == without_all(v, more) + upserted(Seq::empty(), more),
    decreases more.len(),
{
    let none = Seq::<ServerView>::empty();
    if more.len() == 0 {
        assert(v + none =~= v);
    } else {
        let prev = more.drop_last();
        let n = more.last().name;
        lemma_upserted_splits(v, prev);
        lemma_without_concat(without_all(v, prev), upserted(none, prev), n);
        assert((without(without_all(v, prev), n) + without(upserted(none, prev), n)).push(more.last())
            =~= without_all(v, more) + upserted(none, more));
    }
}

proof fn lemma_without_all_concat(a: Seq<ServerView>, b: Seq<ServerView>, more: Seq<ServerView>)
    ensures
        without_all(a + b, more) == without_all(a, more) + without_all(b, more),
    decreases more.len(),
{
    if more.len() > 0 {
        lemma_without_all_concat(a, b, more.drop_last());
        lemma_without_concat(
            without_all(a, more.drop_last()),
            without_all(b, more.drop_last()),
            more.last().name,
        );
    }
}

/// Every server of `v` has a name among `more`.
pub open spec fn all_named_in(v: Seq<ServerView>, more: Seq<ServerView>) -> bool {
    forall|i: int|
        0 <= i < v.len() ==> exists|j: int| 0 <= j < more.len() && (#[trigger] v[i]).name == (#[trigger] more[j]).name
}

proof fn lemma_without_subset(v: Seq<ServerView>, name: Seq<char>, i: int)
    requires
        0 <= i < without(v, name).len(),
    ensures
        exists|k: int| 0 <= k < v.len() && v[k] == without(v, name)[i],
    decreases v.len(),
{
    if v.len() > 0 {
        let p = without(v.drop_last(), name);
        if v.last().name != name && i == p.len() {
            assert(v[v.len() - 1] == without(v, name)[i]);
        } else {
            lemma_without_subset(v.drop_last(), name, i);
            let k = choose|k: int| 0 <= k < v.drop_last().len() && v.drop_last()[k] == p[i];
            assert(v[k] == without(v, name)[i]);
        }
    }
}

proof fn lemma_upserted_named(more: Seq<ServerView>)
    ensures
        all_named_in(upserted(Seq::empty(), more), more),
    decreases more.len(),
{
    let none = Seq::<ServerView>::empty();
    if more.len() > 0 {
        let prev = more.drop_last();
        lemma_upserted_named(prev);
        let u = upserted(none, prev);
        let w = without(u, more.last().name);
        let r = upserted(none, more);
        assert forall|i: int| 0 <= i < r.len() implies exists|j: int|
            0 <= j < more.len() && (#[trigger] r[i]).name == (#[trigger] more[j]).name by {
            if i < w.len() {
                lemma_without_subset(u, more.last().name, i);
                let k = choose|k: int| 0 <= k < u.len() && u[k] == w[i];
                let j = choose|j: int| 0 <= j < prev.len() && u[k].name == (#[trigger] prev[j]).name;
                assert(more[j].name == r[i].name);
            } else {
                assert(more[more.len() - 1].name == r[i].name);
            }
        }
    }
}

proof fn lemma_without_all_lacks(v: Seq<ServerView>, more: Seq<ServerView>, j: int)
    requires
        0 <= j < more.len(),
    ensures
        lacks(without_all(v, more), more[j].name),
    decreases more.len(),
{
    let prev = more.drop_last();
    let w = without_all(v, prev);
    let n = more.last().name;
    lemma_without_lacks(w, n);
    if j < prev.len() {
        lemma_without_all_lacks(v, prev, j);
        assert forall|i: int| 0 <= i < without(w, n).len() implies (#[trigger] without(w, n)[i]).name
            != more[j].name by {
            lemma_without_subset(w, n, i);
            let k = choose|k: int| 0 <= k < w.len() && w[k] == without(w, n)[i];
            assert(w[k].name != prev[j].name);
        }
    }
}

proof fn lemma_nothing_left(v: Seq<ServerView>, more: Seq<ServerView>)
    requires
        all_named_in(v, more),
    ensures
        without_all(v, more) == Seq::<ServerView>::empty(),
{
    let w = without_all(v, more);
    if w.len() > 0 {
        lemma_without_all_subset(v, more, 0);
        let k = choose|k: int| 0 <= k < v.len() && v[k] == w[0];
        let j = choose|j: int| 0 <= j < more.len() && v[k].name == (#[trigger] more[j]).name;
        lemma_without_all_lacks(v, more, j);
        assert(w[0].name != more[j].name);
    }
    assert(w =~= Seq::<ServerView>::empty());
}

proof fn lemma_without_all_subset(v: Seq<ServerView>, more: Seq<ServerView>, i: int)
    requires
        0 <= i < without_all(v, more).len(),
    ensures
        exists|k: int| 0 <= k < v.len() && v[k] == without_all(v, more)[i],
    decreases more.len(),
{
    if more.len() == 0 {
        assert(v[i] == without_all(v, more)[i]);
    } else {
        let w = without_all(v, more.drop_last());
        lemma_without_subset(w, more.last().name, i);
        let k = choose|k: int| 0 <= k < w.len() && w[k] == without(w, more.last().name)[i];
        lemma_without_all_subset(v, more.drop_last(), k);
    }
}

proof fn lemma_without_all_again(v: Seq<ServerView>, more: Seq<ServerView>, again: Seq<ServerView>)
    requires
        forall|j: int| 0 <= j < again.len() ==> lacks(v, (#[trigger] again[j]).name),
    ensures
        without_all(v, again) == v,
    decreases again.len(),
{
    if again.len() > 0 {
        let prev = again.drop_last();
        assert forall|j: int| 0 <= j < prev.len() implies lacks(v, (#[trigger] prev[j]).name) by {
            assert(lacks(v, again[j].name));
        }
        lemma_without_all_again(v, more, prev);
        assert(lacks(v, again[again.len() - 1].name));
        lemma_without_lacks(v, again.last().name);
    }
}

/// Laying the same servers over a configuration twice is the same as laying
/// them once.
pub proof fn law_upsert_twice(v: Seq<ServerView>, more: Seq<ServerView>)
    ensures
        upserted(upserted(v, more), more) == upserted(v, more),
{
    let none = Seq::<ServerView>::empty();
    let a = without_all(v, more);
    let b = upserted(none, more);
    lemma_upserted_splits(v, more);
    lemma_upserted_splits(a + b, more);
    lemma_without_all_concat(a, b, more);
    lemma_upserted_named(more);
    lemma_nothing_left(b, more);
    assert forall|j: int| 0 <= j < more.len() implies lacks(a, (#[trigger] more[j]).name) by {
        lemma_without_all_lacks(v, more, j);
    }
    lemma_without_all_again(a, more, more);
    assert(a + none =~= a);
}

/// The configuration of an agent profile: its directories, its model where it
/// names one, and its tool servers.
pub open spec fn persona(
    c: Config,
    d: Config,
    dir: Seq<char>,
    model: Option<Seq<char>>,
    servers: Seq<ServerView>,
) -> bool {
    &&& opt_view(d.agent.persona_dir) == Some(dir)
    &&& d.agent.work_dir@ == path_join(dir, "work"@)
    &&& d.session.dir@ == path_join(dir, "sessions"@)
    &&& match model {
        Some(m) => if m.len() > 0 {
            model_set(c.model, d.model, m)
        } else {
            d.model == c.model
        },
        None => d.model == c.model,
    }
    &&& server_views(d.mcp.servers@) == upserted(server_views(c.mcp.servers@), servers)
    &&& d == (Config {
        model: d.model,
        agent: AgentConfig {
            persona_dir: d.agent.persona_dir,
            work_dir: d.agent.work_dir,
            ..c.agent
        },
        session: SessionConfig { dir: d.session.dir },
        mcp: McpConfig { servers: d.mcp.servers },
        ..c
    })
}

/// Lays an agent profile over the configuration; the main agent changes
/// nothing. `servers` are those of the profile's own file.
pub fn apply_persona(
    name: &str,
    home: &str,
    profile: &Option<AgentProfile>,
    servers: &Vec<McpServerConfig>,
    cfg: &mut Config,
)
    ensures
        name@ == MAIN@ ==> *final(cfg) == *old(cfg),
        name@ != MAIN@ ==> persona(
            *old(cfg),
            *final(cfg),
            dir_of(home@, name@),
            match *profile {
                Some(p) => Some(p.model@),
                None => None,
            },
            server_views(servers@),
        ),
{
    if str_eq(name, MAIN) {
        return;
    }
    let dir: String = profile_dir(home, name);
    cfg.agent.work_dir = join_path(dir.as_str(), "work");
    cfg.session.dir = join_path(dir.as_str(), "sessions");
    cfg.agent.persona_dir = Some(dir);
    if let Some(p) = profile {
        if !p.model.as_str().is_empty() {
            set_model(cfg, p.model.as_str());
        }
    }
    let ghost first = server_views(cfg.mcp.servers@);
    let mut list: Vec<McpServerConfig> = Vec::new();
    list.append(&mut cfg.mcp.servers);
    let ghost all = server_views(servers@);
    let mut i: usize = 0;
    assert(server_views(list@) =~= first);
    assert(all.take(0) =~= Seq::<ServerView>::empty());
    while i < servers.len()
        invariant
            i <= servers.len(),
            all == server_views(servers@),
            server_views(list@) == upserted(first, all.take(i as int)),
        decreases servers.len() - i,
    {
        proof {
            assert(all.take(i as int + 1).drop_last() =~= all.take(i as int));
            assert(all.take(i as int + 1).last() == servers@[i as int]@);
        }
        list = upsert_server(list, &servers[i]);
        i += 1;
    }
    assert(all.take(i as int) =~= all);
    cfg.mcp.servers = list;
}

} // verus!
