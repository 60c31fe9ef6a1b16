//! Configuration data and its management: connection profiles, agents,
//! task templates, and MCP server registrations.
//!
//! Persistence lives with the caller: every operation here mutates or
//! reads the in-memory configuration only, and says exactly what it did,
//! so the caller can decide when to write the result back to disk.

use vstd::prelude::*;
use vstd::string::StrSliceExecFns;
use vstd::string::StringExecFns;

use crate::scan::str_eq;

verus! {

/// A connection profile for a generation service.
#[derive(Clone, Debug)]
pub struct Profile {
    pub name: String,
    pub url: String,
    pub key: String,
    pub service: String,
}

/// An agent: a named system prompt with optional context files, tools and
/// model choice.
#[derive(Clone, Debug)]
pub struct Agent {
    pub name: String,
    pub description: Option<String>,
    pub system_prompt: String,
    pub context_files: Vec<String>,
    pub tools: Option<Vec<String>>,
    pub model: Option<String>,
}

/// A task template: a named prompt preamble.
#[derive(Clone, Debug)]
pub struct Task {
    pub name: String,
    pub template: String,
}

/// Relies on `serde_json::Value` as an opaque JSON tree: the library
/// stores and hands back such values but never looks inside them.
#[verifier::external_type_specification]
#[verifier::external_body]
pub struct ExSerdeJsonValue(serde_json::Value);

/// An MCP server registration: a name and its JSON configuration, carried
/// through opaquely.
pub struct McpServer {
    pub name: String,
    pub config: serde_json::Value,
}

/// Which subcommand of MCP server management the caller asked for.
#[derive(Clone, Debug)]
pub enum McpCommand {
    Add { name: String, json: String },
    Remove { name: String },
    List,
    Install { name: String, global: bool },
    Uninstall { name: String, global: bool },
    Status,
    Build,
}

/// The whole configuration. Entries with names behave like maps keyed by
/// name: adding replaces any entry of the same name.
pub struct Config {
    pub profiles: Vec<Profile>,
    pub active_profile: Option<String>,
    pub default_profile: Option<String>,
    pub agents: Vec<Agent>,
    pub tasks: Vec<Task>,
    pub default_agent: Option<String>,
    pub claude_executable: Option<String>,
    pub mcp_servers: Vec<McpServer>,
}

/// The first profile named `name`, if any.
pub open spec fn find_profile(s: Seq<Profile>, name: Seq<char>) -> Option<Profile>
    decreases s.len(),
{
    if s.len() == 0 {
        None
    } else if s[0].name@ == name {
        Some(s[0])
    } else {
        find_profile(s.drop_first(), name)
    }
}

/// The first agent named `name`, if any.
pub open spec fn find_agent(s: Seq<Agent>, name: Seq<char>) -> Option<Agent>
    decreases s.len(),
{
    if s.len() == 0 {
        None
    } else if s[0].name@ == name {
        Some(s[0])
    } else {
        find_agent(s.drop_first(), name)
    }
}

/// The first task named `name`, if any.
pub open spec fn find_task(s: Seq<Task>, name: Seq<char>) -> Option<Task>
    decreases s.len(),
{
    if s.len() == 0 {
        None
    } else if s[0].name@ == name {
        Some(s[0])
    } else {
        find_task(s.drop_first(), name)
    }
}

/// The first MCP server named `name`, if any.
pub open spec fn find_mcp(s: Seq<McpServer>, name: Seq<char>) -> Option<McpServer>
    decreases s.len(),
{
    if s.len() == 0 {
        None
    } else if s[0].name@ == name {
        Some(s[0])
    } else {
        find_mcp(s.drop_first(), name)
    }
}

/// The profiles not named `name`, in order.
pub open spec fn profiles_without(s: Seq<Profile>, name: Seq<char>) -> Seq<Profile>
    decreases s.len(),
{
    if s.len() == 0 {
        Seq::empty()
    } else if s[0].name@ == name {
        profiles_without(s.drop_first(), name)
    } else {
        seq![s[0]] + profiles_without(s.drop_first(), name)
    }
}

/// The agents not named `name`, in order.
pub open spec fn agents_without(s: Seq<Agent>, name: Seq<char>) -> Seq<Agent>
    decreases s.len(),
{
    if s.len() == 0 {
        Seq::empty()
    } else if s[0].name@ == name {
        agents_without(s.drop_first(), name)
    } else {
        seq![s[0]] + agents_without(s.drop_first(), name)
    }
}

/// The tasks not named `name`, in order.
pub open spec fn tasks_without(s: Seq<Task>, name: Seq<char>) -> Seq<Task>
    decreases s.len(),
{
    if s.len() == 0 {
        Seq::empty()
    } else if s[0].name@ == name {
        tasks_without(s.drop_first(), name)
    } else {
        seq![s[0]] + tasks_without(s.drop_first(), name)
    }
}

/// The MCP servers not named `name`, in order.
pub open spec fn mcp_without(s: Seq<McpServer>, name: Seq<char>) -> Seq<McpServer>
    decreases s.len(),
{
    if s.len() == 0 {
        Seq::empty()
    } else if s[0].name@ == name {
        mcp_without(s.drop_first(), name)
    } else {
        seq![s[0]] + mcp_without(s.drop_first(), name)
    }
}

fn clone_profile(p: &Profile) -> (r: Profile)
    ensures
        r == *p,
{
    Profile {
        name: p.name.clone(),
        url: p.url.clone(),
        key: p.key.clone(),
        service: p.service.clone(),
    }
}

impl Default for Config {
    /// The empty configuration: no profiles, agents, tasks or servers, and
    /// nothing selected.
    fn default() -> (r: Self)
        ensures
            r.profiles@.len() == 0,
            r.active_profile is None,
            r.default_profile is None,
            r.agents@.len() == 0,
            r.tasks@.len() == 0,
            r.default_agent is None,
            r.claude_executable is None,
            r.mcp_servers@.len() == 0,
    {
        Config {
            profiles: Vec::new(),
            active_profile: None,
            default_profile: None,
            agents: Vec::new(),
            tasks: Vec::new(),
            default_agent: None,
            claude_executable: None,
            mcp_servers: Vec::new(),
        }
    }
}

impl Config {
    /// The profile the configuration currently points at, if its name
    /// resolves to a stored profile.
    pub open spec fn spec_active_profile(&self) -> Option<Profile> {
        match self.active_profile {
            Some(n) => find_profile(self.profiles@, n@),
            None => None,
        }
    }

    /// The agent the configuration marks as default, if its name resolves.
    pub open spec fn spec_default_agent(&self) -> Option<Agent> {
        match self.default_agent {
            Some(n) => find_agent(self.agents@, n@),
            None => None,
        }
    }

    /// Store `profile`, replacing any profile of the same name; the order
    /// of the others is kept and the new entry goes last.
    #[verifier::loop_isolation(false)]
    pub fn add_profile(&mut self, profile: Profile)
        ensures
            final(self).profiles@ == profiles_without(old(self).profiles@, profile.name@) + seq![
                profile,
            ],
            final(self).active_profile == old(self).active_profile,
            final(self).default_profile == old(self).default_profile,
            final(self).agents == old(self).agents,
            final(self).tasks == old(self).tasks,
            final(self).default_agent == old(self).default_agent,
            final(self).claude_executable == old(self).claude_executable,
            final(self).mcp_servers == old(self).mcp_servers,
    {
        let ghost orig = self.profiles@;
        let ghost nm = profile.name@;
        let mut kept: Vec<Profile> = Vec::new();
        while self.profiles.len() > 0
            invariant
                self.active_profile == old(self).active_profile,
                self.default_profile == old(self).default_profile,
                self.agents == old(self).agents,
                self.tasks == old(self).tasks,
                self.default_agent == old(self).default_agent,
                self.claude_executable == old(self).claude_executable,
                self.mcp_servers == old(self).mcp_servers,
                profiles_without(orig, nm) == kept@ + profiles_without(self.profiles@, nm),
            decreases self.profiles.len(),
        {
            let ghost before = self.profiles@;
            let p = self.profiles.remove(0);
            proof {
                assert(before.drop_first() =~= self.profiles@);
            }
            if str_eq(p.name.as_str(), profile.name.as_str()) {
            } else {
                proof {
                    assert((kept@ + seq![p]) + profiles_without(self.profiles@, nm) =~= kept@ + (
                    seq![p] + profiles_without(self.profiles@, nm)));
                }
                kept.push(p);
            }
        }
        proof {
            assert(kept@ + profiles_without(self.profiles@, nm) =~= kept@);
        }
        kept.push(profile);
        proof {
            assert(kept@ =~= profiles_without(orig, nm) + seq![profile]);
        }
        self.profiles = kept;
    }

    /// Remove every profile named `name`; reports whether any was removed.
    /// If the removed profile was the active or the default one, that
    /// selection is cleared.
    #[verifier::loop_isolation(false)]
    pub fn delete_profile(&mut self, name: &str) -> (removed: bool)
        ensures
            removed == (find_profile(old(self).profiles@, name@) is Some),
            final(self).profiles@ == profiles_without(old(self).profiles@, name@),
            final(self).active_profile == (if removed && (old(self).active_profile matches Some(n)
                && n@ == name@) {
                None
            } else {
                old(self).active_profile
            }),
            final(self).default_profile == (if removed
                && (old(self).default_profile matches Some(n) && n@ == name@) {
                None
            } else {
                old(self).default_profile
            }),
            final(self).agents == old(self).agents,
            final(self).tasks == old(self).tasks,
            final(self).default_agent == old(self).default_agent,
            final(self).claude_executable == old(self).claude_executable,
            final(self).mcp_servers == old(self).mcp_servers,
    {
        let ghost orig = self.profiles@;
        let mut kept: Vec<Profile> = Vec::new();
        let mut found = false;
        while self.profiles.len() > 0
            invariant
                self.active_profile == old(self).active_profile,
                self.default_profile == old(self).default_profile,
                self.agents == old(self).agents,
                self.tasks == old(self).tasks,
                self.default_agent == old(self).default_agent,
                self.claude_executable == old(self).claude_executable,
                self.mcp_servers == old(self).mcp_servers,
                profiles_without(orig, name@) == kept@ + profiles_without(self.profiles@, name@),
                found ==> find_profile(orig, name@) is Some,
                !found ==> find_profile(orig, name@) == find_profile(self.profiles@, name@),
            decreases self.profiles.len(),
        {
            let ghost before = self.profiles@;
            let p = self.profiles.remove(0);
            proof {
                assert(before.drop_first() =~= self.profiles@);
            }
            if str_eq(p.name.as_str(), name) {
                found = true;
            } else {
                proof {
                    assert((kept@ + seq![p]) + profiles_without(self.profiles@, name@) =~= kept@ + (
                    seq![p] + profiles_without(self.profiles@, name@)));
                }
                kept.push(p);
            }
        }
        proof {
            assert(kept@ + profiles_without(self.profiles@, name@) =~= kept@);
        }
        self.profiles = kept;
        if found {
            let clear_active = match &self.active_profile {
                Some(n) => str_eq(n.as_str(), name),
                None => false,
            };
            if clear_active {
                self.active_profile = None;
            }
            let clear_default = match &self.default_profile {
                Some(n) => str_eq(n.as_str(), name),
                None => false,
            };
            if clear_default {
                self.default_profile = None;
            }
        }
        found
    }

    /// Make the profile named `name` the active one, if it exists; the
    /// result is that profile.
    #[verifier::loop_isolation(false)]
    pub fn switch_profile(&mut self, name: &str) -> (r: Option<Profile>)
        ensures
            match r {
                Some(p) => find_profile(old(self).profiles@, name@) == Some(p)
                    && (final(self).active_profile matches Some(n) && n@ == name@),
                None => find_profile(old(self).profiles@, name@) is None
                    && *final(self) == *old(self),
            },
            final(self).profiles == old(self).profiles,
            final(self).default_profile == old(self).default_profile,
            final(self).agents == old(self).agents,
            final(self).tasks == old(self).tasks,
            final(self).default_agent == old(self).default_agent,
            final(self).claude_executable == old(self).claude_executable,
            final(self).mcp_servers == old(self).mcp_servers,
    {
        let n = self.profiles.len();
        let mut i: usize = 0;
        proof {
            assert(self.profiles@.skip(0) =~= self.profiles@);
            assert(self.agents@.skip(0) =~= self.agents@);
            assert(self.tasks@.skip(0) =~= self.tasks@);
            assert(self.mcp_servers@.skip(0) =~= self.mcp_servers@);
        }
        while i < n
            invariant
                i <= n,
                n == self.profiles.len(),
                *self == *old(self),
                find_profile(self.profiles@, name@) == find_profile(
                    self.profiles@.skip(i as int),
                    name@,
                ),
            decreases n - i,
        {
            proof {
                assert(self.profiles@.skip(i as int)[0] == self.profiles@[i as int]);
                assert(self.profiles@.skip(i as int).drop_first() =~= self.profiles@.skip(
                    i as int + 1,
                ));
            }
            if str_eq(self.profiles[i].name.as_str(), name) {
                let p = clone_profile(&self.profiles[i]);
                self.active_profile = Some(String::from_str(name));
                return Some(p);
            }
            i += 1;
        }
        proof {
            assert(self.profiles@.skip(n as int).len() == 0);
        }
        None
    }

    /// The active profile, if one is selected and stored.
    #[verifier::loop_isolation(false)]
    pub fn get_active_profile(&self) -> (r: Option<&Profile>)
        ensures
            match r {
                Some(p) => self.spec_active_profile() == Some(*p),
                None => self.spec_active_profile() is None,
            },
    {
        let name = match &self.active_profile {
            Some(n) => n,
            None => { return None },
        };
        let n = self.profiles.len();
        let mut i: usize = 0;
        proof {
            assert(self.profiles@.skip(0) =~= self.profiles@);
            assert(self.agents@.skip(0) =~= self.agents@);
            assert(self.tasks@.skip(0) =~= self.tasks@);
            assert(self.mcp_servers@.skip(0) =~= self.mcp_servers@);
        }
        while i < n
            invariant
                i <= n,
                n == self.profiles.len(),
                find_profile(self.profiles@, name@) == find_profile(
                    self.profiles@.skip(i as int),
                    name@,
                ),
            decreases n - i,
        {
            proof {
                assert(self.profiles@.skip(i as int)[0] == self.profiles@[i as int]);
                assert(self.profiles@.skip(i as int).drop_first() =~= self.profiles@.skip(
                    i as int + 1,
                ));
            }
            if str_eq(self.profiles[i].name.as_str(), name.as_str()) {
                return Some(&self.profiles[i]);
            }
            i += 1;
        }
        proof {
            assert(self.profiles@.skip(n as int).len() == 0);
        }
        None
    }

    /// Mark the profile named `name` as default, if it exists; reports
    /// whether it did.
    #[verifier::loop_isolation(false)]
    pub fn set_default_profile(&mut self, name: &str) -> (r: bool)
        ensures
            r == (find_profile(old(self).profiles@, name@) is Some),
            r ==> (final(self).default_profile matches Some(n) && n@ == name@),
            !r ==> *final(self) == *old(self),
            final(self).profiles == old(self).profiles,
            final(self).active_profile == old(self).active_profile,
            final(self).agents == old(self).agents,
            final(self).tasks == old(self).tasks,
            final(self).default_agent == old(self).default_agent,
            final(self).claude_executable == old(self).claude_executable,
            final(self).mcp_servers == old(self).mcp_servers,
    {
        let n = self.profiles.len();
        let mut i: usize = 0;
        proof {
            assert(self.profiles@.skip(0) =~= self.profiles@);
            assert(self.agents@.skip(0) =~= self.agents@);
            assert(self.tasks@.skip(0) =~= self.tasks@);
            assert(self.mcp_servers@.skip(0) =~= self.mcp_servers@);
        }
        while i < n
            invariant
                i <= n,
                n == self.profiles.len(),
                *self == *old(self),
                find_profile(self.profiles@, name@) == find_profile(
                    self.profiles@.skip(i as int),
                    name@,
                ),
            decreases n - i,
        {
            proof {
                assert(self.profiles@.skip(i as int)[0] == self.profiles@[i as int]);
                assert(self.profiles@.skip(i as int).drop_first() =~= self.profiles@.skip(
                    i as int + 1,
                ));
            }
            if str_eq(self.profiles[i].name.as_str(), name) {
                self.default_profile = Some(String::from_str(name));
                return true;
            }
            i += 1;
        }
        proof {
            assert(self.profiles@.skip(n as int).len() == 0);
        }
        false
    }

    /// Clear the default profile selection.
    pub fn clear_default_profile(&mut self)
        ensures
            final(self).default_profile is None,
            final(self).profiles == old(self).profiles,
            final(self).active_profile == old(self).active_profile,
            final(self).agents == old(self).agents,
            final(self).tasks == old(self).tasks,
            final(self).default_agent == old(self).default_agent,
            final(self).claude_executable == old(self).claude_executable,
            final(self).mcp_servers == old(self).mcp_servers,
    {
        self.default_profile = None;
    }

    /// Store `agent`, replacing any agent of the same name.
    #[verifier::loop_isolation(false)]
    pub fn add_agent(&mut self, agent: Agent)
        ensures
            final(self).agents@ == agents_without(old(self).agents@, agent.name@) + seq![agent],
            final(self).profiles == old(self).profiles,
            final(self).active_profile == old(self).active_profile,
            final(self).default_profile == old(self).default_profile,
            final(self).tasks == old(self).tasks,
            final(self).default_agent == old(self).default_agent,
            final(self).claude_executable == old(self).claude_executable,
            final(self).mcp_servers == old(self).mcp_servers,
    {
        let ghost orig = self.agents@;
        let ghost nm = agent.name@;
        let mut kept: Vec<Agent> = Vec::new();
        while self.agents.len() > 0
            invariant
                self.profiles == old(self).profiles,
                self.active_profile == old(self).active_profile,
                self.default_profile == old(self).default_profile,
                self.tasks == old(self).tasks,
                self.default_agent == old(self).default_agent,
                self.claude_executable == old(self).claude_executable,
                self.mcp_servers == old(self).mcp_servers,
                agents_without(orig, nm) == kept@ + agents_without(self.agents@, nm),
            decreases self.agents.len(),
        {
            let ghost before = self.agents@;
            let a = self.agents.remove(0);
            proof {
                assert(before.drop_first() =~= self.agents@);
            }
            if str_eq(a.name.as_str(), agent.name.as_str()) {
            } else {
                proof {
                    assert((kept@ + seq![a]) + agents_without(self.agents@, nm) =~= kept@ + (
                    seq![a] + agents_without(self.agents@, nm)));
                }
                kept.push(a);
            }
        }
        proof {
            assert(kept@ + agents_without(self.agents@, nm) =~= kept@);
        }
        kept.push(agent);
        proof {
            assert(kept@ =~= agents_without(orig, nm) + seq![kept@[kept@.len() - 1]]);
        }
        self.agents = kept;
    }

    /// Remove every agent named `name`; reports whether any was removed.
    #[verifier::loop_isolation(false)]
    pub fn delete_agent(&mut self, name: &str) -> (removed: bool)
        ensures
            removed == (find_agent(old(self).agents@, name@) is Some),
            final(self).agents@ == agents_without(old(self).agents@, name@),
            final(self).profiles == old(self).profiles,
            final(self).active_profile == old(self).active_profile,
            final(self).default_profile == old(self).default_profile,
            final(self).tasks == old(self).tasks,
            final(self).default_agent == old(self).default_agent,
            final(self).claude_executable == old(self).claude_executable,
            final(self).mcp_servers == old(self).mcp_servers,
    {
        let ghost orig = self.agents@;
        let mut kept: Vec<Agent> = Vec::new();
        let mut found = false;
        while self.agents.len() > 0
            invariant
                self.profiles == old(self).profiles,
                self.active_profile == old(self).active_profile,
                self.default_profile == old(self).default_profile,
                self.tasks == old(self).tasks,
                self.default_agent == old(self).default_agent,
                self.claude_executable == old(self).claude_executable,
                self.mcp_servers == old(self).mcp_servers,
                agents_without(orig, name@) == kept@ + agents_without(self.agents@, name@),
                found ==> find_agent(orig, name@) is Some,
                !found ==> find_agent(orig, name@) == find_agent(self.agents@, name@),
            decreases self.agents.len(),
        {
            let ghost before = self.agents@;
            let a = self.agents.remove(0);
            proof {
                assert(before.drop_first() =~= self.agents@);
            }
            if str_eq(a.name.as_str(), name) {
                found = true;
            } else {
                proof {
                    assert((kept@ + seq![a]) + agents_without(self.agents@, name@) =~= kept@ + (
                    seq![a] + agents_without(self.agents@, name@)));
                }
                kept.push(a);
            }
        }
        proof {
            assert(kept@ + agents_without(self.agents@, name@) =~= kept@);
        }
        self.agents = kept;
        found
    }

    /// The stored agent named `name`, if any.
    #[verifier::loop_isolation(false)]
    pub fn get_agent(&self, name: &str) -> (r: Option<&Agent>)
        ensures
            match r {
                Some(a) => find_agent(self.agents@, name@) == Some(*a),
                None => find_agent(self.agents@, name@) is None,
            },
    {
        let n = self.agents.len();
        let mut i: usize = 0;
        proof {
            assert(self.profiles@.skip(0) =~= self.profiles@);
            assert(self.agents@.skip(0) =~= self.agents@);
            assert(self.tasks@.skip(0) =~= self.tasks@);
            assert(self.mcp_servers@.skip(0) =~= self.mcp_servers@);
        }
        while i < n
            invariant
                i <= n,
                n == self.agents.len(),
                find_agent(self.agents@, name@) == find_agent(self.agents@.skip(i as int), name@),
            decreases n - i,
        {
            proof {
                assert(self.agents@.skip(i as int)[0] == self.agents@[i as int]);
                assert(self.agents@.skip(i as int).drop_first() =~= self.agents@.skip(
                    i as int + 1,
                ));
            }
            if str_eq(self.agents[i].name.as_str(), name) {
                return Some(&self.agents[i]);
            }
            i += 1;
        }
        proof {
            assert(self.agents@.skip(n as int).len() == 0);
        }
        None
    }

    /// Store `task`, replacing any task of the same name.
    #[verifier::loop_isolation(false)]
    pub fn add_task(&mut self, task: Task)
        ensures
            final(self).tasks@ == tasks_without(old(self).tasks@, task.name@) + seq![task],
            final(self).profiles == old(self).profiles,
            final(self).active_profile == old(self).active_profile,
            final(self).default_profile == old(self).default_profile,
            final(self).agents == old(self).agents,
            final(self).default_agent == old(self).default_agent,
            final(self).claude_executable == old(self).claude_executable,
            final(self).mcp_servers == old(self).mcp_servers,
    {
        let ghost orig = self.tasks@;
        let ghost nm = task.name@;
        let mut kept: Vec<Task> = Vec::new();
        while self.tasks.len() > 0
            invariant
                self.profiles == old(self).profiles,
                self.active_profile == old(self).active_profile,
                self.default_profile == old(self).default_profile,
                self.agents == old(self).agents,
                self.default_agent == old(self).default_agent,
                self.claude_executable == old(self).claude_executable,
                self.mcp_servers == old(self).mcp_servers,
                tasks_without(orig, nm) == kept@ + tasks_without(self.tasks@, nm),
            decreases self.tasks.len(),
        {
            let ghost before = self.tasks@;
            let t = self.tasks.remove(0);
            proof {
                assert(before.drop_first() =~= self.tasks@);
            }
            if str_eq(t.name.as_str(), task.name.as_str()) {
            } else {
                proof {
                    assert((kept@ + seq![t]) + tasks_without(self.tasks@, nm) =~= kept@ + (seq![t]
                        + tasks_without(self.tasks@, nm)));
                }
                kept.push(t);
            }
        }
        proof {
            assert(kept@ + tasks_without(self.tasks@, nm) =~= kept@);
        }
        kept.push(task);
        proof {
            assert(kept@ =~= tasks_without(orig, nm) + seq![kept@[kept@.len() - 1]]);
        }
        self.tasks = kept;
    }

    /// Remove every task named `name`; reports whether any was removed.
    #[verifier::loop_isolation(false)]
    pub fn delete_task(&mut self, name: &str) -> (removed: bool)
        ensures
            removed == (find_task(old(self).tasks@, name@) is Some),
            final(self).tasks@ == tasks_without(old(self).tasks@, name@),
            final(self).profiles == old(self).profiles,
            final(self).active_profile == old(self).active_profile,
            final(self).default_profile == old(self).default_profile,
            final(self).agents == old(self).agents,
            final(self).default_agent == old(self).default_agent,
            final(self).claude_executable == old(self).claude_executable,
            final(self).mcp_servers == old(self).mcp_servers,
    {
        let ghost orig = self.tasks@;
        let mut kept: Vec<Task> = Vec::new();
        let mut found = false;
        while self.tasks.len() > 0
            invariant
                self.profiles == old(self).profiles,
                self.active_profile == old(self).active_profile,
                self.default_profile == old(self).default_profile,
                self.agents == old(self).agents,
                self.default_agent == old(self).default_agent,
                self.claude_executable == old(self).claude_executable,
                self.mcp_servers == old(self).mcp_servers,
                tasks_without(orig, name@) == kept@ + tasks_without(self.tasks@, name@),
                found ==> find_task(orig, name@) is Some,
                !found ==> find_task(orig, name@) == find_task(self.tasks@, name@),
            decreases self.tasks.len(),
        {
            let ghost before = self.tasks@;
            let t = self.tasks.remove(0);
            proof {
                assert(before.drop_first() =~= self.tasks@);
            }
            if str_eq(t.name.as_str(), name) {
                found = true;
            } else {
                proof {
                    assert((kept@ + seq![t]) + tasks_without(self.tasks@, name@) =~= kept@ + (
                    seq![t] + tasks_without(self.tasks@, name@)));
                }
                kept.push(t);
            }
        }
        proof {
            assert(kept@ + tasks_without(self.tasks@, name@) =~= kept@);
        }
        self.tasks = kept;
        found
    }

    /// The stored task named `name`, if any.
    #[verifier::loop_isolation(false)]
    pub fn get_task(&self, name: &str) -> (r: Option<&Task>)
        ensures
            match r {
                Some(t) => find_task(self.tasks@, name@) == Some(*t),
                None => find_task(self.tasks@, name@) is None,
            },
    {
        let n = self.tasks.len();
        let mut i: usize = 0;
        proof {
            assert(self.profiles@.skip(0) =~= self.profiles@);
            assert(self.agents@.skip(0) =~= self.agents@);
            assert(self.tasks@.skip(0) =~= self.tasks@);
            assert(self.mcp_servers@.skip(0) =~= self.mcp_servers@);
        }
        while i < n
            invariant
                i <= n,
                n == self.tasks.len(),
                find_task(self.tasks@, name@) == find_task(self.tasks@.skip(i as int), name@),
            decreases n - i,
        {
            proof {
                assert(self.tasks@.skip(i as int)[0] == self.tasks@[i as int]);
                assert(self.tasks@.skip(i as int).drop_first() =~= self.tasks@.skip(i as int + 1));
            }
            if str_eq(self.tasks[i].name.as_str(), name) {
                return Some(&self.tasks[i]);
            }
            i += 1;
        }
        proof {
            assert(self.tasks@.skip(n as int).len() == 0);
        }
        None
    }

    /// Mark the agent named `name` as default, if it exists; reports
    /// whether it did.
    #[verifier::loop_isolation(false)]
    pub fn set_default_agent(&mut self, name: &str) -> (r: bool)
        ensures
            r == (find_agent(old(self).agents@, name@) is Some),
            r ==> (final(self).default_agent matches Some(n) && n@ == name@),
            !r ==> *final(self) == *old(self),
            final(self).profiles == old(self).profiles,
            final(self).active_profile == old(self).active_profile,
            final(self).default_profile == old(self).default_profile,
            final(self).agents == old(self).agents,
            final(self).tasks == old(self).tasks,
            final(self).claude_executable == old(self).claude_executable,
            final(self).mcp_servers == old(self).mcp_servers,
    {
        let n = self.agents.len();
        let mut i: usize = 0;
        proof {
            assert(self.profiles@.skip(0) =~= self.profiles@);
            assert(self.agents@.skip(0) =~= self.agents@);
            assert(self.tasks@.skip(0) =~= self.tasks@);
            assert(self.mcp_servers@.skip(0) =~= self.mcp_servers@);
        }
        while i < n
            invariant
                i <= n,
                n == self.agents.len(),
                *self == *old(self),
                find_agent(self.agents@, name@) == find_agent(self.agents@.skip(i as int), name@),
            decreases n - i,
        {
            proof {
                assert(self.agents@.skip(i as int)[0] == self.agents@[i as int]);
                assert(self.agents@.skip(i as int).drop_first() =~= self.agents@.skip(
                    i as int + 1,
                ));
            }
            if str_eq(self.agents[i].name.as_str(), name) {
                self.default_agent = Some(String::from_str(name));
                return true;
            }
            i += 1;
        }
        proof {
            assert(self.agents@.skip(n as int).len() == 0);
        }
        false
    }

    /// Clear the default agent selection.
    pub fn clear_default_agent(&mut self)
        ensures
            final(self).default_agent is None,
            final(self).profiles == old(self).profiles,
            final(self).active_profile == old(self).active_profile,
            final(self).default_profile == old(self).default_profile,
            final(self).agents == old(self).agents,
            final(self).tasks == old(self).tasks,
            final(self).claude_executable == old(self).claude_executable,
            final(self).mcp_servers == old(self).mcp_servers,
    {
        self.default_agent = None;
    }

    /// The default agent, if one is selected and stored.
    #[verifier::loop_isolation(false)]
    pub fn get_default_agent(&self) -> (r: Option<&Agent>)
        ensures
            match r {
                Some(a) => self.spec_default_agent() == Some(*a),
                None => self.spec_default_agent() is None,
            },
    {
        let name = match &self.default_agent {
            Some(n) => n,
            None => { return None },
        };
        let n = self.agents.len();
        let mut i: usize = 0;
        proof {
            assert(self.profiles@.skip(0) =~= self.profiles@);
            assert(self.agents@.skip(0) =~= self.agents@);
            assert(self.tasks@.skip(0) =~= self.tasks@);
            assert(self.mcp_servers@.skip(0) =~= self.mcp_servers@);
        }
        while i < n
            invariant
                i <= n,
                n == self.agents.len(),
                find_agent(self.agents@, name@) == find_agent(self.agents@.skip(i as int), name@),
            decreases n - i,
        {
            proof {
                assert(self.agents@.skip(i as int)[0] == self.agents@[i as int]);
                assert(self.agents@.skip(i as int).drop_first() =~= self.agents@.skip(
                    i as int + 1,
                ));
            }
            if str_eq(self.agents[i].name.as_str(), name.as_str()) {
                return Some(&self.agents[i]);
            }
            i += 1;
        }
        proof {
            assert(self.agents@.skip(n as int).len() == 0);
        }
        None
    }

    /// The configured generation executable, or its conventional name when
    /// none is configured.
    pub fn get_claude_executable(&self) -> (r: String)
        ensures
            r@ == match self.claude_executable {
                Some(s) => s@,
                None => "agent"@,
            },
    {
        match &self.claude_executable {
            Some(s) => s.clone(),
            None => String::from_str("agent"),
        }
    }

    /// Store `server`, replacing any server of the same name.
    #[verifier::loop_isolation(false)]
    pub fn add_mcp_server(&mut self, server: McpServer)
        ensures
            final(self).mcp_servers@ == mcp_without(old(self).mcp_servers@, server.name@) + seq![
                server,
            ],
            final(self).profiles == old(self).profiles,
            final(self).active_profile == old(self).active_profile,
            final(self).default_profile == old(self).default_profile,
            final(self).agents == old(self).agents,
            final(self).tasks == old(self).tasks,
            final(self).default_agent == old(self).default_agent,
            final(self).claude_executable == old(self).claude_executable,
    {
        let ghost orig = self.mcp_servers@;
        let ghost nm = server.name@;
        let mut kept: Vec<McpServer> = Vec::new();
        while self.mcp_servers.len() > 0
            invariant
                self.profiles == old(self).profiles,
                self.active_profile == old(self).active_profile,
                self.default_profile == old(self).default_profile,
                self.agents == old(self).agents,
                self.tasks == old(self).tasks,
                self.default_agent == old(self).default_agent,
                self.claude_executable == old(self).claude_executable,
                mcp_without(orig, nm) == kept@ + mcp_without(self.mcp_servers@, nm),
            decreases self.mcp_servers.len(),
        {
            let ghost before = self.mcp_servers@;
            let s = self.mcp_servers.remove(0);
            proof {
                assert(before.drop_first() =~= self.mcp_servers@);
            }
            if str_eq(s.name.as_str(), server.name.as_str()) {
            } else {
                proof {
                    assert((kept@ + seq![s]) + mcp_without(self.mcp_servers@, nm) =~= kept@ + (
                    seq![s] + mcp_without(self.mcp_servers@, nm)));
                }
                kept.push(s);
            }
        }
        proof {
            assert(kept@ + mcp_without(self.mcp_servers@, nm) =~= kept@);
        }
        kept.push(server);
        proof {
            assert(kept@ =~= mcp_without(orig, nm) + seq![kept@[kept@.len() - 1]]);
        }
        self.mcp_servers = kept;
    }

    /// Remove every server named `name`; reports whether any was removed.
    #[verifier::loop_isolation(false)]
    pub fn delete_mcp_server(&mut self, name: &str) -> (removed: bool)
        ensures
            removed == (find_mcp(old(self).mcp_servers@, name@) is Some),
            final(self).mcp_servers@ == mcp_without(old(self).mcp_servers@, name@),
            final(self).profiles == old(self).profiles,
            final(self).active_profile == old(self).active_profile,
            final(self).default_profile == old(self).default_profile,
            final(self).agents == old(self).agents,
            final(self).tasks == old(self).tasks,
            final(self).default_agent == old(self).default_agent,
            final(self).claude_executable == old(self).claude_executable,
    {
        let ghost orig = self.mcp_servers@;
        let mut kept: Vec<McpServer> = Vec::new();
        let mut found = false;
        while self.mcp_servers.len() > 0
            invariant
                self.profiles == old(self).profiles,
                self.active_profile == old(self).active_profile,
                self.default_profile == old(self).default_profile,
                self.agents == old(self).agents,
                self.tasks == old(self).tasks,
                self.default_agent == old(self).default_agent,
                self.claude_executable == old(self).claude_executable,
                mcp_without(orig, name@) == kept@ + mcp_without(self.mcp_servers@, name@),
                found ==> find_mcp(orig, name@) is Some,
                !found ==> find_mcp(orig, name@) == find_mcp(self.mcp_servers@, name@),
            decreases self.mcp_servers.len(),
        {
            let ghost before = self.mcp_servers@;
            let s = self.mcp_servers.remove(0);
            proof {
                assert(before.drop_first() =~= self.mcp_servers@);
            }
            if str_eq(s.name.as_str(), name) {
                found = true;
            } else {
                proof {
                    assert((kept@ + seq![s]) + mcp_without(self.mcp_servers@, name@) =~= kept@ + (
                    seq![s] + mcp_without(self.mcp_servers@, name@)));
                }
                kept.push(s);
            }
        }
        proof {
            assert(kept@ + mcp_without(self.mcp_servers@, name@) =~= kept@);
        }
        self.mcp_servers = kept;
        found
    }

    /// The stored server named `name`, if any.
    #[verifier::loop_isolation(false)]
    pub fn get_mcp_server(&self, name: &str) -> (r: Option<&McpServer>)
        ensures
            match r {
                Some(s) => find_mcp(self.mcp_servers@, name@) == Some(*s),
                None => find_mcp(self.mcp_servers@, name@) is None,
            },
    {
        let n = self.mcp_servers.len();
        let mut i: usize = 0;
        proof {
            assert(self.profiles@.skip(0) =~= self.profiles@);
            assert(self.agents@.skip(0) =~= self.agents@);
            assert(self.tasks@.skip(0) =~= self.tasks@);
            assert(self.mcp_servers@.skip(0) =~= self.mcp_servers@);
        }
        while i < n
            invariant
                i <= n,
                n == self.mcp_servers.len(),
                find_mcp(self.mcp_servers@, name@) == find_mcp(
                    self.mcp_servers@.skip(i as int),
                    name@,
                ),
            decreases n - i,
        {
            proof {
                assert(self.mcp_servers@.skip(i as int)[0] == self.mcp_servers@[i as int]);
                assert(self.mcp_servers@.skip(i as int).drop_first() =~= self.mcp_servers@.skip(
                    i as int + 1,
                ));
            }
            if str_eq(self.mcp_servers[i].name.as_str(), name) {
                return Some(&self.mcp_servers[i]);
            }
            i += 1;
        }
        proof {
            assert(self.mcp_servers@.skip(n as int).len() == 0);
        }
        None
    }
}

} // verus!
