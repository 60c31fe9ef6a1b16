//! Prompt assembly for the generation collaborator.
//!
//! An agent session holds the configured agent, an optional task template
//! and the conversation history. It assembles the full prompt from the
//! template, the concatenated context files, the history and the question;
//! invoking the external executable with that prompt is the caller's job,
//! as is reading the context files.

use vstd::prelude::*;
use vstd::string::StrSliceExecFns;
use vstd::string::StringExecFns;

use crate::config::Agent;
use crate::config::Task;

verus! {

/// One prior exchange turn.
pub struct Message {
    pub role: String,
    pub content: String,
}

/// The mathematical model of a message.
pub ghost struct MessageModel {
    pub role: Seq<char>,
    pub content: Seq<char>,
}

impl View for Message {
    type V = MessageModel;

    open spec fn view(&self) -> MessageModel {
        MessageModel { role: self.role@, content: self.content@ }
    }
}

/// The prompt preamble used when no task template is configured.
pub open spec fn default_template() -> Seq<char> {
    "Answer the following question by creating new slides that explain and elaborate on the concept."@
}

/// The task's template, or the default preamble.
pub open spec fn spec_template(task: Option<Task>) -> Seq<char> {
    match task {
        Some(t) => t.template@,
        None => default_template(),
    }
}

/// One history turn as it appears in the prompt.
pub open spec fn message_line(m: MessageModel) -> Seq<char> {
    m.role + ": "@ + m.content + "\n\n"@
}

/// The whole conversation history as it appears in the prompt.
pub open spec fn history_concat(h: Seq<MessageModel>) -> Seq<char>
    decreases h.len(),
{
    if h.len() == 0 {
        Seq::empty()
    } else {
        message_line(h[0]) + history_concat(h.drop_first())
    }
}

/// The full prompt: the history (when any), the template, the context, the
/// question, and the closing instruction.
pub open spec fn spec_build_prompt(
    task: Option<Task>,
    history: Seq<MessageModel>,
    question: Seq<char>,
    context: Seq<char>,
) -> Seq<char> {
    let hist = if history.len() > 0 {
        "## Previous Conversation:\n\n"@ + history_concat(history) + "---\n\n"@
    } else {
        Seq::empty()
    };
    hist + spec_template(task) + "\n\nContext:\n"@ + context + "\n\nQuestion: "@ + question
        + "\n\nPlease provide slide content in Markdown format."@
}

/// One context file as it appears in the context text: a header naming the
/// file, then its content.
pub open spec fn context_block(name: Seq<char>, content: Seq<char>) -> Seq<char> {
    "\n\n--- Context from "@ + name + " ---\n"@ + content
}

/// The concatenated context files.
pub open spec fn spec_build_context(files: Seq<(Seq<char>, Seq<char>)>) -> Seq<char>
    decreases files.len(),
{
    if files.len() == 0 {
        Seq::empty()
    } else {
        context_block(files[0].0, files[0].1) + spec_build_context(files.drop_first())
    }
}

/// The context text for a list of files, each given as its path and its
/// content. Reading the files is the caller's job.
#[verifier::loop_isolation(false)]
pub fn build_context(files: &Vec<(String, String)>) -> (r: String)
    ensures
        r@ == spec_build_context(files@.map_values(|p: (String, String)| (p.0@, p.1@))),
{
    let ghost fs = files@.map_values(|p: (String, String)| (p.0@, p.1@));
    let mut out = String::new();
    let n = files.len();
    let mut i: usize = 0;
    proof {
        assert(fs.skip(0) =~= fs);
    }
    while i < n
        invariant
            i <= n,
            n == files.len(),
            spec_build_context(fs) == out@ + spec_build_context(fs.skip(i as int)),
        decreases n - i,
    {
        proof {
            assert(fs.skip(i as int)[0] == fs[i as int]);
            assert(fs.skip(i as int).drop_first() =~= fs.skip(i as int + 1));
        }
        out.append("\n\n--- Context from ");
        out.append(files[i].0.as_str());
        out.append(" ---\n");
        out.append(files[i].1.as_str());
        proof {
            assert(out@ + spec_build_context(fs.skip(i as int + 1)) =~= spec_build_context(fs));
        }
        i += 1;
    }
    proof {
        assert(fs.skip(n as int).len() == 0);
        assert(out@ + spec_build_context(fs.skip(n as int)) =~= out@);
    }
    out
}

/// Drives one conversation with the generation collaborator: holds the
/// external executable's name, the agent, the optional task, and the
/// exchanges so far.
pub struct ClaudeAgent {
    claude_executable: String,
    agent: Agent,
    task: Option<Task>,
    conversation_history: Vec<Message>,
}

impl ClaudeAgent {
    /// The external executable to invoke.
    pub closed spec fn executable_spec(&self) -> Seq<char> {
        self.claude_executable@
    }

    /// The configured agent.
    pub closed spec fn agent_spec(&self) -> Agent {
        self.agent
    }

    /// The configured task, if any.
    pub closed spec fn task_spec(&self) -> Option<Task> {
        self.task
    }

    /// The exchanges so far, oldest first.
    pub closed spec fn history_spec(&self) -> Seq<MessageModel> {
        self.conversation_history@.map_values(|m: Message| m@)
    }

    /// A fresh session with no history.
    pub fn new(claude_executable: String, agent: Agent, task: Option<Task>) -> (s: Self)
        ensures
            s.executable_spec() == claude_executable@,
            s.agent_spec() == agent,
            s.task_spec() == task,
            s.history_spec() == Seq::<MessageModel>::empty(),
    {
        let s = ClaudeAgent { claude_executable, agent, task, conversation_history: Vec::new() };
        proof {
            assert(s.history_spec() =~= Seq::<MessageModel>::empty());
        }
        s
    }

    /// The external executable's name.
    pub fn executable(&self) -> (r: &str)
        ensures
            r@ == self.executable_spec(),
    {
        self.claude_executable.as_str()
    }

    /// The configured agent.
    pub fn agent(&self) -> (r: &Agent)
        ensures
            *r == self.agent_spec(),
    {
        &self.agent
    }

    /// The configured task, if any.
    pub fn task(&self) -> (r: &Option<Task>)
        ensures
            *r == self.task_spec(),
    {
        &self.task
    }

    /// The full prompt for `question` with the given context text: the
    /// conversation so far (when any), the task template or the default
    /// preamble, the context, the question, and the closing instruction.
    #[verifier::loop_isolation(false)]
    pub fn build_prompt(&self, question: &str, context: &str) -> (r: String)
        ensures
            r@ == spec_build_prompt(self.task_spec(), self.history_spec(), question@, context@),
    {
        let ghost h = self.history_spec();
        let mut prompt = String::new();
        if self.conversation_history.len() > 0 {
            prompt.append("## Previous Conversation:\n\n");
            let n = self.conversation_history.len();
            let mut i: usize = 0;
            proof {
                assert(h.skip(0) =~= h);
            }
            while i < n
                invariant
                    i <= n,
                    n == self.conversation_history.len(),
                    "## Previous Conversation:\n\n"@ + history_concat(h) == prompt@
                        + history_concat(h.skip(i as int)),
                decreases n - i,
            {
                proof {
                    assert(h.skip(i as int)[0] == h[i as int]);
                    assert(h.skip(i as int).drop_first() =~= h.skip(i as int + 1));
                }
                let m = &self.conversation_history[i];
                prompt.append(m.role.as_str());
                prompt.append(": ");
                prompt.append(m.content.as_str());
                prompt.append("\n\n");
                proof {
                    assert(prompt@ + history_concat(h.skip(i as int + 1)) =~= (
                    "## Previous Conversation:\n\n"@ + history_concat(h)));
                }
                i += 1;
            }
            proof {
                assert(h.skip(n as int).len() == 0);
                assert(prompt@ + history_concat(h.skip(n as int)) =~= prompt@);
            }
            prompt.append("---\n\n");
        }
        match &self.task {
            Some(t) => prompt.append(t.template.as_str()),
            None => prompt.append(
                "Answer the following question by creating new slides that explain and elaborate on the concept.",
            ),
        }
        prompt.append("\n\nContext:\n");
        prompt.append(context);
        prompt.append("\n\nQuestion: ");
        prompt.append(question);
        prompt.append("\n\nPlease provide slide content in Markdown format.");
        proof {
            assert(prompt@ =~= spec_build_prompt(
                self.task_spec(),
                self.history_spec(),
                question@,
                context@,
            ));
        }
        prompt
    }

    /// Record one completed exchange: the question under the user role and
    /// the response under the assistant role, appended in that order.
    pub fn record_exchange(&mut self, question: &str, response: &str)
        ensures
            final(self).history_spec() == old(self).history_spec() + seq![
                MessageModel { role: "User"@, content: question@ },
                MessageModel { role: "Assistant"@, content: response@ },
            ],
            final(self).executable_spec() == old(self).executable_spec(),
            final(self).agent_spec() == old(self).agent_spec(),
            final(self).task_spec() == old(self).task_spec(),
    {
        self.conversation_history.push(
            Message { role: String::from_str("User"), content: String::from_str(question) },
        );
        self.conversation_history.push(
            Message { role: String::from_str("Assistant"), content: String::from_str(response) },
        );
        proof {
            assert(final(self).history_spec() =~= old(self).history_spec() + seq![
                MessageModel { role: "User"@, content: question@ },
                MessageModel { role: "Assistant"@, content: response@ },
            ]);
        }
    }
}

} // verus!
