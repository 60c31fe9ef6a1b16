//! The agent file format: a frontmatter block fenced between two `---`
//! markers holding `key: value` lines, then the agent's system prompt as
//! the body. Reading and writing the file itself is the caller's job;
//! this module turns the text into an agent and back.

use vstd::prelude::*;
use vstd::string::StrSliceExecFns;
use vstd::string::StringExecFns;

use crate::config::Agent;
use crate::scan::find_from;
use crate::scan::first_occurrence_from;
use crate::scan::lemma_first_occurrence_pinpoint;
use crate::scan::lemma_first_occurrence_spec;
use crate::scan::lemma_occurs_suffix;
use crate::scan::occurs_at;
use crate::scan::split_on_char;
use crate::scan::str_eq;
use crate::scan::trim_spec;
use crate::scan::trim_str;

verus! {

/// Why an agent file fails to parse.
#[derive(Clone, Copy, Debug, PartialEq, Eq, Structural)]
pub enum AgentFileError {
    MissingFrontmatter,
    MissingName,
}

/// The fields the frontmatter assigns.
pub ghost struct FrontmatterModel {
    pub name: Seq<char>,
    pub description: Option<Seq<char>>,
    pub tools: Option<Seq<Seq<char>>>,
    pub model: Option<Seq<char>>,
}

/// Before any line is read: no field assigned.
pub open spec fn empty_frontmatter() -> FrontmatterModel {
    FrontmatterModel { name: Seq::empty(), description: None, tools: None, model: None }
}

/// The view of an optional string.
pub open spec fn opt_str_view(o: Option<String>) -> Option<Seq<char>> {
    match o {
        Some(s) => Some(s@),
        None => None,
    }
}

/// The view of an optional string list.
pub open spec fn opt_tools_view(o: Option<Vec<String>>) -> Option<Seq<Seq<char>>> {
    match o {
        Some(v) => Some(v@.map_values(|s: String| s@)),
        None => None,
    }
}

/// A line's key and value: the parts left and right of the first colon,
/// each trimmed; a line without a colon carries nothing.
pub open spec fn parse_kv(line: Seq<char>) -> Option<(Seq<char>, Seq<char>)> {
    match first_occurrence_from(line, seq![':'], 0) {
        Some(i) => Some(
            (
                trim_spec(line.subrange(0, i)),
                trim_spec(line.subrange(i + 1, line.len() as int)),
            ),
        ),
        None => None,
    }
}

/// A tools value: the comma-separated entries, each trimmed.
pub open spec fn parse_tools_spec(v: Seq<char>) -> Seq<Seq<char>> {
    split_on_char(v, ',').map_values(|p: Seq<char>| trim_spec(p))
}

/// One frontmatter line applied to the state: a known key assigns its
/// field, later lines overriding earlier ones; anything else changes
/// nothing.
pub open spec fn fm_step(st: FrontmatterModel, line: Seq<char>) -> FrontmatterModel {
    match parse_kv(line) {
        Some(kv) => {
            let k = kv.0;
            let v = kv.1;
            if k == "name"@ {
                FrontmatterModel {
                    name: v,
                    description: st.description,
                    tools: st.tools,
                    model: st.model,
                }
            } else if k == "description"@ {
                FrontmatterModel {
                    name: st.name,
                    description: Some(v),
                    tools: st.tools,
                    model: st.model,
                }
            } else if k == "tools"@ {
                FrontmatterModel {
                    name: st.name,
                    description: st.description,
                    tools: Some(parse_tools_spec(v)),
                    model: st.model,
                }
            } else if k == "model"@ {
                FrontmatterModel {
                    name: st.name,
                    description: st.description,
                    tools: st.tools,
                    model: Some(v),
                }
            } else {
                st
            }
        },
        None => st,
    }
}

/// The frontmatter lines applied in order.
pub open spec fn fm_fold(lines: Seq<Seq<char>>, st: FrontmatterModel) -> FrontmatterModel
    decreases lines.len(),
{
    if lines.len() == 0 {
        st
    } else {
        fm_fold(lines.drop_first(), fm_step(st, lines[0]))
    }
}

/// The fields a frontmatter text assigns.
pub open spec fn spec_parse_frontmatter(fm: Seq<char>) -> FrontmatterModel {
    fm_fold(split_on_char(fm, '\n'), empty_frontmatter())
}

/// The file's two parts: the trimmed text between the first two `---`
/// markers, and the trimmed text after the second. A file without two
/// markers has no frontmatter.
pub open spec fn spec_agent_file_split(content: Seq<char>) -> Option<(Seq<char>, Seq<char>)> {
    match first_occurrence_from(content, "---"@, 0) {
        Some(i1) => match first_occurrence_from(content, "---"@, i1 + 3) {
            Some(i2) => Some(
                (
                    trim_spec(content.subrange(i1 + 3, i2)),
                    trim_spec(content.subrange(i2 + 3, content.len() as int)),
                ),
            ),
            None => None,
        },
        None => None,
    }
}

/// A comma-joined list: the entries separated by a comma and a space.
pub open spec fn join_rest(v: Seq<Seq<char>>) -> Seq<char>
    decreases v.len(),
{
    if v.len() == 0 {
        Seq::empty()
    } else {
        ", "@ + v[0] + join_rest(v.drop_first())
    }
}

/// A comma-joined list: the entries separated by a comma and a space.
pub open spec fn spec_join_comma(v: Seq<Seq<char>>) -> Seq<char> {
    if v.len() == 0 {
        Seq::empty()
    } else {
        v[0] + join_rest(v.drop_first())
    }
}

/// The rendered agent file: the frontmatter with whichever fields the
/// agent has, in a fixed order, then a blank line and the system prompt.
pub open spec fn spec_render_agent(a: Agent) -> Seq<char> {
    "---\nname: "@ + a.name@ + "\n"@ + (match a.description {
        Some(d) => "description: "@ + d@ + "\n"@,
        None => Seq::empty(),
    }) + (match a.tools {
        Some(ts) => "tools: "@ + spec_join_comma(ts@.map_values(|s: String| s@)) + "\n"@,
        None => Seq::empty(),
    }) + (match a.model {
        Some(m) => "model: "@ + m@ + "\n"@,
        None => Seq::empty(),
    }) + "---\n\n"@ + a.system_prompt@ + "\n"@
}

/// The entries of a tools value, each trimmed, in order.
#[verifier::loop_isolation(false)]
fn parse_tools(value: &str) -> (r: Vec<String>)
    ensures
        r@.map_values(|s: String| s@) == parse_tools_spec(value@),
{
    proof {
        reveal_strlit(",");
        assert(","@ =~= seq![',']);
    }
    let n = value.unicode_len();
    let mut out: Vec<String> = Vec::new();
    let mut p: usize = 0;
    proof {
        assert(value@.subrange(0, n as int) =~= value@);
    }
    loop
        invariant
            p <= n,
            parse_tools_spec(value@) == out@.map_values(|s: String| s@) + split_on_char(
                value@.subrange(p as int, n as int),
                ',',
            ).map_values(|q: Seq<char>| trim_spec(q)),
        decreases n + 1 - p,
    {
        let ghost suffix = value@.subrange(p as int, n as int);
        match find_from(value, ",", p) {
            Some(q) => {
                proof {
                    lemma_first_occurrence_spec(value@, ","@, p as int);
                    assert forall|j: int| 0 <= j < q - p implies !occurs_at(suffix, seq![','], j) by {
                        lemma_occurs_suffix(value@, seq![','], p as int, j);
                    }
                    lemma_occurs_suffix(value@, seq![','], p as int, q as int - p);
                    lemma_first_occurrence_pinpoint(suffix, seq![','], 0, q as int - p);
                    assert(split_on_char(suffix, ',') == seq![suffix.subrange(0, q as int - p)]
                        + split_on_char(suffix.subrange(q as int - p + 1, suffix.len() as int), ','));
                    assert(suffix.subrange(0, q as int - p) =~= value@.subrange(p as int, q as int));
                    assert(suffix.subrange(q as int - p + 1, suffix.len() as int) =~= value@.subrange(
                        q as int + 1,
                        n as int,
                    ));
                }
                let piece = value.substring_char(p, q);
                let entry = trim_str(piece);
                proof {
                    let f = |s: String| s@;
                    let g = |qq: Seq<char>| trim_spec(qq);
                    assert(out@.push(entry).map_values(f) =~= out@.map_values(f) + seq![entry@]);
                    assert(split_on_char(suffix, ',').map_values(g) =~= seq![entry@]
                        + split_on_char(value@.subrange(q as int + 1, n as int), ',').map_values(g));
                    assert((out@.map_values(f) + seq![entry@]) + split_on_char(
                        value@.subrange(q as int + 1, n as int),
                        ',',
                    ).map_values(g) =~= out@.map_values(f) + (seq![entry@] + split_on_char(
                        value@.subrange(q as int + 1, n as int),
                        ',',
                    ).map_values(g)));
                }
                out.push(entry);
                p = q + 1;
            },
            None => {
                proof {
                    lemma_first_occurrence_spec(value@, ","@, p as int);
                    assert forall|j: int| 0 <= j implies !occurs_at(suffix, seq![','], j) by {
                        lemma_occurs_suffix(value@, seq![','], p as int, j);
                    }
                    lemma_first_occurrence_spec(suffix, seq![','], 0);
                    match first_occurrence_from(suffix, seq![','], 0) {
                        Some(i) => {
                            assert(!occurs_at(suffix, seq![','], i));
                        },
                        None => {},
                    }
                    assert(split_on_char(suffix, ',') == seq![suffix]);
                }
                let piece = value.substring_char(p, n);
                let entry = trim_str(piece);
                proof {
                    let f = |s: String| s@;
                    let g = |qq: Seq<char>| trim_spec(qq);
                    assert(out@.push(entry).map_values(f) =~= out@.map_values(f) + seq![entry@]);
                    assert(split_on_char(suffix, ',').map_values(g) =~= seq![entry@]);
                }
                out.push(entry);
                return out;
            },
        }
    }
}

/// The frontmatter state while lines are read.
struct FmBuilder {
    name: String,
    description: Option<String>,
    tools: Option<Vec<String>>,
    model: Option<String>,
}

impl View for FmBuilder {
    type V = FrontmatterModel;

    closed spec fn view(&self) -> FrontmatterModel {
        FrontmatterModel {
            name: self.name@,
            description: opt_str_view(self.description),
            tools: opt_tools_view(self.tools),
            model: opt_str_view(self.model),
        }
    }
}

impl FmBuilder {
    fn apply_line(&mut self, line: &str)
        ensures
            final(self)@ == fm_step(old(self)@, line@),
    {
        proof {
            reveal_strlit(":");
            assert(":"@ =~= seq![':']);
        }
        let ln = line.unicode_len();
        match find_from(line, ":", 0) {
            Some(ci) => {
                proof {
                    lemma_first_occurrence_spec(line@, ":"@, 0);
                }
                let key = trim_str(line.substring_char(0, ci));
                let value = trim_str(line.substring_char(ci + 1, ln));
                if str_eq(key.as_str(), "name") {
                    self.name = value;
                } else if str_eq(key.as_str(), "description") {
                    self.description = Some(value);
                } else if str_eq(key.as_str(), "tools") {
                    let ts = parse_tools(value.as_str());
                    self.tools = Some(ts);
                } else if str_eq(key.as_str(), "model") {
                    self.model = Some(value);
                }
            },
            None => {},
        }
    }
}

/// The frontmatter fields assigned by `fm`.
#[verifier::loop_isolation(false)]
fn parse_frontmatter(fm: &str) -> (r: FmBuilder)
    ensures
        r@ == spec_parse_frontmatter(fm@),
{
    proof {
        reveal_strlit("\n");
        assert("\n"@ =~= seq!['\n']);
    }
    let n = fm.unicode_len();
    let mut b = FmBuilder { name: String::new(), description: None, tools: None, model: None };
    proof {
        assert(b@ == empty_frontmatter());
        assert(fm@.subrange(0, n as int) =~= fm@);
    }
    let mut p: usize = 0;
    loop
        invariant
            p <= n,
            spec_parse_frontmatter(fm@) == fm_fold(
                split_on_char(fm@.subrange(p as int, n as int), '\n'),
                b@,
            ),
        decreases n + 1 - p,
    {
        let ghost suffix = fm@.subrange(p as int, n as int);
        match find_from(fm, "\n", p) {
            Some(q) => {
                proof {
                    lemma_first_occurrence_spec(fm@, "\n"@, p as int);
                    assert forall|j: int| 0 <= j < q - p implies !occurs_at(
                        suffix,
                        seq!['\n'],
                        j,
                    ) by {
                        lemma_occurs_suffix(fm@, seq!['\n'], p as int, j);
                    }
                    lemma_occurs_suffix(fm@, seq!['\n'], p as int, q as int - p);
                    lemma_first_occurrence_pinpoint(suffix, seq!['\n'], 0, q as int - p);
                    assert(split_on_char(suffix, '\n') == seq![suffix.subrange(0, q as int - p)]
                        + split_on_char(
                        suffix.subrange(q as int - p + 1, suffix.len() as int),
                        '\n',
                    ));
                    assert(suffix.subrange(0, q as int - p) =~= fm@.subrange(p as int, q as int));
                    assert(suffix.subrange(q as int - p + 1, suffix.len() as int) =~= fm@.subrange(
                        q as int + 1,
                        n as int,
                    ));
                    assert((seq![fm@.subrange(p as int, q as int)] + split_on_char(
                        fm@.subrange(q as int + 1, n as int),
                        '\n',
                    )).drop_first() =~= split_on_char(fm@.subrange(q as int + 1, n as int), '\n'));
                }
                let line = fm.substring_char(p, q);
                b.apply_line(line);
                p = q + 1;
            },
            None => {
                proof {
                    lemma_first_occurrence_spec(fm@, "\n"@, p as int);
                    assert forall|j: int| 0 <= j implies !occurs_at(suffix, seq!['\n'], j) by {
                        lemma_occurs_suffix(fm@, seq!['\n'], p as int, j);
                    }
                    lemma_first_occurrence_spec(suffix, seq!['\n'], 0);
                    match first_occurrence_from(suffix, seq!['\n'], 0) {
                        Some(i) => {
                            assert(!occurs_at(suffix, seq!['\n'], i));
                        },
                        None => {},
                    }
                    assert(split_on_char(suffix, '\n') == seq![suffix]);
                    assert((seq![suffix]).drop_first() =~= Seq::<Seq<char>>::empty());
                }
                let ghost pre = b@;
                let line = fm.substring_char(p, n);
                b.apply_line(line);
                proof {
                    assert(seq![suffix][0] == suffix);
                    assert(fm_fold(seq![suffix], pre) == fm_fold(
                        (seq![suffix]).drop_first(),
                        fm_step(pre, suffix),
                    ));
                    assert(fm_fold(Seq::<Seq<char>>::empty(), fm_step(pre, suffix)) == fm_step(
                        pre,
                        suffix,
                    ));
                }
                return b;
            },
        }
    }
}

/// Parse an agent file: the text between the first two `---` markers is
/// the frontmatter, whose `name`, `description`, `tools` and `model`
/// lines fill the agent; the trimmed text after the second marker is the
/// system prompt. A file without two markers has no frontmatter; a
/// frontmatter that assigns no name names no agent. Context files are
/// never read from the file.
pub fn parse_agent_markdown(content: &str) -> (r: Result<Agent, AgentFileError>)
    ensures
        match spec_agent_file_split(content@) {
            Some(parts) => {
                let st = spec_parse_frontmatter(parts.0);
                if st.name.len() > 0 {
                    r matches Ok(a) && a.name@ == st.name && opt_str_view(a.description)
                        == st.description && a.system_prompt@ == parts.1 && a.context_files@.len()
                        == 0 && opt_tools_view(a.tools) == st.tools && opt_str_view(a.model)
                        == st.model
                } else {
                    r == Err::<Agent, AgentFileError>(AgentFileError::MissingName)
                }
            },
            None => r == Err::<Agent, AgentFileError>(AgentFileError::MissingFrontmatter),
        },
{
    proof {
        reveal_strlit("---");
    }
    let n = content.unicode_len();
    let i1 = match find_from(content, "---", 0) {
        Some(i) => i,
        None => { return Err(AgentFileError::MissingFrontmatter) },
    };
    proof {
        lemma_first_occurrence_spec(content@, "---"@, 0);
    }
    let i2 = match find_from(content, "---", i1 + 3) {
        Some(i) => i,
        None => { return Err(AgentFileError::MissingFrontmatter) },
    };
    proof {
        lemma_first_occurrence_spec(content@, "---"@, i1 as int + 3);
    }
    let fm = trim_str(content.substring_char(i1 + 3, i2));
    let body = trim_str(content.substring_char(i2 + 3, n));
    let b = parse_frontmatter(fm.as_str());
    if b.name.as_str().unicode_len() == 0 {
        return Err(AgentFileError::MissingName);
    }
    Ok(
        Agent {
            name: b.name,
            description: b.description,
            system_prompt: body,
            context_files: Vec::new(),
            tools: b.tools,
            model: b.model,
        },
    )
}

/// The comma-joined tools list.
#[verifier::loop_isolation(false)]
fn join_comma(v: &Vec<String>) -> (r: String)
    ensures
        r@ == spec_join_comma(v@.map_values(|s: String| s@)),
{
    let ghost vm = v@.map_values(|s: String| s@);
    if v.len() == 0 {
        let r = String::new();
        proof {
            assert(r@ =~= spec_join_comma(vm));
        }
        return r;
    }
    let mut out = v[0].clone();
    let mut i: usize = 1;
    proof {
        assert(vm.drop_first() =~= vm.skip(1));
    }
    while i < v.len()
        invariant
            1 <= i <= v.len(),
            vm == v@.map_values(|s: String| s@),
            spec_join_comma(vm) == out@ + join_rest(vm.skip(i as int)),
        decreases v.len() - i,
    {
        proof {
            assert(vm.skip(i as int)[0] == vm[i as int]);
            assert(vm.skip(i as int).drop_first() =~= vm.skip(i as int + 1));
        }
        out.append(", ");
        out.append(v[i].as_str());
        proof {
            assert(out@ + join_rest(vm.skip(i as int + 1)) =~= spec_join_comma(vm));
        }
        i += 1;
    }
    proof {
        assert(vm.skip(v@.len() as int).len() == 0);
        assert(out@ + join_rest(vm.skip(v@.len() as int)) =~= out@);
    }
    out
}

/// Render an agent as an agent file: the frontmatter holds the name and
/// whichever optional fields the agent has, then a blank line and the
/// system prompt.
pub fn render_agent_markdown(a: &Agent) -> (r: String)
    ensures
        r@ == spec_render_agent(*a),
{
    let mut out = String::from_str("---\nname: ");
    out.append(a.name.as_str());
    out.append("\n");
    match &a.description {
        Some(d) => {
            out.append("description: ");
            out.append(d.as_str());
            out.append("\n");
        },
        None => {},
    }
    match &a.tools {
        Some(ts) => {
            out.append("tools: ");
            let joined = join_comma(ts);
            out.append(joined.as_str());
            out.append("\n");
        },
        None => {},
    }
    match &a.model {
        Some(m) => {
            out.append("model: ");
            out.append(m.as_str());
            out.append("\n");
        },
        None => {},
    }
    out.append("---\n\n");
    out.append(a.system_prompt.as_str());
    out.append("\n");
    proof {
        assert(out@ =~= spec_render_agent(*a));
    }
    out
}

} // verus!
