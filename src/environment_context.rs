//! The environment context message: the working directory, the shell and the
//! workspace metadata of a turn, rendered as a small XML block.
use vstd::prelude::*;
use crate::active_turn::TurnContext;

verus! {

pub const ENVIRONMENT_CONTEXT_OPEN_TAG: &'static str = "<environment_context>";

pub const ENVIRONMENT_CONTEXT_CLOSE_TAG: &'static str = "</environment_context>";

#[derive(Clone, Copy, Debug, PartialEq, Eq, Structural)]
pub enum ShellType {
    Zsh,
    Bash,
    PowerShell,
    Sh,
    Cmd,
}

#[derive(Clone, Debug, PartialEq, Eq)]
pub struct Shell {
    pub shell_type: ShellType,
    pub shell_path: String,
}

pub open spec fn shell_name(t: ShellType) -> Seq<char> {
    match t {
        ShellType::Zsh => "zsh"@,
        ShellType::Bash => "bash"@,
        ShellType::PowerShell => "powershell"@,
        ShellType::Sh => "sh"@,
        ShellType::Cmd => "cmd"@,
    }
}

impl Shell {
    pub fn name(&self) -> (r: String)
        ensures
            r@ == shell_name(self.shell_type),
    {
        match self.shell_type {
            ShellType::Zsh => "zsh".to_owned(),
            ShellType::Bash => "bash".to_owned(),
            ShellType::PowerShell => "powershell".to_owned(),
            ShellType::Sh => "sh".to_owned(),
            ShellType::Cmd => "cmd".to_owned(),
        }
    }

    /// A copy of the shell description.
    pub fn duplicate(&self) -> (r: Shell)
        ensures
            r.shell_type == self.shell_type,
            r.shell_path@ == self.shell_path@,
    {
        Shell { shell_type: self.shell_type, shell_path: self.shell_path.clone() }
    }
}

#[derive(Clone, Debug, PartialEq, Eq)]
pub struct WorkspaceEntry {
    pub hint: String,
    /// Remote names and URLs, in name order.
    pub associated_remote_urls: Option<Vec<(String, String)>>,
    pub latest_git_commit_hash: Option<String>,
}

#[derive(Clone, Debug, PartialEq, Eq)]
pub struct WorkspaceConfiguration {
    /// Workspaces by path, in path order.
    pub workspaces: Vec<(String, WorkspaceEntry)>,
}

#[derive(Clone, Debug, PartialEq, Eq)]
pub struct EnvironmentContext {
    pub cwd: Option<String>,
    pub shell: Shell,
    pub workspace_configuration: Option<WorkspaceConfiguration>,
}

pub open spec fn opt_view(s: Option<String>) -> Option<Seq<char>> {
    match s {
        Some(v) => Some(v@),
        None => None,
    }
}

/// Lines joined with a newline between each two.
pub open spec fn join_lines(lines: Seq<Seq<char>>) -> Seq<char>
    decreases lines.len(),
{
    if lines.len() == 0 {
        Seq::empty()
    } else if lines.len() == 1 {
        lines[0]
    } else {
        join_lines(lines.drop_last()) + seq!['\n'] + lines.last()
    }
}

pub open spec fn lines_view(lines: Seq<String>) -> Seq<Seq<char>> {
    lines.map_values(|s: String| s@)
}

pub open spec fn remote_line(name: Seq<char>, url: Seq<char>) -> Seq<char> {
    "        <remote name=\""@ + name + "\">"@ + url + "</remote>"@
}

pub open spec fn remote_lines(urls: Seq<(String, String)>) -> Seq<Seq<char>> {
    urls.map_values(|u: (String, String)| remote_line(u.0@, u.1@))
}

pub open spec fn workspace_lines(path: Seq<char>, ws: WorkspaceEntry) -> Seq<Seq<char>> {
    seq!["    <workspace path=\""@ + path + "\" hint=\""@ + ws.hint@ + "\">"@] + match ws.latest_git_commit_hash {
        Some(h) => seq!["      <latest_git_commit_hash>"@ + h@ + "</latest_git_commit_hash>"@],
        None => Seq::empty(),
    } + match ws.associated_remote_urls {
        Some(urls) => if urls@.len() > 0 {
            seq!["      <associated_remote_urls>"@] + remote_lines(urls@) + seq![
                "      </associated_remote_urls>"@,
            ]
        } else {
            Seq::empty()
        },
        None => Seq::empty(),
    } + seq!["    </workspace>"@]
}

pub open spec fn workspaces_lines(wss: Seq<(String, WorkspaceEntry)>) -> Seq<Seq<char>>
    decreases wss.len(),
{
    if wss.len() == 0 {
        Seq::empty()
    } else {
        workspaces_lines(wss.drop_last()) + workspace_lines(wss.last().0@, wss.last().1)
    }
}

/// The lines of the XML rendering of `ctx`.
pub open spec fn xml_lines(ctx: EnvironmentContext) -> Seq<Seq<char>> {
    seq![ENVIRONMENT_CONTEXT_OPEN_TAG@] + match ctx.cwd {
        Some(c) => seq!["  <cwd>"@ + c@ + "</cwd>"@],
        None => Seq::empty(),
    } + seq!["  <shell>"@ + shell_name(ctx.shell.shell_type) + "</shell>"@]
        + match ctx.workspace_configuration {
        Some(wc) => seq!["  <workspace_configuration>"@] + workspaces_lines(wc.workspaces@) + seq![
            "  </workspace_configuration>"@,
        ],
        None => Seq::empty(),
    } + seq![ENVIRONMENT_CONTEXT_CLOSE_TAG@]
}

fn concat3(a: &str, b: &str, c: &str) -> (r: String)
    ensures
        r@ == a@ + b@ + c@,
{
    let mut r = a.to_owned();
    r.append(b);
    r.append(c);
    r
}

fn concat5(a: &str, b: &str, c: &str, d: &str, e: &str) -> (r: String)
    ensures
        r@ == a@ + b@ + c@ + d@ + e@,
{
    let mut r = concat3(a, b, c);
    r.append(d);
    r.append(e);
    r
}

/// Appends `line` to `lines`.
fn push_line(lines: &mut Vec<String>, line: String)
    ensures
        lines_view(final(lines)@) == lines_view(old(lines)@).push(line@),
{
    lines.push(line);
    assert(lines_view(lines@) =~= lines_view(old(lines)@).push(line@));
}

/// Joins `lines` with newlines.
fn join_with_newlines(lines: &Vec<String>) -> (r: String)
    ensures
        r@ == join_lines(lines_view(lines@)),
{
    let mut r = String::new();
    let mut i: usize = 0;
    while i < lines.len()
        invariant
            i <= lines@.len(),
            r@ == join_lines(lines_view(lines@).take(i as int)),
        decreases lines@.len() - i,
    {
        let ghost pre = lines_view(lines@).take(i as int);
        if i > 0 {
            r.append("\n");
        }
        r.append(lines[i].as_str());
        proof {
            let next = lines_view(lines@).take(i + 1);
            assert(next.drop_last() =~= pre);
            assert(next.last() == lines@[i as int]@);
            if i == 0 {
                assert(r@ =~= next[0]);
            } else {
                reveal_strlit("\n");
                assert(r@ =~= join_lines(pre) + seq!['\n'] + next.last());
            }
        }
        i = i + 1;
    }
    assert(lines_view(lines@).take(lines@.len() as int) =~= lines_view(lines@));
    r
}

/// Appends the lines of one workspace.
fn push_workspace_lines(lines: &mut Vec<String>, path: &String, ws: &WorkspaceEntry)
    ensures
        lines_view(final(lines)@) == lines_view(old(lines)@) + workspace_lines(path@, *ws),
{
    let ghost start = lines_view(lines@);
    push_line(lines, concat5("    <workspace path=\"", path.as_str(), "\" hint=\"", ws.hint.as_str(), "\">"));
    let ghost after_head = lines_view(lines@);
    match &ws.latest_git_commit_hash {
        Some(h) => {
            push_line(lines, concat3("      <latest_git_commit_hash>", h.as_str(), "</latest_git_commit_hash>"));
        },
        None => {},
    }
    let ghost after_hash = lines_view(lines@);
    match &ws.associated_remote_urls {
        Some(urls) => {
            if urls.len() > 0 {
                push_line(lines, "      <associated_remote_urls>".to_owned());
                let ghost base = lines_view(lines@);
                let mut i: usize = 0;
                while i < urls.len()
                    invariant
                        i <= urls@.len(),
                        lines_view(lines@) == base + remote_lines(urls@.take(i as int)),
                    decreases urls@.len() - i,
                {
                    push_line(lines, concat5("        <remote name=\"", urls[i].0.as_str(), "\">", urls[i].1.as_str(), "</remote>"));
                    proof {
                        assert(remote_lines(urls@.take(i + 1)) =~= remote_lines(urls@.take(i as int)).push(
                            remote_line(urls@[i as int].0@, urls@[i as int].1@),
                        ));
                    }
                    i = i + 1;
                }
                assert(urls@.take(urls@.len() as int) =~= urls@);
                push_line(lines, "      </associated_remote_urls>".to_owned());
            }
        },
        None => {},
    }
    push_line(lines, "    </workspace>".to_owned());
    proof {
        assert(lines_view(lines@) =~= start + workspace_lines(path@, *ws));
    }
}

impl EnvironmentContext {
    pub fn new(cwd: Option<String>, shell: Shell, workspace_configuration: Option<WorkspaceConfiguration>) -> (r:
        Self)
        ensures
            r.cwd == cwd,
            r.shell == shell,
            r.workspace_configuration == workspace_configuration,
    {
        EnvironmentContext { cwd, shell, workspace_configuration }
    }

    /// Compares two contexts by their working directories alone; the shell
    /// is fixed for a session and is not compared.
    pub fn equals_except_shell(&self, other: &EnvironmentContext) -> (r: bool)
        ensures
            r == (opt_view(self.cwd) == opt_view(other.cwd)),
    {
        match (&self.cwd, &other.cwd) {
            (Some(a), Some(b)) => *a == *b,
            (None, None) => true,
            _ => false,
        }
    }

    /// The context to announce between two turns: the new working directory
    /// if it changed, and no workspace metadata.
    pub fn diff(before: &TurnContext, after: &TurnContext, shell: &Shell) -> (r: Self)
        ensures
            opt_view(r.cwd) == (if before.cwd@ != after.cwd@ {
                Some(after.cwd@)
            } else {
                None
            }),
            r.shell.shell_type == shell.shell_type,
            r.shell.shell_path@ == shell.shell_path@,
            r.workspace_configuration is None,
    {
        let cwd = if before.cwd != after.cwd {
            Some(after.cwd.clone())
        } else {
            None
        };
        EnvironmentContext::new(cwd, shell.duplicate(), None)
    }

    /// The context of a turn: its working directory, and no workspace metadata.
    pub fn from_turn_context(turn_context: &TurnContext, shell: &Shell) -> (r: Self)
        ensures
            opt_view(r.cwd) == Some(turn_context.cwd@),
            r.shell.shell_type == shell.shell_type,
            r.shell.shell_path@ == shell.shell_path@,
            r.workspace_configuration is None,
    {
        Self::new(Some(turn_context.cwd.clone()), shell.duplicate(), None)
    }

    /// Renders the context as an `<environment_context>` block, one element
    /// per line.
    pub fn serialize_to_xml(self) -> (r: String)
        ensures
            r@ == join_lines(xml_lines(self)),
    {
        let mut lines: Vec<String> = Vec::new();
        push_line(&mut lines, ENVIRONMENT_CONTEXT_OPEN_TAG.to_owned());
        match &self.cwd {
            Some(cwd) => push_line(&mut lines, concat3("  <cwd>", cwd.as_str(), "</cwd>")),
            None => {},
        }
        let shell_name = self.shell.name();
        push_line(&mut lines, concat3("  <shell>", shell_name.as_str(), "</shell>"));
        match &self.workspace_configuration {
            Some(wc) => {
                push_line(&mut lines, "  <workspace_configuration>".to_owned());
                let ghost base = lines_view(lines@);
                let mut i: usize = 0;
                while i < wc.workspaces.len()
                    invariant
                        i <= wc.workspaces@.len(),
                        lines_view(lines@) == base + workspaces_lines(wc.workspaces@.take(i as int)),
                    decreases wc.workspaces@.len() - i,
                {
                    push_workspace_lines(&mut lines, &wc.workspaces[i].0, &wc.workspaces[i].1);
                    proof {
                        let t = wc.workspaces@.take(i + 1);
                        assert(t.drop_last() =~= wc.workspaces@.take(i as int));
                    }
                    i = i + 1;
                }
                assert(wc.workspaces@.take(wc.workspaces@.len() as int) =~= wc.workspaces@);
                push_line(&mut lines, "  </workspace_configuration>".to_owned());
            },
            None => {},
        }
        push_line(&mut lines, ENVIRONMENT_CONTEXT_CLOSE_TAG.to_owned());
        proof {
            assert(lines_view(lines@) =~= xml_lines(self));
        }
        join_with_newlines(&lines)
    }
}

} // verus!
