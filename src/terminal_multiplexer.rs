//! Command lines that open a forked session in a new pane of a terminal
//! multiplexer (Zellij or tmux), and the placements each one supports.
use vstd::prelude::*;

verus! {

pub const TMUX_FLOAT_UNSUPPORTED_MESSAGE: &'static str = "tmux does not support /fork float.";

pub const ZELLIJ_UNSUPPORTED_MESSAGE: &'static str = "Zellij only supports /fork [right|down|float].";

pub const FORK_PLACEMENT_REQUIRES_MULTIPLEXER_MESSAGE: &'static str =
    "Fork pane placement requires a terminal multiplexer.";

#[derive(Clone, Copy, Debug, PartialEq, Eq, Structural)]
pub enum ForkPanePlacement {
    Left,
    Right,
    Up,
    Down,
    Float,
}

#[derive(Clone, Copy, Debug, PartialEq, Eq, Structural)]
pub enum Multiplexer {
    Zellij,
    Tmux,
}

pub struct MultiplexerSpawnConfig {
    pub program: &'static str,
    pub args: Vec<String>,
    pub description: &'static str,
}

pub open spec fn words_view(words: Seq<String>) -> Seq<Seq<char>> {
    words.map_values(|w: String| w@)
}

/// What `shlex::try_join` makes of a list of words.
pub uninterp spec fn shell_quoted_join(words: Seq<Seq<char>>) -> Seq<char>;

pub open spec fn has_nul(words: Seq<Seq<char>>) -> bool {
    exists|i: int| 0 <= i < words.len() && words[i].contains('\0')
}

/// Relies on `shlex::try_join`: the words are quoted for a POSIX shell and
/// joined; the one error it reports is a word that holds a nul character.
#[verifier::external_body]
fn try_shell_join(words: &[String]) -> (r: Option<String>)
    ensures
        r is None <==> has_nul(words_view(words@)),
        r matches Some(s) ==> s@ == shell_quoted_join(words_view(words@)),
{
    shlex::try_join(words.iter().map(String::as_str)).ok()
}

/// Words joined with one space between each two.
pub open spec fn join_spaces(words: Seq<Seq<char>>) -> Seq<char>
    decreases words.len(),
{
    if words.len() == 0 {
        Seq::empty()
    } else if words.len() == 1 {
        words[0]
    } else {
        join_spaces(words.drop_last()) + seq![' '] + words.last()
    }
}

fn join_with_spaces(words: &[String]) -> (r: String)
    ensures
        r@ == join_spaces(words_view(words@)),
{
    let mut r = String::new();
    let mut i: usize = 0;
    while i < words.len()
        invariant
            i <= words@.len(),
            r@ == join_spaces(words_view(words@).take(i as int)),
        decreases words@.len() - i,
    {
        let ghost pre = words_view(words@).take(i as int);
        if i > 0 {
            r.append(" ");
        }
        r.append(words[i].as_str());
        proof {
            let next = words_view(words@).take(i + 1);
            assert(next.drop_last() =~= pre);
            assert(next.last() == words@[i as int]@);
            if i == 0 {
                assert(r@ =~= next[0]);
            } else {
                reveal_strlit(" ");
                assert(r@ =~= join_spaces(pre) + seq![' '] + next.last());
            }
        }
        i = i + 1;
    }
    assert(words_view(words@).take(words@.len() as int) =~= words_view(words@));
    r
}

pub open spec fn resume_command_spec(exe: Seq<char>, thread_id: Seq<char>) -> Seq<Seq<char>> {
    seq![exe, "resume"@, thread_id]
}

/// The command that resumes `thread_id` with the executable `exe`.
pub fn resume_command_parts(exe: &str, thread_id: &str) -> (r: Vec<String>)
    ensures
        words_view(r@) == resume_command_spec(exe@, thread_id@),
{
    let r = vec![exe.to_owned(), "resume".to_owned(), thread_id.to_owned()];
    assert(words_view(r@) =~= resume_command_spec(exe@, thread_id@));
    r
}

/// Whether a multiplexer (or none) can open a pane at `placement`.
pub open spec fn placement_supported(m: Option<Multiplexer>, placement: Option<ForkPanePlacement>) -> bool {
    match m {
        None => placement is None,
        Some(Multiplexer::Zellij) => match placement {
            Some(ForkPanePlacement::Left) | Some(ForkPanePlacement::Up) => false,
            _ => true,
        },
        Some(Multiplexer::Tmux) => placement != Some(ForkPanePlacement::Float),
    }
}

pub open spec fn zellij_direction_spec(p: ForkPanePlacement) -> Option<Seq<char>> {
    match p {
        ForkPanePlacement::Right => Some("right"@),
        ForkPanePlacement::Down => Some("down"@),
        _ => None,
    }
}

pub fn zellij_direction(placement: ForkPanePlacement) -> (r: Option<&'static str>)
    ensures
        match r {
            Some(d) => zellij_direction_spec(placement) == Some(d@),
            None => zellij_direction_spec(placement) is None,
        },
{
    match placement {
        ForkPanePlacement::Right => Some("right"),
        ForkPanePlacement::Down => Some("down"),
        _ => None,
    }
}

pub open spec fn zellij_args(words: Seq<Seq<char>>, placement: Option<ForkPanePlacement>) -> Seq<
    Seq<char>,
> {
    seq!["action"@, "new-pane"@, "--close-on-exit"@] + match placement {
        Some(ForkPanePlacement::Float) => seq!["--floating"@],
        Some(p) => seq!["--direction"@, zellij_direction_spec(p)->Some_0],
        None => Seq::empty(),
    } + seq!["--"@] + words
}

/// Arguments of `zellij` that open a pane running `resume_command`.
pub fn build_zellij_new_pane_args(resume_command: &[String], placement: Option<ForkPanePlacement>) -> (r:
    Vec<String>)
    requires
        placement_supported(Some(Multiplexer::Zellij), placement),
    ensures
        words_view(r@) == zellij_args(words_view(resume_command@), placement),
{
    let mut args = vec!["action".to_owned(), "new-pane".to_owned(), "--close-on-exit".to_owned()];
    let ghost head = words_view(args@);
    match placement {
        Some(ForkPanePlacement::Float) => {
            args.push("--floating".to_owned());
        },
        Some(p) => {
            match zellij_direction(p) {
                Some(direction) => {
                    args.push("--direction".to_owned());
                    args.push(direction.to_owned());
                },
                None => {},
            }
        },
        None => {},
    }
    args.push("--".to_owned());
    let ghost mid = words_view(args@);
    let mut i: usize = 0;
    while i < resume_command.len()
        invariant
            i <= resume_command@.len(),
            words_view(args@) == mid + words_view(resume_command@).take(i as int),
        decreases resume_command@.len() - i,
    {
        let ghost before = args@;
        args.push(resume_command[i].clone());
        proof {
            assert(words_view(args@) =~= words_view(before).push(resume_command@[i as int]@));
            assert(words_view(resume_command@).take(i + 1) =~= words_view(resume_command@).take(
                i as int,
            ).push(resume_command@[i as int]@));
        }
        i = i + 1;
    }
    proof {
        assert(words_view(resume_command@).take(resume_command@.len() as int) =~= words_view(
            resume_command@,
        ));
        assert(words_view(args@) =~= zellij_args(words_view(resume_command@), placement));
    }
    args
}

pub open spec fn tmux_flags(placement: Option<ForkPanePlacement>) -> (Seq<char>, Seq<char>) {
    match placement {
        Some(ForkPanePlacement::Left) => ("-h"@, "-b"@),
        Some(ForkPanePlacement::Down) => ("-v"@, ""@),
        Some(ForkPanePlacement::Up) => ("-v"@, "-b"@),
        _ => ("-h"@, ""@),
    }
}

/// The split direction and, where the pane goes before the current one, `-b`.
pub fn tmux_split_flags(placement: Option<ForkPanePlacement>) -> (r: [&'static str; 2])
    requires
        placement_supported(Some(Multiplexer::Tmux), placement),
    ensures
        r@[0]@ == tmux_flags(placement).0,
        r@[1]@ == tmux_flags(placement).1,
{
    match placement {
        None | Some(ForkPanePlacement::Right) => ["-h", ""],
        Some(ForkPanePlacement::Left) => ["-h", "-b"],
        Some(ForkPanePlacement::Down) => ["-v", ""],
        _ => ["-v", "-b"],
    }
}

/// The shell command line of a tmux pane: the quoted words, or the words
/// joined by spaces where they cannot be quoted.
pub open spec fn tmux_command(words: Seq<Seq<char>>) -> Seq<char> {
    if has_nul(words) {
        join_spaces(words)
    } else {
        shell_quoted_join(words)
    }
}

pub open spec fn tmux_args(words: Seq<Seq<char>>, placement: Option<ForkPanePlacement>) -> Seq<Seq<char>> {
    let f = tmux_flags(placement);
    seq!["split-window"@, f.0] + (if f.1.len() > 0 {
        seq![f.1]
    } else {
        Seq::empty()
    }) + seq![tmux_command(words)]
}

/// Arguments of `tmux` that open a pane running `resume_command`.
pub fn build_tmux_new_pane_args(resume_command: &[String], placement: Option<ForkPanePlacement>) -> (r:
    Vec<String>)
    requires
        placement_supported(Some(Multiplexer::Tmux), placement),
    ensures
        words_view(r@) == tmux_args(words_view(resume_command@), placement),
{
    let command = match try_shell_join(resume_command) {
        Some(joined) => joined,
        None => join_with_spaces(resume_command),
    };
    let flags = tmux_split_flags(placement);
    let mut args = vec!["split-window".to_owned(), flags[0].to_owned()];
    if !flags[1].is_empty() {
        args.push(flags[1].to_owned());
    }
    args.push(command);
    assert(words_view(args@) =~= tmux_args(words_view(resume_command@), placement));
    args
}

/// What to run to open a pane with the forked session.
pub fn fork_spawn_config(
    multiplexer: Multiplexer,
    exe: &str,
    thread_id: &str,
    placement: Option<ForkPanePlacement>,
) -> (r: MultiplexerSpawnConfig)
    requires
        placement_supported(Some(multiplexer), placement),
    ensures
        multiplexer == Multiplexer::Zellij ==> r.program@ == "zellij"@ && r.description@
            == "Zellij pane"@ && words_view(r.args@) == zellij_args(
            resume_command_spec(exe@, thread_id@),
            placement,
        ),
        multiplexer == Multiplexer::Tmux ==> r.program@ == "tmux"@ && r.description@
            == "tmux pane"@ && words_view(r.args@) == tmux_args(
            resume_command_spec(exe@, thread_id@),
            placement,
        ),
{
    let resume_command = resume_command_parts(exe, thread_id);
    match multiplexer {
        Multiplexer::Zellij => MultiplexerSpawnConfig {
            program: "zellij",
            args: build_zellij_new_pane_args(resume_command.as_slice(), placement),
            description: "Zellij pane",
        },
        Multiplexer::Tmux => MultiplexerSpawnConfig {
            program: "tmux",
            args: build_tmux_new_pane_args(resume_command.as_slice(), placement),
            description: "tmux pane",
        },
    }
}

/// Checks that the multiplexer the terminal runs in (if any) supports
/// `placement`, with the message to show when it does not.
pub fn validate_fork_placement(multiplexer: Option<Multiplexer>, placement: Option<ForkPanePlacement>) -> (r:
    Result<(), String>)
    ensures
        r is Ok <==> placement_supported(multiplexer, placement),
        r matches Err(m) ==> m@ == match multiplexer {
            None => FORK_PLACEMENT_REQUIRES_MULTIPLEXER_MESSAGE@,
            Some(Multiplexer::Zellij) => ZELLIJ_UNSUPPORTED_MESSAGE@,
            Some(Multiplexer::Tmux) => TMUX_FLOAT_UNSUPPORTED_MESSAGE@,
        },
{
    match multiplexer {
        None => match placement {
            Some(_) => Err(FORK_PLACEMENT_REQUIRES_MULTIPLEXER_MESSAGE.to_owned()),
            None => Ok(()),
        },
        Some(Multiplexer::Zellij) => match placement {
            None | Some(ForkPanePlacement::Right) | Some(ForkPanePlacement::Down) | Some(
                ForkPanePlacement::Float,
            ) => Ok(()),
            _ => Err(ZELLIJ_UNSUPPORTED_MESSAGE.to_owned()),
        },
        Some(Multiplexer::Tmux) => match placement {
            None | Some(ForkPanePlacement::Left) | Some(ForkPanePlacement::Right) | Some(
                ForkPanePlacement::Up,
            ) | Some(ForkPanePlacement::Down) => Ok(()),
            _ => Err(TMUX_FLOAT_UNSUPPORTED_MESSAGE.to_owned()),
        },
    }
}

} // verus!
