//! The command line of the Linux sandbox helper for a tool command.
use vstd::prelude::*;
use crate::terminal_multiplexer::words_view;

verus! {

pub open spec fn sandbox_args(
    command: Seq<Seq<char>>,
    policy_json: Seq<char>,
    policy_cwd: Seq<char>,
    bwrap_path: Option<Seq<char>>,
) -> Seq<Seq<char>> {
    seq!["--sandbox-policy-cwd"@, policy_cwd, "--sandbox-policy"@, policy_json] + match bwrap_path {
        Some(b) => seq!["--use-bwrap-sandbox"@, "--bwrap-path"@, b],
        None => Seq::empty(),
    } + seq!["--"@] + command
}

/// Arguments of the sandbox helper: the policy (as JSON) and the directory
/// it is relative to, the bubblewrap binary if one is to be used, then a
/// `--` separator and the command itself.
pub fn create_linux_sandbox_command_args(
    command: Vec<String>,
    sandbox_policy_json: String,
    sandbox_policy_cwd: &str,
    bwrap_path: Option<&str>,
) -> (r: Vec<String>)
    ensures
        words_view(r@) == sandbox_args(
            words_view(command@),
            sandbox_policy_json@,
            sandbox_policy_cwd@,
            match bwrap_path {
                Some(b) => Some(b@),
                None => None,
            },
        ),
{
    let mut linux_cmd: Vec<String> = vec![
        "--sandbox-policy-cwd".to_owned(),
        sandbox_policy_cwd.to_owned(),
        "--sandbox-policy".to_owned(),
        sandbox_policy_json,
    ];
    if bwrap_path.is_some() {
        linux_cmd.push("--use-bwrap-sandbox".to_owned());
    }
    match bwrap_path {
        Some(b) => {
            linux_cmd.push("--bwrap-path".to_owned());
            linux_cmd.push(b.to_owned());
        },
        None => {},
    }
    linux_cmd.push("--".to_owned());
    let ghost head = words_view(linux_cmd@);
    let mut i: usize = 0;
    while i < command.len()
        invariant
            i <= command@.len(),
            words_view(linux_cmd@) == head + words_view(command@).take(i as int),
        decreases command@.len() - i,
    {
        let ghost before = linux_cmd@;
        linux_cmd.push(command[i].clone());
        proof {
            assert(words_view(linux_cmd@) =~= words_view(before).push(command@[i as int]@));
            assert(words_view(command@).take(i + 1) =~= words_view(command@).take(i as int).push(
                command@[i as int]@,
            ));
        }
        i = i + 1;
    }
    proof {
        assert(words_view(command@).take(command@.len() as int) =~= words_view(command@));
        let b = match bwrap_path {
            Some(b) => Some(b@),
            None => None,
        };
        assert(words_view(linux_cmd@) =~= sandbox_args(
            words_view(command@),
            sandbox_policy_json@,
            sandbox_policy_cwd@,
            b,
        ));
    }
    linux_cmd
}

} // verus!
