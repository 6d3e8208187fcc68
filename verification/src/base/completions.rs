//! Which shell a completion script is for.

use std::str::FromStr;
use vstd::prelude::*;
use crate::text::{opt_view, pieces, split, views};

verus! {

/// A shell that there are completion scripts for.
#[derive(Clone, Copy, Debug, PartialEq, Eq, Structural)]
pub enum Shell {
    Bash,
    Elvish,
    Fish,
    PowerShell,
    Zsh,
}

/// The shell of the name `name`, if there is one.
pub open spec fn shell_named(name: Seq<char>) -> Option<Shell> {
    if name == "bash"@ {
        Some(Shell::Bash)
    } else if name == "elvish"@ {
        Some(Shell::Elvish)
    } else if name == "fish"@ {
        Some(Shell::Fish)
    } else if name == "powershell"@ {
        Some(Shell::PowerShell)
    } else if name == "zsh"@ {
        Some(Shell::Zsh)
    } else {
        None
    }
}

/// `clap_complete::Shell::from_str`: the shells that scripts can be made for,
/// by their names in small letters and nothing else.
#[verifier::external_body]
fn parse_shell(name: &str) -> (r: Option<Shell>)
    ensures
        r == shell_named(name@),
{
    match clap_complete::Shell::from_str(name) {
        Ok(clap_complete::Shell::Bash) => Some(Shell::Bash),
        Ok(clap_complete::Shell::Elvish) => Some(Shell::Elvish),
        Ok(clap_complete::Shell::Fish) => Some(Shell::Fish),
        Ok(clap_complete::Shell::PowerShell) => Some(Shell::PowerShell),
        Ok(clap_complete::Shell::Zsh) => Some(Shell::Zsh),
        _ => None,
    }
}

/// Whether a part of a path counts: neither nothing nor the directory itself.
pub open spec fn counts(part: Seq<char>) -> bool {
    part.len() > 0 && part != "."@
}

/// The last of the first `n` of `parts` that counts.
pub open spec fn last_counting(parts: Seq<Seq<char>>, n: int) -> Option<Seq<char>>
    decreases n,
{
    if n <= 0 {
        None
    } else if counts(parts[n - 1]) {
        Some(parts[n - 1])
    } else {
        last_counting(parts, n - 1)
    }
}

/// The name of the file that `path` leads to; none where it ends in the parent
/// directory, or leads nowhere.
pub open spec fn file_name(path: Seq<char>) -> Option<Seq<char>> {
    let parts = pieces(path, '/');
    match last_counting(parts, parts.len() as int) {
        Some(name) => if name == ".."@ {
            None
        } else {
            Some(name)
        },
        None => None,
    }
}

/// The shell that the path `shell` leads to.
pub open spec fn shell_at(shell: Option<Seq<char>>) -> Option<Shell> {
    match shell {
        Some(path) => match file_name(path) {
            Some(name) => shell_named(name),
            None => None,
        },
        None => None,
    }
}

/// The name of the file that `path` leads to.
fn name_at(path: &str) -> (r: Option<String>)
    ensures
        opt_view(r) == file_name(path@),
{
    let parts = split(path, '/');
    let ghost p = pieces(path@, '/');
    assert(views(parts@).len() == parts@.len());
    let mut i: usize = parts.len();
    while i > 0
        invariant
            i <= parts@.len(),
            views(parts@) == p,
            p == pieces(path@, '/'),
            p.len() == parts@.len(),
            last_counting(p, p.len() as int) == last_counting(p, i as int),
        decreases i,
    {
        assert(p[i - 1] == parts@[i - 1]@);
        let part = &parts[i - 1];
        if !part.as_str().is_empty() && !part.as_str().eq(".") {
            if part.as_str().eq("..") {
                return None;
            }
            return Some(part.clone());
        }
        i -= 1;
    }
    None
}

/// The shell that `$SHELL` leads to: `/usr/bin/zsh` is `zsh`. None where it is
/// not set, or leads to a shell that there are no scripts for.
pub fn detect_shell(shell: &Option<String>) -> (r: Option<Shell>)
    ensures
        r == shell_at(opt_view(*shell)),
{
    match shell {
        Some(path) => match name_at(path.as_str()) {
            Some(name) => parse_shell(name.as_str()),
            None => None,
        },
        None => None,
    }
}

/// The shell that a script is printed for: the one that was given, or else the
/// one that `$SHELL` leads to; without either the user is asked for one.
pub fn choose_shell(given: Option<Shell>, shell: &Option<String>, bin: &str) -> (r: Result<
    Shell,
    String,
>)
    ensures
        match r {
            Ok(s) => if given is Some {
                given == Some(s)
            } else {
                shell_at(opt_view(*shell)) == Some(s)
            },
            Err(msg) => given is None && shell_at(opt_view(*shell)) is None && msg@
                == "could not detect shell from $SHELL; pass one explicitly (e.g. `"@ + bin@
                + " completions zsh`)"@,
        },
{
    let chosen = match given {
        Some(s) => Some(s),
        None => detect_shell(shell),
    };
    match chosen {
        Some(s) => Ok(s),
        None => {
            let mut msg =
                "could not detect shell from $SHELL; pass one explicitly (e.g. `".to_owned();
            msg.append(bin);
            msg.append(" completions zsh`)");
            Err(msg)
        },
    }
}

} // verus!
