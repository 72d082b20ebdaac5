//! Shell integration: which shell the user runs, the script that changes
//! directory inside it, and the line in the shell's profile that loads the
//! script.
//!
//! A program cannot change the working directory of the shell that started
//! it. So the directory change is done by a function that the script defines
//! in the interactive shell itself, once the profile has sourced the script.

use vstd::prelude::*;
use vstd::string::*;
use crate::error::SwitchError;
use crate::paths::{base_name, file_name};
use crate::text::{chars_of, contains, occurs_at, occurs_in, replace, replaced, same};

verus! {

/// The file name of the script inside the configuration directory.
pub const SCRIPT_NAME: &'static str = "project_switch.sh";

/// What stands in a script template for the configuration directory.
pub const PLACEHOLDER: &'static str = "__path__";

/// The script for bash, with the placeholder for the configuration directory.
pub const BASH_TEMPLATE: &'static str = "#!/usr/bin/env bash
# Project Switch: change to the directory of a stored project.

PS_CONFIG_DIR=\"__path__\"

psgo() {
    if [ -z \"$1\" ]; then
        echo \"usage: psgo <project>\" >&2
        return 1
    fi
    local line dir
    while IFS= read -r line || [ -n \"$line\" ]; do
        case \"$line\" in
            \"#\"*) ;;
            \"${1}:\"*)
                dir=\"${line#*:}\"
                if [ -d \"$dir\" ]; then
                    cd \"$dir\" || return 1
                    return 0
                fi
                ;;
        esac
    done < \"$PS_CONFIG_DIR/projects\"
    echo \"Project $1 not found\" >&2
    return 1
}

if [ \"${BASH_SOURCE[0]}\" = \"$0\" ] && [ -n \"$1\" ]; then
    psgo \"$1\"
fi
";

/// The script for zsh, with the placeholder for the configuration directory.
pub const ZSH_TEMPLATE: &'static str = "#!/usr/bin/env zsh
# Project Switch: change to the directory of a stored project.

PS_CONFIG_DIR=\"__path__\"

psgo() {
    if [ -z \"$1\" ]; then
        echo \"usage: psgo <project>\" >&2
        return 1
    fi
    local line dir
    while IFS= read -r line || [ -n \"$line\" ]; do
        case \"$line\" in
            \"#\"*) ;;
            \"${1}:\"*)
                dir=\"${line#*:}\"
                if [ -d \"$dir\" ]; then
                    cd \"$dir\" || return 1
                    return 0
                fi
                ;;
        esac
    done < \"$PS_CONFIG_DIR/projects\"
    echo \"Project $1 not found\" >&2
    return 1
}

if [[ \"$ZSH_EVAL_CONTEXT\" == \"toplevel\" ]] && [ -n \"$1\" ]; then
    psgo \"$1\"
fi
";

/// The script for the shell named `shell` with the configuration directory
/// `dir` filled in. A shell other than bash and zsh gets an empty script.
pub open spec fn script_text(shell: Seq<char>, dir: Seq<char>) -> Seq<char> {
    if shell == "bash"@ {
        replaced(BASH_TEMPLATE@, PLACEHOLDER@, dir)
    } else if shell == "zsh"@ {
        replaced(ZSH_TEMPLATE@, PLACEHOLDER@, dir)
    } else {
        Seq::empty()
    }
}

/// The profile that the shell named `shell` reads at startup, before the
/// tilde is expanded.
pub open spec fn profile_of(shell: Seq<char>) -> Seq<char> {
    if shell == "bash"@ {
        "~/.bashrc"@
    } else if shell == "zsh"@ {
        "~/.zshrc"@
    } else {
        "~/.profile"@
    }
}

/// The command that loads the script at `script_path`.
pub open spec fn source_command(script_path: Seq<char>) -> Seq<char> {
    "source "@ + script_path
}

/// The profile `content` after installation for the script at
/// `script_path`: unchanged where it already holds the command that loads
/// the script, otherwise with that command appended as a line.
pub open spec fn profile_after(content: Seq<char>, script_path: Seq<char>) -> Seq<char> {
    if occurs_in(content, source_command(script_path)) {
        content
    } else {
        content + source_command(script_path) + seq!['\n']
    }
}

/// What installing the shell integration came to.
#[derive(Debug, Clone)]
pub enum InitOutcome {
    /// `line` is to be appended to the profile.
    Installed { shell: String, line: String },
    /// The profile already loads the script and stays as it is.
    AlreadyPresent { shell: String },
}

impl InitOutcome {
    /// The text shown to the user.
    pub open spec fn message_text(self) -> Seq<char> {
        match self {
            InitOutcome::Installed { shell, .. } => "Project Switch initialized for "@ + shell@,
            InitOutcome::AlreadyPresent { shell } => "Project Switch already initialized for "@
                + shell@,
        }
    }

    /// The text shown to the user.
    pub fn message(&self) -> (m: String)
        ensures
            m@ == self.message_text(),
    {
        match self {
            InitOutcome::Installed { shell, .. } => {
                let mut m = "Project Switch initialized for ".to_owned();
                m.append(shell.as_str());
                m
            },
            InitOutcome::AlreadyPresent { shell } => {
                let mut m = "Project Switch already initialized for ".to_owned();
                m.append(shell.as_str());
                m
            },
        }
    }
}

/// The name of the user's shell: the file name of `login_shell`, the path
/// of its executable. Fails where that path has no file name.
pub fn shell(login_shell: &str) -> (r: Result<String, SwitchError>)
    ensures
        file_name(login_shell@) matches Some(n) ==> (r matches Ok(s) && s@ == n),
        file_name(login_shell@) is None ==> r == Err::<String, SwitchError>(
            SwitchError::NoShellName,
        ),
{
    match base_name(login_shell) {
        Some(name) => Ok(name),
        None => Err(SwitchError::NoShellName),
    }
}

/// The script for the shell named `shell`, for the configuration directory
/// `dir`.
pub fn script_for(shell: &str, dir: &str) -> (r: String)
    ensures
        r@ == script_text(shell@, dir@),
{
    if same(shell, "bash") {
        replace(BASH_TEMPLATE, PLACEHOLDER, dir)
    } else if same(shell, "zsh") {
        replace(ZSH_TEMPLATE, PLACEHOLDER, dir)
    } else {
        String::new()
    }
}

/// The profile of the shell named `shell`, before the tilde is expanded.
pub fn profile_for(shell: &str) -> (r: &'static str)
    ensures
        r@ == profile_of(shell@),
{
    if same(shell, "bash") {
        "~/.bashrc"
    } else if same(shell, "zsh") {
        "~/.zshrc"
    } else {
        "~/.profile"
    }
}

/// Decides what to do with the profile whose text is `content`, for the
/// shell named `shell` and the script at `script_path`: where the text
/// holds the command that loads the script, nothing; otherwise that command
/// is to be appended as a line.
pub fn install(shell: &str, script_path: &str, content: &str) -> (r: InitOutcome)
    ensures
        occurs_in(content@, source_command(script_path@)) ==> (r
            matches InitOutcome::AlreadyPresent { shell: s } && s@ == shell@),
        !occurs_in(content@, source_command(script_path@)) ==> (r
            matches InitOutcome::Installed { shell: s, line } && s@ == shell@ && line@
            == source_command(script_path@) + seq!['\n']),
        r matches InitOutcome::Installed { line, .. } ==> content@ + line@ == profile_after(
            content@,
            script_path@,
        ),
        r is AlreadyPresent ==> content@ == profile_after(content@, script_path@),
{
    let mut command = "source ".to_owned();
    command.append(script_path);
    let hay = chars_of(content);
    let needle = chars_of(command.as_str());
    if contains(hay.as_slice(), needle.as_slice()) {
        InitOutcome::AlreadyPresent { shell: shell.to_owned() }
    } else {
        let mut line = command;
        line.append("\n");
        proof {
            reveal_strlit("\n");
            assert("\n"@ =~= seq!['\n']);
        }
        InitOutcome::Installed { shell: shell.to_owned(), line }
    }
}

/// Installing twice changes the profile once: after an installation the
/// profile holds the command that loads the script, so a second
/// installation finds it and leaves the profile as it is.
pub proof fn lemma_install_is_idempotent(content: Seq<char>, script_path: Seq<char>)
    ensures
        occurs_in(profile_after(content, script_path), source_command(script_path)),
        profile_after(profile_after(content, script_path), script_path) == profile_after(
            content,
            script_path,
        ),
{
    let command = source_command(script_path);
    if !occurs_in(content, command) {
        let after = content + command + seq!['\n'];
        assert(after.subrange(content.len() as int, (content.len() + command.len()) as int) =~= command);
        assert(occurs_at(after, command, content.len() as int));
    }
}

} // verus!
