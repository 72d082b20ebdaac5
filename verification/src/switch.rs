//! The context of an invocation: where the store and the script live, and
//! the operations that need to know it.

use vstd::prelude::*;
use vstd::string::*;
use crate::error::SwitchError;
use crate::host::{config_dir, expand_tilde, tilde_expansion};
use crate::paths::{file_name, join, joined};
use crate::shell::{profile_for, profile_of, script_for, script_text, shell, SCRIPT_NAME};
use crate::store::{
    first_present, not_found_message, paths_of, project_dir, DirOutcome, STORE_HEADER,
};

verus! {

/// The file name of the store inside the configuration directory.
pub const STORE_NAME: &'static str = "projects";

/// The name of the configuration directory in regular use.
pub const DIR_NAME: &'static str = "project-switch";

/// The name of the configuration directory under test, which keeps trials
/// apart from the user's own projects.
pub const TEST_DIR_NAME: &'static str = "project-switch_test";

/// The places that an invocation works on.
#[derive(Debug, Clone)]
pub struct ProjectSwitch {
    /// The configuration directory of this program.
    pub ps_dir: String,
    /// The store file inside it.
    pub projects_db: String,
}

/// What is to be written to install the shell integration, and where.
#[derive(Debug, Clone)]
pub struct InitPlan {
    /// The name of the user's shell.
    pub shell: String,
    /// Where the script goes.
    pub script_path: String,
    /// The text of the script.
    pub script: String,
    /// The profile that is to load the script.
    pub profile: String,
}

/// What switching to a project came to.
#[derive(Debug, Clone)]
pub enum GoOutcome {
    /// The project is there: `program` is to be run with the arguments `-c`
    /// and `command`.
    Launch { name: String, program: String, command: String },
    /// No record of the name points to a directory that is there.
    NotFound { name: String },
}

impl GoOutcome {
    /// The text shown to the user before anything is run: the command, or
    /// the complaint.
    pub open spec fn message_text(self) -> Seq<char> {
        match self {
            GoOutcome::Launch { command, .. } => command@,
            GoOutcome::NotFound { name } => "Project "@ + name@ + " not found"@,
        }
    }

    /// The text shown to the user before anything is run.
    pub fn message(&self) -> (m: String)
        ensures
            m@ == self.message_text(),
    {
        match self {
            GoOutcome::Launch { command, .. } => command.clone(),
            GoOutcome::NotFound { name } => not_found_message(name.as_str()),
        }
    }
}

/// The text shown once the shell for the project `name` has been started,
/// or, with the reason in `failure`, could not be started.
pub open spec fn launch_report_text(name: Seq<char>, failure: Option<Seq<char>>) -> Seq<char> {
    match failure {
        None => "Switched to project: "@ + name,
        Some(reason) => "Failed to switch to project: "@ + reason,
    }
}

/// The text shown once the shell for the project `name` has been started,
/// or, with the reason in `failure`, could not be started.
pub fn launch_report(name: &str, failure: Option<&str>) -> (m: String)
    ensures
        m@ == launch_report_text(
            name@,
            match failure {
                Some(reason) => Some(reason@),
                None => None,
            },
        ),
{
    match failure {
        None => {
            let mut m = "Switched to project: ".to_owned();
            m.append(name);
            m
        },
        Some(reason) => {
            let mut m = "Failed to switch to project: ".to_owned();
            m.append(reason);
            m
        },
    }
}

impl ProjectSwitch {
    /// The name of this program's directory inside the user's configuration
    /// directory.
    pub open spec fn dir_name(is_test: bool) -> Seq<char> {
        if is_test {
            TEST_DIR_NAME@
        } else {
            DIR_NAME@
        }
    }

    /// Whether the places are those that belong under `config_dir`.
    pub open spec fn located_under(self, config_dir: Seq<char>, is_test: bool) -> bool {
        &&& self.ps_dir@ == joined(config_dir, Self::dir_name(is_test))
        &&& self.projects_db@ == joined(self.ps_dir@, STORE_NAME@)
    }

    /// Where the script goes.
    pub open spec fn script_path_text(self) -> Seq<char> {
        joined(self.ps_dir@, SCRIPT_NAME@)
    }

    /// The places under the user's configuration directory `config_dir`.
    pub fn under(config_dir: &str, is_test: bool) -> (ps: Self)
        ensures
            ps.located_under(config_dir@, is_test),
    {
        let dir_name = if is_test {
            TEST_DIR_NAME
        } else {
            DIR_NAME
        };
        let ps_dir = join(config_dir, dir_name);
        let projects_db = join(ps_dir.as_str(), STORE_NAME);
        ProjectSwitch { ps_dir, projects_db }
    }

    /// The places under `config_dir`, or the failure where there is none.
    pub fn from_config_dir(config_dir: Option<String>, is_test: bool) -> (r: Result<
        Self,
        SwitchError,
    >)
        ensures
            config_dir matches Some(dir) ==> (r matches Ok(ps) && ps.located_under(dir@, is_test)),
            config_dir is None ==> r matches Err(SwitchError::NoConfigDir),
    {
        match config_dir {
            Some(dir) => Ok(Self::under(dir.as_str(), is_test)),
            None => Err(SwitchError::NoConfigDir),
        }
    }

    /// The places under the configuration directory that the environment
    /// names. Fails where it names none.
    pub fn new(is_test: bool) -> (r: Result<Self, SwitchError>)
        ensures
            r matches Ok(ps) ==> exists|dir: Seq<char>| ps.located_under(dir, is_test),
            r matches Err(e) ==> e == SwitchError::NoConfigDir,
    {
        Self::from_config_dir(config_dir(), is_test)
    }

    /// The text to create the store with, where the store does not exist
    /// yet: the header comment as its only line. An existing store is left
    /// alone.
    pub fn initialize(store_exists: bool) -> (r: Option<String>)
        ensures
            store_exists ==> r is None,
            !store_exists ==> (r matches Some(text) && text@ == STORE_HEADER@ + seq!['\n']),
    {
        if store_exists {
            None
        } else {
            let mut text = STORE_HEADER.to_owned();
            text.append("\n");
            proof {
                reveal_strlit("\n");
                assert("\n"@ =~= seq!['\n']);
            }
            Some(text)
        }
    }

    /// Where the script goes.
    pub fn script_path(&self) -> (r: String)
        ensures
            r@ == self.script_path_text(),
    {
        join(self.ps_dir.as_str(), SCRIPT_NAME)
    }

    /// The plan to install the shell integration for the shell named
    /// `shell`, given the path `profile` of that shell's profile: the script
    /// for that shell, filled in with the configuration directory, and
    /// where it goes.
    pub fn plan_init(&self, shell: String, profile: String) -> (plan: InitPlan)
        ensures
            plan.shell == shell,
            plan.profile == profile,
            plan.script_path@ == self.script_path_text(),
            plan.script@ == script_text(shell@, self.ps_dir@),
    {
        let script = script_for(shell.as_str(), self.ps_dir.as_str());
        let script_path = self.script_path();
        InitPlan { shell, script_path, script, profile }
    }

    /// Plans the installation of the shell integration for the user whose
    /// login shell is `login_shell`: the script, where it goes, and the
    /// profile that is to load it, with the tilde that opens its path
    /// expanded as far as the environment allows. Fails where the shell has
    /// no name.
    pub fn init(&self, login_shell: &str) -> (r: Result<InitPlan, SwitchError>)
        ensures
            file_name(login_shell@) matches Some(sh) ==> (r matches Ok(plan) && plan.shell@ == sh
                && plan.script_path@ == self.script_path_text() && plan.script@ == script_text(
                sh,
                self.ps_dir@,
            ) && tilde_expansion(profile_of(sh), plan.profile@)),
            file_name(login_shell@) is None ==> r matches Err(SwitchError::NoShellName),
    {
        let name = match shell(login_shell) {
            Ok(name) => name,
            Err(e) => {
                return Err(e);
            },
        };
        let profile = expand_tilde(profile_for(name.as_str()));
        Ok(self.plan_init(name, profile))
    }

    /// Switches to the project `name`. `present` says of each of
    /// `stored_paths(content, name)`, in order, whether it is there. Where
    /// one is, the user's shell is to run the script with the project's
    /// name; this fails where `login_shell` has no file name.
    pub fn go_to_project(&self, content: &str, name: &str, present: &[bool], login_shell: &str) -> (r:
        Result<GoOutcome, SwitchError>)
        ensures
            first_present(paths_of(content@, name@), present@) is None ==> (r matches Ok(
                GoOutcome::NotFound { name: n },
            ) && n@ == name@),
            first_present(paths_of(content@, name@), present@) is Some && file_name(login_shell@)
                is None ==> r matches Err(SwitchError::NoShellName),
            first_present(paths_of(content@, name@), present@) is Some && file_name(login_shell@)
                is Some ==> (r matches Ok(GoOutcome::Launch { name: n, program, command }) && n@
                == name@ && program@ == file_name(login_shell@)->0 && command@
                == self.script_path_text() + seq![' '] + name@),
            (forall|i: int| 0 <= i < present@.len() ==> !present@[i]) ==> r matches Ok(
                GoOutcome::NotFound { .. },
            ),
    {
        match project_dir(content, name, present) {
            DirOutcome::NotFound { name } => Ok(GoOutcome::NotFound { name }),
            DirOutcome::Found { .. } => {
                let program = match shell(login_shell) {
                    Ok(program) => program,
                    Err(e) => {
                        return Err(e);
                    },
                };
                let mut command = self.script_path();
                command.append(" ");
                command.append(name);
                proof {
                    reveal_strlit(" ");
                    assert(" "@ =~= seq![' ']);
                }
                Ok(GoOutcome::Launch { name: name.to_owned(), program, command })
            },
        }
    }
}

} // verus!
