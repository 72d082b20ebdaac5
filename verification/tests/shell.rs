use project_switch::error::SwitchError;
use project_switch::shell::{
    install, profile_for, script_for, shell, InitOutcome, BASH_TEMPLATE, PLACEHOLDER, SCRIPT_NAME,
    ZSH_TEMPLATE,
};

fn installed_line(outcome: InitOutcome) -> String {
    match outcome {
        InitOutcome::Installed { line, .. } => line,
        InitOutcome::AlreadyPresent { shell } => panic!("already installed for {}", shell),
    }
}

#[test]
fn shell_is_the_file_name_of_the_login_shell() {
    assert_eq!(shell("/bin/bash"), Ok("bash".to_string()));
    assert_eq!(shell("/usr/bin/zsh"), Ok("zsh".to_string()));
    assert_eq!(shell("/usr/local/bin/fish"), Ok("fish".to_string()));
    assert_eq!(shell("bash"), Ok("bash".to_string()));
    assert_eq!(shell("/bin/bash/"), Ok("bash".to_string()));
}

#[test]
fn shell_without_a_name_fails() {
    assert_eq!(shell(""), Err(SwitchError::NoShellName));
    assert_eq!(shell("/"), Err(SwitchError::NoShellName));
    assert_eq!(shell("/bin/.."), Err(SwitchError::NoShellName));
}

#[test]
fn error_messages() {
    assert_eq!(SwitchError::NoShellName.message(), "Failed to get shell file name");
    assert_eq!(SwitchError::NoConfigDir.message(), "Could not find config directory");
}

#[test]
fn templates_hold_the_placeholder() {
    assert_eq!(PLACEHOLDER, "__path__");
    assert_eq!(SCRIPT_NAME, "project_switch.sh");
    assert_eq!(BASH_TEMPLATE.matches(PLACEHOLDER).count(), 1);
    assert_eq!(ZSH_TEMPLATE.matches(PLACEHOLDER).count(), 1);
    assert!(BASH_TEMPLATE.contains("cd \"$dir\""));
    assert!(ZSH_TEMPLATE.contains("cd \"$dir\""));
    assert!(BASH_TEMPLATE.starts_with("#!/usr/bin/env bash\n"));
    assert!(ZSH_TEMPLATE.starts_with("#!/usr/bin/env zsh\n"));
}

#[test]
fn script_for_bash_names_the_directory() {
    let script = script_for("bash", "/home/u/.config/project-switch");
    assert!(script.contains("PS_CONFIG_DIR=\"/home/u/.config/project-switch\"\n"));
    assert!(!script.contains("__path__"));
    assert_eq!(script, BASH_TEMPLATE.replace("__path__", "/home/u/.config/project-switch"));
}

#[test]
fn script_for_zsh_names_the_directory() {
    let script = script_for("zsh", "/home/u/.config/project-switch");
    assert!(script.contains("PS_CONFIG_DIR=\"/home/u/.config/project-switch\"\n"));
    assert!(!script.contains("__path__"));
    assert_eq!(script, ZSH_TEMPLATE.replace("__path__", "/home/u/.config/project-switch"));
    assert_ne!(script, script_for("bash", "/home/u/.config/project-switch"));
}

#[test]
fn script_for_another_shell_is_empty() {
    assert_eq!(script_for("fish", "/home/u/.config/project-switch"), "");
    assert_eq!(script_for("", "/x"), "");
    assert_eq!(script_for("Bash", "/x"), "");
    assert_eq!(script_for("bash ", "/x"), "");
}

#[test]
fn profile_for_each_shell() {
    assert_eq!(profile_for("bash"), "~/.bashrc");
    assert_eq!(profile_for("zsh"), "~/.zshrc");
    assert_eq!(profile_for("fish"), "~/.profile");
    assert_eq!(profile_for(""), "~/.profile");
}

#[test]
fn install_appends_the_source_line() {
    let outcome = install("bash", "/c/project_switch.sh", "export A=1\n");
    assert_eq!(outcome.message(), "Project Switch initialized for bash");
    match &outcome {
        InitOutcome::Installed { shell, .. } => assert_eq!(shell, "bash"),
        InitOutcome::AlreadyPresent { .. } => panic!("the profile does not load the script"),
    }
    assert_eq!(installed_line(outcome), "source /c/project_switch.sh\n");
    assert_eq!(
        installed_line(install("zsh", "/c/project_switch.sh", "")),
        "source /c/project_switch.sh\n"
    );
}

#[test]
fn install_twice_adds_one_line() {
    let path = "/c/project_switch.sh";
    let mut profile = "export A=1\n".to_string();
    profile.push_str(&installed_line(install("zsh", path, &profile)));
    let outcome = install("zsh", path, &profile);
    assert_eq!(outcome.message(), "Project Switch already initialized for zsh");
    match outcome {
        InitOutcome::AlreadyPresent { shell } => assert_eq!(shell, "zsh"),
        InitOutcome::Installed { .. } => panic!("the profile loads the script already"),
    }
    assert_eq!(profile, "export A=1\nsource /c/project_switch.sh\n");
    assert_eq!(profile.matches("source").count(), 1);
}

#[test]
fn install_looks_for_the_command_anywhere_in_the_profile() {
    let path = "/c/project_switch.sh";
    match install("bash", path, "if true; then source /c/project_switch.sh; fi") {
        InitOutcome::AlreadyPresent { .. } => {}
        InitOutcome::Installed { .. } => panic!("the command stands in the profile"),
    }
    match install("bash", path, "# source /c/project_switch.sh.bak\n") {
        InitOutcome::AlreadyPresent { .. } => {}
        InitOutcome::Installed { .. } => panic!("the command stands in the profile"),
    }
    assert_eq!(
        installed_line(install("bash", path, "ls /c/project_switch.sh\n")),
        "source /c/project_switch.sh\n"
    );
    assert_eq!(
        installed_line(install("bash", path, "source /c/other.sh\n")),
        "source /c/project_switch.sh\n"
    );
}
