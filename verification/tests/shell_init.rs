use ukrop::shell::{bash, fish, powershell, zsh};

#[test]
fn test_init_bash() {
    let stdout = bash::init_script();
    assert!(stdout.contains("PROMPT_COMMAND"));
    assert!(stdout.contains("__ukrop_hook"));
}

#[test]
fn test_init_zsh() {
    let stdout = zsh::init_script();
    assert!(stdout.contains("precmd_functions"));
    assert!(stdout.contains("__ukrop_hook"));
}

#[test]
fn test_init_fish() {
    let stdout = fish::init_script();
    assert!(stdout.contains("__ukrop_hook"));
    assert!(stdout.contains("fish_postexec"));
}

#[test]
fn init_scripts_call_the_prompt_hook() {
    assert!(bash::init_script().contains("ukrop hook --shell-id"));
    assert!(fish::init_script().contains("ukrop hook --shell-id"));
    assert!(zsh::init_script().contains("ukrop hook --shell-id"));
    assert!(powershell::init_script().contains("ukrop hook --shell-id"));
}

#[test]
fn ctrl_r_opens_the_unfiltered_list() {
    assert!(bash::init_script().contains("command ukrop search </dev/tty"));
    assert!(zsh::init_script().contains("command ukrop search </dev/tty"));
    assert!(fish::init_script().contains("command ukrop search </dev/tty"));
    assert!(powershell::init_script().contains("Select-Object -First 1) search"));
    assert!(!bash::init_script().contains("ukrop run </dev/tty"));
    assert!(!zsh::init_script().contains("ukrop run </dev/tty"));
    assert!(!powershell::init_script().contains("Select-Object -First 1) run"));
}
