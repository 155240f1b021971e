use ukrop::cli::ShellType;
use ukrop::store::{dir_match, DirMatch};
use ukrop::{detect_shell, is_yes, shell_init_line, shell_rc_path};

#[test]
fn shell_detection_order() {
    assert_eq!(detect_shell(true, true, true, Some("/bin/fish")), ShellType::Zsh);
    assert_eq!(detect_shell(false, false, false, Some("/usr/bin/zsh")), ShellType::Zsh);
    assert_eq!(detect_shell(false, false, false, Some("/usr/local/bin/fish")), ShellType::Fish);
    assert_eq!(detect_shell(false, true, false, None), ShellType::Fish);
    assert_eq!(detect_shell(false, false, true, None), ShellType::Powershell);
    assert_eq!(detect_shell(false, false, true, Some("/bin/bash")), ShellType::Bash);
    assert_eq!(detect_shell(false, false, false, None), ShellType::Bash);
}

#[test]
fn rc_file_choices() {
    assert_eq!(shell_rc_path(ShellType::Zsh, "/home/me", false, false), "/home/me/.zshrc");
    assert_eq!(shell_rc_path(ShellType::Bash, "/home/me", true, false), "/home/me/.bashrc");
    assert_eq!(shell_rc_path(ShellType::Bash, "/home/me", false, false), "/home/me/.bash_profile");
    assert_eq!(shell_rc_path(ShellType::Fish, "/home/me", false, false), "/home/me/.config/fish/config.fish");
    assert_eq!(
        shell_rc_path(ShellType::Powershell, "/home/me", false, true),
        "/home/me/Documents/PowerShell/Microsoft.PowerShell_profile.ps1"
    );
    assert_eq!(
        shell_rc_path(ShellType::Powershell, "/home/me", false, false),
        "/home/me/.config/powershell/Microsoft.PowerShell_profile.ps1"
    );
    assert_eq!(shell_init_line(ShellType::Fish), "ukrop init fish | source");
}

#[test]
fn yes_answers() {
    assert!(is_yes(""));
    assert!(is_yes("  \n"));
    assert!(is_yes("Y"));
    assert!(is_yes(" yes\n"));
    assert!(is_yes("YES"));
    assert!(!is_yes("n"));
    assert!(!is_yes("yep"));
}

#[test]
fn directory_match_tiers() {
    assert_eq!(dir_match("/home/me/Projects/WebApp", "webapp"), Some(DirMatch::Basename));
    assert_eq!(dir_match("/home/me/projects/webapp-old", "web"), Some(DirMatch::BasenamePrefix));
    assert_eq!(dir_match("/home/me/projects/webapp", "proj"), Some(DirMatch::PathContains));
    assert_eq!(dir_match("/home/me/projects/webapp", "zzz"), None);
}

#[test]
fn basename_is_the_last_path_component() {
    assert_eq!(dir_match("/usr/bin/", "bin"), Some(DirMatch::Basename));
    assert_eq!(dir_match("/srv//www/./", "www"), Some(DirMatch::Basename));
    assert_eq!(dir_match("/srv/www/..", "www"), Some(DirMatch::PathContains));
    assert_eq!(dir_match("/", "x"), None);
}
