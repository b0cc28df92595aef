use swl::environment::{running_under_systemd, update_environment};
use swl::startup::{config_candidates, execute_program, is_executable, run_startup_program, Startup};

#[test]
fn environment_with_systemd_runs_both_commands() {
    let commands = update_environment("wayland-1", running_under_systemd(false, true));
    assert_eq!(commands.len(), 2);
    assert_eq!(commands[0].program, "systemctl");
    assert_eq!(commands[0].args, vec!["--user", "import-environment", "WAYLAND_DISPLAY"]);
    assert_eq!(commands[0].display.as_deref(), Some("wayland-1"));
    assert_eq!(commands[1].program, "dbus-update-activation-environment");
    assert_eq!(commands[1].args, vec!["--systemd", "WAYLAND_DISPLAY=wayland-1"]);
    assert_eq!(commands[1].display, None);
}

#[test]
fn environment_without_systemd_runs_dbus_only() {
    let commands = update_environment("wayland-0", running_under_systemd(false, false));
    assert_eq!(commands.len(), 1);
    assert_eq!(commands[0].program, "dbus-update-activation-environment");
}

#[test]
fn startup_candidates_follow_the_environment() {
    assert_eq!(
        config_candidates(Some("/home/me/.conf"), Some("/home/me/")),
        vec!["/home/me/.conf/swl/run", "/home/me/.config/swl/run"]
    );
    assert_eq!(config_candidates(None, Some("/root")), vec!["/root/.config/swl/run"]);
    assert_eq!(config_candidates(Some(""), None), vec!["swl/run"]);
    assert!(config_candidates(None, None).is_empty());
}

#[test]
fn startup_prefers_the_named_program() {
    assert!(matches!(run_startup_program(true, &vec![true, true]), Startup::Named));
    assert!(matches!(run_startup_program(false, &vec![false, true]), Startup::Found(1)));
    assert!(matches!(run_startup_program(false, &vec![true, true]), Startup::Found(0)));
    assert!(matches!(run_startup_program(false, &vec![false]), Startup::Nothing));
}

#[test]
fn startup_program_must_be_executable() {
    assert!(is_executable(Some(0o755)));
    assert!(is_executable(Some(0o010)));
    assert!(!is_executable(Some(0o644)));
    assert!(!is_executable(None));
    assert!(execute_program(false, None));
    assert!(!execute_program(true, Some(0o600)));
    assert!(execute_program(true, Some(0o001)));
}
