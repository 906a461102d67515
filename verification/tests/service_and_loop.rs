use orga::agent::loop_runner::{LoopOutcome, LoopState};
use orga::systemd::{generate_unit_file, install_commands, unit_file_path, unit_target_dir};

#[test]
fn test_generate_unit_file_user() {
    let unit = generate_unit_file("/usr/local/bin/orga", "/home/user/.orga/config.toml", false);
    assert!(unit.contains("ExecStart=/usr/local/bin/orga --config /home/user/.orga/config.toml agent"));
    assert!(unit.contains("WantedBy=default.target"));
    assert!(unit.contains("Restart=on-failure"));
    assert!(unit.contains("RestartSec=30"));
}

#[test]
fn test_generate_unit_file_system() {
    let unit = generate_unit_file("/usr/local/bin/orga", "/etc/orga/config.toml", true);
    assert!(unit.contains("WantedBy=multi-user.target"));
}

#[test]
fn unit_file_is_exact() {
    let unit = generate_unit_file("/b", "/c", true);
    assert_eq!(
        unit,
        "[Unit]\nDescription=orga agent\nAfter=network.target\n\n[Service]\nType=simple\n\
         ExecStart=/b --config /c agent\nRestart=on-failure\nRestartSec=30\n\n[Install]\n\
         WantedBy=multi-user.target\n"
    );
}

#[test]
fn unit_paths_for_system_and_user() {
    assert_eq!(unit_target_dir(true, "/home/u"), "/etc/systemd/system");
    assert_eq!(unit_target_dir(false, "/home/u"), "/home/u/.config/systemd/user");
    assert_eq!(unit_file_path("/etc/systemd/system"), "/etc/systemd/system/orga-agent.service");
}

#[test]
fn install_commands_add_reload_only_when_it_failed() {
    assert_eq!(
        install_commands(false, true),
        vec!["systemctl --user enable orga-agent".to_string(), "systemctl --user start orga-agent".to_string()]
    );
    assert_eq!(
        install_commands(true, false),
        vec![
            "sudo systemctl daemon-reload".to_string(),
            "sudo systemctl enable orga-agent".to_string(),
            "sudo systemctl start orga-agent".to_string(),
        ]
    );
}

#[test]
fn loop_outcome_variants_distinct() {
    assert_ne!(LoopOutcome::NoToolCalls, LoopOutcome::CapReached);
    assert_ne!(LoopOutcome::CapReached, LoopOutcome::Terminal);
    assert_ne!(LoopOutcome::NoToolCalls, LoopOutcome::Terminal);
}

#[test]
fn loop_stops_at_the_step_limit() {
    let mut state = LoopState::new(2);
    assert_eq!(state.before_request(), None);
    assert_eq!(state.after_response(2), None);
    assert_eq!(state.after_dispatch(false), None);
    assert_eq!(state.after_dispatch(false), Some(LoopOutcome::CapReached));
    assert_eq!(state.steps(), 2);
    assert_eq!(state.before_request(), Some(LoopOutcome::CapReached));
}

#[test]
fn loop_ends_on_terminal_tool_or_no_tool_calls() {
    let mut state = LoopState::new(5);
    assert_eq!(state.after_response(0), Some(LoopOutcome::NoToolCalls));
    assert_eq!(state.after_dispatch(true), Some(LoopOutcome::Terminal));
    assert_eq!(state.steps(), 1);
    assert_eq!(state.max_steps(), 5);
}

#[test]
fn loop_with_zero_limit_never_asks() {
    let state = LoopState::new(0);
    assert_eq!(state.before_request(), Some(LoopOutcome::CapReached));
}
