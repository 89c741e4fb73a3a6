use phocus::{flush_dns, BlockError, CommandOutcome, Platform};

fn spawned_ok() -> CommandOutcome {
    CommandOutcome { spawn_ok: true, exit_zero: true }
}

fn spawn_failed() -> CommandOutcome {
    CommandOutcome { spawn_ok: false, exit_zero: false }
}

fn ran_but_failed() -> CommandOutcome {
    CommandOutcome { spawn_ok: true, exit_zero: false }
}

/// Runs the machine to its verdict, feeding every command the same
/// outcome, and collects the command lines it asked for.
fn run_with(
    platform: Platform,
    has_systemd: bool,
    outcome_of: impl Fn(&str) -> CommandOutcome,
) -> (Vec<String>, Result<(), BlockError>) {
    let mut machine = flush_dns(platform, has_systemd);
    let mut seen: Vec<String> = Vec::new();
    loop {
        let (line, outcome) = match machine.next_command() {
            Some(step) => {
                let line = format!("{} {}", step.program, step.args.join(" "));
                (line.clone(), outcome_of(&line))
            }
            None => break,
        };
        seen.push(line);
        machine.report(outcome);
    }
    (seen, machine.verdict())
}

#[test]
fn windows_flush_is_one_command() {
    let (seen, verdict) = run_with(Platform::Windows, false, |_| spawned_ok());
    assert_eq!(seen, vec!["ipconfig /flushdns".to_string()]);
    assert!(verdict.is_ok());
}

#[test]
fn windows_flush_fails_hard_when_command_cannot_run() {
    let (seen, verdict) = run_with(Platform::Windows, false, |_| spawn_failed());
    assert_eq!(seen, vec!["ipconfig /flushdns".to_string()]);
    match verdict {
        Err(BlockError::CommandError(m)) => assert_eq!(m, "Failed to flush DNS cache"),
        other => panic!("expected a command error, got {:?}", other.is_ok()),
    }
}

#[test]
fn macos_runs_both_commands() {
    let (seen, verdict) = run_with(Platform::MacOs, false, |_| spawned_ok());
    assert_eq!(
        seen,
        vec![
            "dscacheutil -flushcache".to_string(),
            "killall -HUP mDNSResponder".to_string(),
        ]
    );
    assert!(verdict.is_ok());
}

#[test]
fn macos_still_runs_second_command_after_first_fails() {
    let (seen, verdict) = run_with(Platform::MacOs, false, |line| {
        if line.starts_with("dscacheutil") {
            spawn_failed()
        } else {
            spawned_ok()
        }
    });
    assert_eq!(seen.len(), 2);
    assert!(matches!(verdict, Err(BlockError::CommandError(_))));
}

#[test]
fn linux_systemd_flush_stops_at_first_spawned_command() {
    let (seen, verdict) = run_with(Platform::Linux, true, |_| spawned_ok());
    assert_eq!(seen, vec!["systemd-resolve --flush-caches".to_string()]);
    assert!(verdict.is_ok());
}

#[test]
fn linux_systemd_falls_through_to_second_resolver_command() {
    let (seen, verdict) = run_with(Platform::Linux, true, |line| {
        if line.starts_with("systemd-resolve") {
            spawn_failed()
        } else {
            spawned_ok()
        }
    });
    assert_eq!(
        seen,
        vec![
            "systemd-resolve --flush-caches".to_string(),
            "resolvectl flush-caches".to_string(),
        ]
    );
    assert!(verdict.is_ok());
}

#[test]
fn linux_without_systemd_tries_services_first() {
    let (seen, verdict) = run_with(Platform::Linux, false, |line| {
        if line == "service named restart" {
            spawned_ok()
        } else {
            ran_but_failed()
        }
    });
    assert_eq!(
        seen,
        vec![
            "service nscd restart".to_string(),
            "service dnsmasq restart".to_string(),
            "service named restart".to_string(),
        ]
    );
    assert!(verdict.is_ok());
}

#[test]
fn linux_never_fails_even_when_everything_fails() {
    let (seen, verdict) = run_with(Platform::Linux, false, |_| spawn_failed());
    assert_eq!(
        seen,
        vec![
            "service nscd restart".to_string(),
            "service dnsmasq restart".to_string(),
            "service named restart".to_string(),
            "systemctl restart NetworkManager".to_string(),
            "nscd -K".to_string(),
            "killall -HUP dnsmasq".to_string(),
            "rndc flush".to_string(),
            "touch /etc/hosts".to_string(),
            "nmcli general reload".to_string(),
        ]
    );
    assert!(verdict.is_ok());
}

#[test]
fn linux_touch_never_stops_the_chain() {
    // Every service restart fails, but touch runs fine; the chain must
    // still go on to the network-manager reload.
    let (seen, verdict) = run_with(Platform::Linux, false, |line| {
        if line.starts_with("touch") || line.starts_with("nmcli") {
            spawned_ok()
        } else {
            ran_but_failed()
        }
    });
    assert_eq!(seen.last().unwrap(), "nmcli general reload");
    assert!(verdict.is_ok());
}
