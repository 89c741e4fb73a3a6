use vstd::prelude::*;
use vstd::string::*;
use crate::error::BlockError;

verus! {

/// The platform families whose DNS caches are flushed differently.
pub enum Platform {
    Windows,
    MacOs,
    Linux,
}

/// How the outcome of one command decides the rest of the chain.
pub enum StepRule {
    /// Merely being able to run the command counts as success: the chain
    /// stops and the flush reports success.
    StopIfSpawned,
    /// The command must run and exit with status zero for the chain to
    /// stop; anything else moves on to the next step.
    StopIfExitZero,
    /// The command always runs and never stops the chain, but a failure
    /// to run it is remembered and surfaced at the end.
    RecordFailure,
    /// A best-effort step: run it, ignore whatever happens, move on.
    Ignore,
}

/// What the caller observed when it ran one command: whether the command
/// could be spawned at all, and whether it exited with status zero.
pub struct CommandOutcome {
    pub spawn_ok: bool,
    pub exit_zero: bool,
}

/// One step of the flush chain: a program, its arguments, and the rule
/// that reads its outcome.
pub struct FlushStep {
    pub program: String,
    pub args: Vec<String>,
    pub rule: StepRule,
}

/// The mathematical image of a step: plain character sequences.
pub struct StepModel {
    pub program: Seq<char>,
    pub args: Seq<Seq<char>>,
    pub rule: StepRule,
}

impl View for FlushStep {
    type V = StepModel;

    open spec fn view(&self) -> StepModel {
        StepModel { program: self.program@, args: self.args.deep_view(), rule: self.rule }
    }
}

impl DeepView for FlushStep {
    type V = StepModel;

    open spec fn deep_view(&self) -> StepModel {
        self.view()
    }
}

/// Whether, under `rule`, this outcome ends the chain with success.
pub open spec fn step_succeeds(rule: StepRule, outcome: CommandOutcome) -> bool {
    match rule {
        StepRule::StopIfSpawned => outcome.spawn_ok,
        StepRule::StopIfExitZero => outcome.spawn_ok && outcome.exit_zero,
        StepRule::RecordFailure => false,
        StepRule::Ignore => false,
    }
}

/// The two resolver-specific flush commands tried first on a Linux with
/// the systemd marker directory present.
pub open spec fn systemd_steps() -> Seq<StepModel> {
    seq![
        StepModel {
            program: "systemd-resolve"@,
            args: seq!["--flush-caches"@],
            rule: StepRule::StopIfSpawned,
        },
        StepModel {
            program: "resolvectl"@,
            args: seq!["flush-caches"@],
            rule: StepRule::StopIfSpawned,
        },
    ]
}

/// The Linux fallback chain below the systemd attempts: restart common
/// DNS-related services, then drive the daemons directly, then touch the
/// hosts file and ask the network manager to reload.
pub open spec fn linux_fallback_steps() -> Seq<StepModel> {
    seq![
        StepModel {
            program: "service"@,
            args: seq!["nscd"@, "restart"@],
            rule: StepRule::StopIfExitZero,
        },
        StepModel {
            program: "service"@,
            args: seq!["dnsmasq"@, "restart"@],
            rule: StepRule::StopIfExitZero,
        },
        StepModel {
            program: "service"@,
            args: seq!["named"@, "restart"@],
            rule: StepRule::StopIfExitZero,
        },
        StepModel {
            program: "systemctl"@,
            args: seq!["restart"@, "NetworkManager"@],
            rule: StepRule::StopIfExitZero,
        },
        StepModel { program: "nscd"@, args: seq!["-K"@], rule: StepRule::StopIfExitZero },
        StepModel {
            program: "killall"@,
            args: seq!["-HUP"@, "dnsmasq"@],
            rule: StepRule::StopIfExitZero,
        },
        StepModel { program: "rndc"@, args: seq!["flush"@], rule: StepRule::StopIfExitZero },
        StepModel { program: "touch"@, args: seq!["/etc/hosts"@], rule: StepRule::Ignore },
        StepModel {
            program: "nmcli"@,
            args: seq!["general"@, "reload"@],
            rule: StepRule::StopIfSpawned,
        },
    ]
}

/// The whole command chain for one platform. Windows has a single command
/// with no fallback; the Apple family runs both of its commands
/// unconditionally; Linux walks a graded chain and never fails.
pub open spec fn flush_plan(platform: Platform, has_systemd: bool) -> Seq<StepModel> {
    match platform {
        Platform::Windows => seq![
            StepModel {
                program: "ipconfig"@,
                args: seq!["/flushdns"@],
                rule: StepRule::StopIfSpawned,
            },
        ],
        Platform::MacOs => seq![
            StepModel {
                program: "dscacheutil"@,
                args: seq!["-flushcache"@],
                rule: StepRule::RecordFailure,
            },
            StepModel {
                program: "killall"@,
                args: seq!["-HUP"@, "mDNSResponder"@],
                rule: StepRule::RecordFailure,
            },
        ],
        Platform::Linux => if has_systemd {
            systemd_steps() + linux_fallback_steps()
        } else {
            linux_fallback_steps()
        },
    }
}

/// The message carried by a flush failure.
pub open spec fn flush_failure_message() -> Seq<char> {
    "Failed to flush DNS cache"@
}

/// An in-progress DNS-cache flush. The caller repeatedly asks for the
/// next command, runs it, and reports the outcome; the machine walks the
/// platform's chain and finally renders a verdict.
pub struct DnsFlush {
    pub platform: Platform,
    pub has_systemd: bool,
    pub steps: Vec<FlushStep>,
    pub next: usize,
    pub stopped: bool,
    pub failed: bool,
}

impl DnsFlush {
    /// The machine's steps are exactly the platform's plan and the cursor
    /// is in range.
    pub open spec fn wf(&self) -> bool {
        &&& self.steps.deep_view() == flush_plan(self.platform, self.has_systemd)
        &&& self.next <= self.steps.len()
    }

    /// The command to run now, if the chain has neither stopped with a
    /// success nor run out of steps.
    pub fn next_command(&self) -> (r: Option<&FlushStep>)
        requires
            self.wf(),
        ensures
            match r {
                Some(step) => !self.stopped && self.next < self.steps.len() && step@ == flush_plan(
                    self.platform,
                    self.has_systemd,
                )[self.next as int],
                None => self.stopped || self.next == self.steps.len(),
            },
    {
        if self.stopped || self.next >= self.steps.len() {
            None
        } else {
            Some(&self.steps[self.next])
        }
    }

    /// Consumes the outcome of the command just run: a success under the
    /// step's rule stops the chain; otherwise the cursor moves on, and a
    /// surfaced failure is remembered.
    pub fn report(&mut self, outcome: CommandOutcome)
        requires
            old(self).wf(),
            !old(self).stopped,
            old(self).next < old(self).steps.len(),
        ensures
            final(self).wf(),
            final(self).platform == old(self).platform,
            final(self).has_systemd == old(self).has_systemd,
            final(self).steps == old(self).steps,
            ({
                let rule = flush_plan(old(self).platform, old(self).has_systemd)[old(self).next as int].rule;
                if step_succeeds(rule, outcome) {
                    &&& final(self).stopped
                    &&& final(self).next == old(self).next
                    &&& final(self).failed == old(self).failed
                } else {
                    &&& !final(self).stopped
                    &&& final(self).next == old(self).next + 1
                    &&& final(self).failed == (old(self).failed || (rule is RecordFailure
                        && !outcome.spawn_ok))
                }
            }),
    {
        let succeeded = match self.steps[self.next].rule {
            StepRule::StopIfSpawned => outcome.spawn_ok,
            StepRule::StopIfExitZero => outcome.spawn_ok && outcome.exit_zero,
            StepRule::RecordFailure => false,
            StepRule::Ignore => false,
        };
        if succeeded {
            self.stopped = true;
        } else {
            let record = match self.steps[self.next].rule {
                StepRule::RecordFailure => true,
                _ => false,
            };
            if record && !outcome.spawn_ok {
                self.failed = true;
            }
            self.next = self.next + 1;
        }
    }

    /// The final result once the chain has stopped or run out: a stop is
    /// success; exhaustion is an error on Windows, an error on the Apple
    /// family exactly when a surfaced failure was recorded, and success on
    /// Linux, where a stale cache is a soft degradation, never a blocking
    /// error.
    pub fn verdict(&self) -> (r: Result<(), BlockError>)
        requires
            self.wf(),
            self.stopped || self.next == self.steps.len(),
        ensures
            self.stopped ==> (r is Ok),
            !self.stopped ==> match self.platform {
                Platform::Windows => (r matches Err(BlockError::CommandError(m)) && m@
                    == flush_failure_message()),
                Platform::MacOs => if self.failed {
                    (r matches Err(BlockError::CommandError(m)) && m@ == flush_failure_message())
                } else {
                    r is Ok
                },
                Platform::Linux => r is Ok,
            },
    {
        if self.stopped {
            Ok(())
        } else {
            match self.platform {
                Platform::Windows => Err(
                    BlockError::CommandError(String::from_str("Failed to flush DNS cache")),
                ),
                Platform::MacOs => if self.failed {
                    Err(BlockError::CommandError(String::from_str("Failed to flush DNS cache")))
                } else {
                    Ok(())
                },
                Platform::Linux => Ok(()),
            }
        }
    }
}

/// Builds one flush step from its program, arguments and rule.
fn make_step(program: &str, args: Vec<String>, rule: StepRule) -> (s: FlushStep)
    ensures
        s@ == (StepModel { program: program@, args: args.deep_view(), rule }),
{
    FlushStep { program: String::from_str(program), args, rule }
}

/// One argument as a vector.
fn args1(a0: &str) -> (v: Vec<String>)
    ensures
        v.deep_view() == seq![a0@],
{
    let mut v: Vec<String> = Vec::new();
    v.push(String::from_str(a0));
    proof {
        assert(v.deep_view() =~= seq![a0@]);
    }
    v
}

/// Two arguments as a vector.
fn args2(a0: &str, a1: &str) -> (v: Vec<String>)
    ensures
        v.deep_view() == seq![a0@, a1@],
{
    let mut v: Vec<String> = Vec::new();
    v.push(String::from_str(a0));
    v.push(String::from_str(a1));
    proof {
        assert(v.deep_view() =~= seq![a0@, a1@]);
    }
    v
}

/// Begins a DNS-cache flush for the given platform. On Linux the caller
/// says whether the systemd marker directory exists; the flag is ignored
/// elsewhere. The caller then runs the machine: ask for the next command,
/// run it, report the outcome, and take the verdict when no command is
/// left.
pub fn flush_dns(platform: Platform, has_systemd_marker: bool) -> (m: DnsFlush)
    ensures
        m.wf(),
        m.platform == platform,
        m.has_systemd == has_systemd_marker,
        m.next == 0,
        !m.stopped,
        !m.failed,
{
    let mut steps: Vec<FlushStep> = Vec::new();
    match platform {
        Platform::Windows => {
            steps.push(make_step("ipconfig", args1("/flushdns"), StepRule::StopIfSpawned));
        },
        Platform::MacOs => {
            steps.push(make_step("dscacheutil", args1("-flushcache"), StepRule::RecordFailure));
            steps.push(
                make_step("killall", args2("-HUP", "mDNSResponder"), StepRule::RecordFailure),
            );
        },
        Platform::Linux => {
            if has_systemd_marker {
                steps.push(
                    make_step("systemd-resolve", args1("--flush-caches"), StepRule::StopIfSpawned),
                );
                steps.push(
                    make_step("resolvectl", args1("flush-caches"), StepRule::StopIfSpawned),
                );
            }
            steps.push(make_step("service", args2("nscd", "restart"), StepRule::StopIfExitZero));
            steps.push(
                make_step("service", args2("dnsmasq", "restart"), StepRule::StopIfExitZero),
            );
            steps.push(make_step("service", args2("named", "restart"), StepRule::StopIfExitZero));
            steps.push(
                make_step("systemctl", args2("restart", "NetworkManager"), StepRule::StopIfExitZero),
            );
            steps.push(make_step("nscd", args1("-K"), StepRule::StopIfExitZero));
            steps.push(make_step("killall", args2("-HUP", "dnsmasq"), StepRule::StopIfExitZero));
            steps.push(make_step("rndc", args1("flush"), StepRule::StopIfExitZero));
            steps.push(make_step("touch", args1("/etc/hosts"), StepRule::Ignore));
            steps.push(make_step("nmcli", args2("general", "reload"), StepRule::StopIfSpawned));
        },
    }
    proof {
        assert(steps.deep_view() =~= flush_plan(platform, has_systemd_marker));
    }
    DnsFlush { platform, has_systemd: has_systemd_marker, steps, next: 0, stopped: false, failed: false }
}

} // verus!
