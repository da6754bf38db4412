//! Deploying a certificate: the hooks that are run, and the check that the server
//! shows the new certificate.
use crate::config::{Config, DomainConfig};
use crate::text::{self, push_decimal, push_signed, text_equal};
use crate::types::{self, ScanResult, ScanView};
use std::sync::Arc;
use vstd::prelude::*;

verus! {

/// How a deployment hook went.
#[derive(Debug)]
pub struct HookResult {
    pub command: String,
    pub success: bool,
    pub output: String,
}

/// What a `HookResult` says.
pub struct HookView {
    pub command: Seq<char>,
    pub success: bool,
    pub output: Seq<char>,
}

impl View for HookResult {
    type V = HookView;

    open spec fn view(&self) -> HookView {
        HookView { command: self.command@, success: self.success, output: self.output@ }
    }
}

impl Clone for HookResult {
    fn clone(&self) -> (copy: HookResult)
        ensures
            copy@ == self@,
    {
        HookResult {
            command: self.command.clone(),
            success: self.success,
            output: self.output.clone(),
        }
    }
}

/// What a list of hook results says.
pub open spec fn hook_views(hooks: Seq<HookResult>) -> Seq<HookView> {
    Seq::new(hooks.len(), |i: int| hooks[i]@)
}

/// How a deployment went.
pub type DeployResult = DeployResultInner;

/// How a deployment went: its hooks, and whether the server shows the expected
/// certificate, where that was checked.
#[derive(Debug)]
pub struct DeployResultInner {
    pub domain: String,
    pub hooks: Vec<HookResult>,
    pub verification: Option<Result<bool, String>>,
}

/// What a verification says.
pub open spec fn verification_view(v: Option<Result<bool, String>>) -> Option<
    Result<bool, Seq<char>>,
> {
    match v {
        Some(Ok(passed)) => Some(Ok(passed)),
        Some(Err(message)) => Some(Err(message@)),
        None => None,
    }
}

/// What a `DeployResultInner` says.
#[verifier::ext_equal]
pub struct DeployView {
    pub domain: Seq<char>,
    pub hooks: Seq<HookView>,
    pub verification: Option<Result<bool, Seq<char>>>,
}

impl View for DeployResultInner {
    type V = DeployView;

    open spec fn view(&self) -> DeployView {
        DeployView {
            domain: self.domain@,
            hooks: hook_views(self.hooks@),
            verification: verification_view(self.verification),
        }
    }
}

/// The complaint about a hook that failed.
pub open spec fn hook_complaint(hook: HookView) -> Seq<char> {
    "Hook '"@ + hook.command + "' failed: "@ + hook.output
}

/// The complaints about the hooks that failed, in their order.
pub open spec fn hook_complaints(hooks: Seq<HookView>) -> Seq<Seq<char>>
    decreases hooks.len(),
{
    if hooks.len() == 0 {
        Seq::empty()
    } else if hooks.last().success {
        hook_complaints(hooks.drop_last())
    } else {
        hook_complaints(hooks.drop_last()).push(hook_complaint(hooks.last()))
    }
}

/// The complaint about a verification, if there is one.
pub open spec fn verification_complaints(verification: Option<Result<bool, Seq<char>>>) -> Seq<
    Seq<char>,
> {
    match verification {
        Some(Ok(false)) => seq!["Verification failed: certificate fingerprint mismatch"@],
        Some(Err(message)) => seq!["Verification error: "@ + message],
        _ => Seq::empty(),
    }
}

impl DeployView {
    /// Whether every hook succeeded.
    pub open spec fn hooks_succeeded(self) -> bool {
        forall|i: int| 0 <= i < self.hooks.len() ==> (#[trigger] self.hooks[i]).success
    }

    /// The complaints about the deployment.
    pub open spec fn complaints(self) -> Seq<Seq<char>> {
        hook_complaints(self.hooks) + verification_complaints(self.verification)
    }
}

impl DeployResultInner {
    /// Whether every hook succeeded.
    pub fn all_hooks_successful(&self) -> (r: bool)
        ensures
            r == self@.hooks_succeeded(),
    {
        let mut i: usize = 0;
        while i < self.hooks.len()
            invariant
                i <= self.hooks.len(),
                forall|j: int| 0 <= j < i ==> (#[trigger] self@.hooks[j]).success,
            decreases self.hooks.len() - i,
        {
            assert(self@.hooks[i as int].success == self.hooks@[i as int].success);
            if !self.hooks[i].success {
                return false;
            }
            i += 1;
        }
        true
    }

    /// Whether the server was seen to show the expected certificate.
    pub fn verification_passed(&self) -> (r: bool)
        ensures
            r == (self@.verification == Some(Ok::<bool, Seq<char>>(true))),
    {
        match &self.verification {
            Some(Ok(passed)) => *passed,
            _ => false,
        }
    }

    /// The complaints about the deployment.
    pub fn has_errors(&self) -> (errors: Vec<String>)
        ensures
            text::texts(errors@) == self@.complaints(),
    {
        let mut errors: Vec<String> = Vec::new();
        let ghost hooks = self@.hooks;
        let mut i: usize = 0;
        assert(hooks.take(0) =~= Seq::empty());
        assert(text::texts(errors@) =~= hook_complaints(hooks.take(0)));
        while i < self.hooks.len()
            invariant
                i <= self.hooks.len(),
                hooks == hook_views(self.hooks@),
                text::texts(errors@) == hook_complaints(hooks.take(i as int)),
            decreases self.hooks.len() - i,
        {
            let hook = &self.hooks[i];
            proof {
                let upto = hooks.take(i + 1);
                assert(upto.drop_last() =~= hooks.take(i as int));
                assert(upto.last() == hook@);
            }
            if !hook.success {
                let ghost before = text::texts(errors@);
                let mut complaint = "Hook '".to_owned();
                complaint.append(hook.command.as_str());
                complaint.append("' failed: ");
                complaint.append(hook.output.as_str());
                errors.push(complaint);
                assert(text::texts(errors@) =~= before.push(complaint@));
            }
            i += 1;
        }
        assert(hooks.take(hooks.len() as int) =~= hooks);
        let ghost before = text::texts(errors@);
        match &self.verification {
            Some(Ok(false)) => {
                errors.push("Verification failed: certificate fingerprint mismatch".to_owned());
            },
            Some(Err(message)) => {
                let mut complaint = "Verification error: ".to_owned();
                complaint.append(message.as_str());
                errors.push(complaint);
            },
            _ => {},
        }
        assert(text::texts(errors@) =~= before + verification_complaints(self@.verification));
        errors
    }
}

/// There is nothing to complain about exactly when every hook succeeded and no
/// verification failed.
pub proof fn complaints_are_about_failures(result: DeployView)
    ensures
        result.complaints().len() == 0 <==> result.hooks_succeeded() && (result.verification is None
            || result.verification == Some(Ok::<bool, Seq<char>>(true))),
{
    lemma_hook_complaints(result.hooks);
}

proof fn lemma_hook_complaints(hooks: Seq<HookView>)
    ensures
        hook_complaints(hooks).len() == 0 <==> forall|i: int|
            0 <= i < hooks.len() ==> (#[trigger] hooks[i]).success,
    decreases hooks.len(),
{
    if hooks.len() > 0 {
        let init = hooks.drop_last();
        lemma_hook_complaints(init);
        if forall|i: int| 0 <= i < init.len() ==> (#[trigger] init[i]).success {
            assert forall|i: int| 0 <= i < hooks.len() - 1 implies (
            #[trigger] hooks[i]).success by {
                assert(init[i].success);
            }
        } else {
            let i = choose|i: int| 0 <= i < init.len() && !(#[trigger] init[i]).success;
            assert(!hooks[i].success);
        }
        assert(hooks[hooks.len() - 1] == hooks.last());
    }
}

/// How the run of a hook ended.
#[derive(Debug)]
pub enum HookRun {
    /// It ended by itself, with this exit code where it has one, and this output.
    Ended { success: bool, code: Option<i32>, stdout: String, stderr: String },
    /// It could not be started.
    NotStarted,
    /// It took too long.
    TimedOut,
}

/// An exit code, where there is one.
pub open spec fn code_text(code: Option<i32>) -> Seq<char> {
    match code {
        Some(code) => "Some("@ + text::signed_decimal(code as int) + ")"@,
        None => "None"@,
    }
}

/// What is told of a hook whose run ended in this way.
pub open spec fn hook_outcome(command: Seq<char>, run: HookRun, timeout_secs: u64) -> HookView {
    match run {
        HookRun::Ended { success: true, stdout, .. } => HookView {
            command,
            success: true,
            output: stdout@,
        },
        HookRun::Ended { success: false, code, stdout, stderr } => HookView {
            command,
            success: false,
            output: "Command failed with exit code "@ + code_text(code) + "\nstdout: "@ + stdout@
                + "\nstderr: "@ + stderr@,
        },
        HookRun::NotStarted => HookView {
            command,
            success: false,
            output: "Failed to execute command: "@ + command,
        },
        HookRun::TimedOut => HookView {
            command,
            success: false,
            output: "Command timed out after "@ + text::decimal(timeout_secs as nat) + "s: "@
                + command,
        },
    }
}

fn push_code(s: &mut String, code: Option<i32>)
    ensures
        final(s)@ == old(s)@ + code_text(code),
{
    match code {
        Some(code) => {
            s.append("Some(");
            push_signed(s, code as i64);
            s.append(")");
        },
        None => {
            s.append("None");
        },
    }
    assert(s@ =~= old(s)@ + code_text(code));
}

/// What is told of a hook whose run ended in this way.
pub fn hook_result(command: &str, run: HookRun, timeout_secs: u64) -> (result: HookResult)
    ensures
        result@ == hook_outcome(command@, run, timeout_secs),
{
    match run {
        HookRun::Ended { success, code, stdout, stderr } => if success {
            HookResult { command: command.to_owned(), success: true, output: stdout }
        } else {
            let mut output = "Command failed with exit code ".to_owned();
            push_code(&mut output, code);
            output.append("\nstdout: ");
            output.append(stdout.as_str());
            output.append("\nstderr: ");
            output.append(stderr.as_str());
            HookResult { command: command.to_owned(), success: false, output }
        },
        HookRun::NotStarted => {
            let mut output = "Failed to execute command: ".to_owned();
            output.append(command);
            HookResult { command: command.to_owned(), success: false, output }
        },
        HookRun::TimedOut => {
            let mut output = "Command timed out after ".to_owned();
            push_decimal(&mut output, timeout_secs);
            output.append("s: ");
            output.append(command);
            HookResult { command: command.to_owned(), success: false, output }
        },
    }
}

/// Whether a scan shows the certificate with the expected fingerprint.
pub open spec fn shows_fingerprint(scan: ScanView, expected: Seq<char>) -> bool {
    scan.cert matches Some(cert) && cert.fingerprint_sha256 == expected
}

/// Whether a scan shows the certificate with the expected fingerprint. A scan that
/// failed shows none.
pub fn verify_deployment(scan: &ScanResult, expected_fingerprint: &str) -> (matches_expected: bool)
    ensures
        matches_expected == shows_fingerprint(scan@, expected_fingerprint@),
{
    match &scan.cert {
        Some(cert) => text_equal(cert.fingerprint_sha256.as_str(), expected_fingerprint),
        None => false,
    }
}

/// Deploys certificates.
#[derive(Debug, Clone)]
pub struct Deployer {
    config: Arc<Config>,
}

/// A deployment that is under way.
#[derive(Debug)]
pub struct Deployment {
    domain: String,
    commands: Vec<String>,
    expected: Option<String>,
    timeout_secs: u64,
    results: Vec<HookResult>,
    verification: Option<Result<bool, String>>,
}

/// What a `Deployment` says.
#[verifier::ext_equal]
pub struct DeploymentView {
    pub domain: Seq<char>,
    pub commands: Seq<Seq<char>>,
    pub expected: Option<Seq<char>>,
    pub timeout_secs: u64,
    pub results: Seq<HookView>,
    pub verification: Option<Result<bool, Seq<char>>>,
}

impl View for Deployment {
    type V = DeploymentView;

    closed spec fn view(&self) -> DeploymentView {
        DeploymentView {
            domain: self.domain@,
            commands: text::texts(self.commands@),
            expected: types::optional_text(self.expected),
            timeout_secs: self.timeout_secs,
            results: hook_views(self.results@),
            verification: verification_view(self.verification),
        }
    }
}

/// What is to be done next in a deployment.
#[derive(Debug)]
pub enum DeployStep {
    /// Run a hook.
    Run { command: String, timeout_secs: u64 },
    /// Wait for this long, then scan the domain, to see whether it shows the expected
    /// certificate.
    Verify { wait_secs: u64 },
    /// Nothing: the deployment is done.
    Done,
}

/// What a `DeployStep` says.
pub enum DeployStepView {
    Run { command: Seq<char>, timeout_secs: u64 },
    Verify { wait_secs: u64 },
    Done,
}

impl View for DeployStep {
    type V = DeployStepView;

    open spec fn view(&self) -> DeployStepView {
        match self {
            DeployStep::Run { command, timeout_secs } => DeployStepView::Run {
                command: command@,
                timeout_secs: *timeout_secs,
            },
            DeployStep::Verify { wait_secs } => DeployStepView::Verify {
                wait_secs: *wait_secs,
            },
            DeployStep::Done => DeployStepView::Done,
        }
    }
}

impl DeploymentView {
    /// The deployment for a domain, before its first step. The server is checked where
    /// that is configured and a fingerprint is expected.
    pub open spec fn begun(
        config: Config,
        dc: DomainConfig,
        expected_fingerprint: Option<Seq<char>>,
    ) -> DeploymentView {
        DeploymentView {
            domain: dc.name@,
            commands: match dc.deployment_hooks {
                Some(hooks) => text::texts(hooks@),
                None => Seq::empty(),
            },
            expected: if dc.verification_hook == Some(true) {
                expected_fingerprint
            } else {
                None
            },
            timeout_secs: config.hook_timeout(),
            results: Seq::empty(),
            verification: None,
        }
    }

    /// What is to be done next: the next hook, however the last one went; after the
    /// last hook the check, where there is one.
    pub open spec fn next(self) -> DeployStepView {
        if self.results.len() < self.commands.len() {
            DeployStepView::Run {
                command: self.commands[self.results.len() as int],
                timeout_secs: self.timeout_secs,
            }
        } else if self.expected is Some && self.verification is None {
            DeployStepView::Verify { wait_secs: 5 }
        } else {
            DeployStepView::Done
        }
    }

    /// After the run of the next hook ended in this way.
    pub open spec fn after_hook(self, run: HookRun) -> DeploymentView {
        DeploymentView {
            results: self.results.push(
                hook_outcome(
                    self.commands[self.results.len() as int],
                    run,
                    self.timeout_secs,
                ),
            ),
            ..self
        }
    }

    /// After the runs of hooks ended in these ways, one after the other.
    pub open spec fn after_hooks(self, runs: Seq<HookRun>) -> DeploymentView
        decreases runs.len(),
    {
        if runs.len() == 0 {
            self
        } else {
            self.after_hooks(runs.drop_last()).after_hook(runs.last())
        }
    }

    /// After this scan of the domain.
    pub open spec fn after_scan(self, scan: ScanView) -> DeploymentView {
        DeploymentView { verification: Some(Ok(shows_fingerprint(scan, self.expected->0))), ..self }
    }

    /// How the deployment went, as it stands.
    pub open spec fn result(self) -> DeployView {
        DeployView {
            domain: self.domain,
            hooks: self.results,
            verification: self.verification,
        }
    }
}

impl Deployment {
    /// What is to be done next.
    pub fn next_step(&self) -> (step: DeployStep)
        ensures
            step@ == self@.next(),
    {
        if self.results.len() < self.commands.len() {
            assert(text::texts(self.commands@)[self.results@.len() as int]
                == self.commands@[self.results@.len() as int]@);
            DeployStep::Run {
                command: self.commands[self.results.len()].clone(),
                timeout_secs: self.timeout_secs,
            }
        } else if self.expected.is_some() && self.verification.is_none() {
            DeployStep::Verify { wait_secs: 5 }
        } else {
            DeployStep::Done
        }
    }

    /// Takes in how the run of the next hook ended.
    pub fn record_hook(&mut self, run: HookRun)
        requires
            old(self)@.next() is Run,
        ensures
            final(self)@ == old(self)@.after_hook(run),
    {
        let n = self.results.len();
        let ghost before = hook_views(self.results@);
        assert(text::texts(self.commands@)[n as int] == self.commands@[n as int]@);
        let result = hook_result(self.commands[n].as_str(), run, self.timeout_secs);
        self.results.push(result);
        assert(hook_views(self.results@) =~= before.push(result@));
    }

    /// Takes in the scan of the domain after the last hook.
    pub fn record_scan(&mut self, scan: &ScanResult)
        requires
            old(self)@.next() is Verify,
        ensures
            final(self)@ == old(self)@.after_scan(scan@),
    {
        let passed = match &self.expected {
            Some(expected) => verify_deployment(scan, expected.as_str()),
            None => false,
        };
        self.verification = Some(Ok(passed));
    }

    /// How the deployment went.
    pub fn finish(self) -> (result: DeployResultInner)
        ensures
            result@ == self@.result(),
    {
        DeployResultInner {
            domain: self.domain,
            hooks: self.results,
            verification: self.verification,
        }
    }
}

impl Deployer {
    /// The configuration.
    pub closed spec fn spec_config(&self) -> Config {
        *self.config
    }

    pub fn new(config: Arc<Config>) -> (deployer: Deployer)
        ensures
            deployer.spec_config() == *config,
    {
        Deployer { config }
    }

    /// Begins the deployment for a domain.
    pub fn deploy_domain(
        &self,
        domain_config: &DomainConfig,
        expected_fingerprint: Option<String>,
    ) -> (deployment: Deployment)
        ensures
            deployment@ == DeploymentView::begun(
                self.spec_config(),
                *domain_config,
                types::optional_text(expected_fingerprint),
            ),
    {
        let commands = match &domain_config.deployment_hooks {
            Some(hooks) => types::clone_texts(hooks),
            None => Vec::new(),
        };
        let expected = match domain_config.verification_hook {
            Some(true) => expected_fingerprint,
            _ => None,
        };
        let deployment = Deployment {
            domain: domain_config.name.clone(),
            commands,
            expected,
            timeout_secs: self.config.hook_timeout_secs(),
            results: Vec::new(),
            verification: None,
        };
        proof {
            let begun = DeploymentView::begun(
                self.spec_config(),
                *domain_config,
                types::optional_text(expected_fingerprint),
            );
            assert(deployment@.commands =~= begun.commands);
            assert(deployment@.results =~= begun.results);
        }
        deployment
    }
}

proof fn lemma_after_hooks(begun: DeploymentView, runs: Seq<HookRun>)
    requires
        begun.results.len() == 0,
        runs.len() <= begun.commands.len(),
    ensures
        begun.after_hooks(runs) == (DeploymentView {
            results: begun.after_hooks(runs).results,
            ..begun
        }),
        begun.after_hooks(runs).results.len() == runs.len(),
        forall|i: int|
            0 <= i < runs.len() ==> #[trigger] begun.after_hooks(runs).results[i] == hook_outcome(
                begun.commands[i],
                runs[i],
                begun.timeout_secs,
            ),
    decreases runs.len(),
{
    if runs.len() > 0 {
        lemma_after_hooks(begun, runs.drop_last());
        let before = begun.after_hooks(runs.drop_last());
        let after = begun.after_hooks(runs);
        assert forall|i: int| 0 <= i < runs.len() implies #[trigger] after.results[i]
            == hook_outcome(begun.commands[i], runs[i], begun.timeout_secs) by {
            if i < runs.len() - 1 {
                assert(after.results[i] == before.results[i]);
                assert(runs.drop_last()[i] == runs[i]);
            }
        }
    }
}

/// Every hook of a domain is run once, in the configured order, whether or not those
/// before it failed, and the outcome of each is told.
pub proof fn every_hook_runs_once_in_order(
    config: Config,
    dc: DomainConfig,
    expected: Option<Seq<char>>,
    runs: Seq<HookRun>,
)
    requires
        dc.deployment_hooks matches Some(hooks) && runs.len() <= hooks@.len(),
    ensures
        ({
            let hooks = text::texts(dc.deployment_hooks->0@);
            let deployment = DeploymentView::begun(config, dc, expected).after_hooks(runs);
            &&& runs.len() < hooks.len() ==> deployment.next() == (DeployStepView::Run {
                command: hooks[runs.len() as int],
                timeout_secs: config.hook_timeout(),
            })
            &&& runs.len() == hooks.len() ==> !(deployment.next() is Run)
            &&& deployment.result().hooks == Seq::new(
                runs.len(),
                |i: int| hook_outcome(hooks[i], runs[i], config.hook_timeout()),
            )
        }),
{
    let begun = DeploymentView::begun(config, dc, expected);
    lemma_after_hooks(begun, runs);
    let hooks = text::texts(dc.deployment_hooks->0@);
    assert(begun.after_hooks(runs).results =~= Seq::new(
        runs.len(),
        |i: int| hook_outcome(hooks[i], runs[i], config.hook_timeout()),
    ));
}

/// After the hooks, the server is checked exactly where that is switched on and a
/// fingerprint is expected; the check passes exactly if the scan shows that
/// fingerprint.
pub proof fn servers_are_checked_after_the_hooks(
    config: Config,
    dc: DomainConfig,
    expected: Option<Seq<char>>,
    runs: Seq<HookRun>,
    scan: ScanView,
)
    requires
        runs.len() == match dc.deployment_hooks {
            Some(hooks) => hooks@.len(),
            None => 0,
        },
    ensures
        ({
            let deployment = DeploymentView::begun(config, dc, expected).after_hooks(runs);
            let checked = dc.verification_hook == Some(true) && expected is Some;
            &&& deployment.next() == if checked {
                DeployStepView::Verify { wait_secs: 5 }
            } else {
                DeployStepView::Done
            }
            &&& !checked ==> deployment.result().verification is None
            &&& checked ==> deployment.after_scan(scan).next() is Done
                && deployment.after_scan(scan).result().verification == Some(
                Ok::<bool, Seq<char>>(shows_fingerprint(scan, expected->0)),
            )
        }),
{
    lemma_after_hooks(DeploymentView::begun(config, dc, expected), runs);
}

/// A hook succeeded exactly where it ended by itself with success: what is told is then what
/// it wrote. Where it failed, both of its outputs and its exit code are told; where it could
/// not be started or took too long, the command, and then also the time that it had.
pub proof fn hooks_are_judged_by_how_they_ended(command: Seq<char>, run: HookRun, timeout_secs: u64)
    ensures
        hook_outcome(command, run, timeout_secs).command == command,
        hook_outcome(command, run, timeout_secs).success <==> (run matches HookRun::Ended {
            success,
            ..
        } && success),
        run matches HookRun::Ended { success, code, stdout, stderr } ==> {
            let output = hook_outcome(command, run, timeout_secs).output;
            &&& success ==> output == stdout@
            &&& !success ==> text::has_part(output, "\nstdout: "@ + stdout@ + "\nstderr: "@)
            &&& !success ==> text::ends_with(output, "\nstderr: "@ + stderr@)
            &&& !success ==> (code matches Some(code) ==> text::has_part(
                output,
                text::signed_decimal(code as int),
            ))
        },
        run is NotStarted || run is TimedOut ==> text::ends_with(
            hook_outcome(command, run, timeout_secs).output,
            command,
        ),
        run is TimedOut ==> text::has_part(
            hook_outcome(command, run, timeout_secs).output,
            text::decimal(timeout_secs as nat) + "s"@,
        ),
{
    let output = hook_outcome(command, run, timeout_secs).output;
    match run {
        HookRun::Ended { success, code, stdout, stderr } => {
            if !success {
                let head = "Command failed with exit code "@ + code_text(code);
                let tail = "\nstderr: "@ + stderr@;
                text::lemma_labelled(head, "\nstdout: "@, stdout@, "\nstderr: "@);
                text::lemma_goes_on(head + "\nstdout: "@ + stdout@ + "\nstderr: "@, stderr@);
                assert(output.skip(output.len() - tail.len()) =~= tail);
                if let Some(code) = code {
                    let number = text::signed_decimal(code as int);
                    text::lemma_has_part("Some("@, number, ")"@);
                    text::lemma_has_part_within(
                        "Command failed with exit code "@,
                        code_text(Some(code)),
                        "\nstdout: "@ + stdout@ + "\nstderr: "@ + stderr@,
                        number,
                    );
                    assert("Command failed with exit code "@ + code_text(Some(code)) + (
                    "\nstdout: "@ + stdout@ + "\nstderr: "@ + stderr@) =~= output);
                }
            }
        },
        HookRun::NotStarted => {
            assert(output.skip(output.len() - command.len()) =~= command);
        },
        HookRun::TimedOut => {
            reveal_strlit("s: ");
            reveal_strlit("s");
            reveal_strlit(": ");
            assert(output.skip(output.len() - command.len()) =~= command);
            let number = text::decimal(timeout_secs as nat);
            let part = number + "s"@;
            text::lemma_has_part("Command timed out after "@, part, ": "@ + command);
            assert("Command timed out after "@ + part + (": "@ + command) =~= output);
        },
    }
}

/// A deployment begins for its own domain, with the hooks that are configured for it and no
/// results; a fingerprint is checked only where that is switched on, and is then the one that
/// was asked for.
pub proof fn deployments_begin_with_their_hooks(
    config: Config,
    dc: DomainConfig,
    expected: Option<Seq<char>>,
)
    ensures
        ({
            let begun = DeploymentView::begun(config, dc, expected);
            &&& begun.domain == dc.name@
            &&& begun.result().domain == dc.name@
            &&& begun.results.len() == 0
            &&& begun.verification is None
            &&& dc.deployment_hooks is None ==> begun.commands.len() == 0
            &&& dc.deployment_hooks matches Some(hooks) ==> {
                &&& begun.commands.len() == hooks@.len()
                &&& forall|i: int|
                    0 <= i < hooks@.len() ==> #[trigger] begun.commands[i] == hooks@[i]@
            }
            &&& begun.expected is Some ==> dc.verification_hook == Some(true) && begun.expected
                == expected
            &&& dc.verification_hook == Some(true) ==> begun.expected == expected
            &&& config.global.hook_timeout matches Some(secs) ==> begun.timeout_secs == secs
            &&& config.global.hook_timeout is None ==> begun.timeout_secs == 60
        }),
{
}

/// A scan passes exactly where it shows a certificate, and that has the fingerprint: a scan
/// that failed does not pass.
pub proof fn scans_pass_by_their_fingerprint(scan: ScanView, expected: Seq<char>)
    ensures
        scan.cert is None ==> !shows_fingerprint(scan, expected),
        scan.cert matches Some(cert) ==> (shows_fingerprint(scan, expected)
            <==> cert.fingerprint_sha256 == expected),
{
}

/// Each hook that fails has a complaint, in the order of the hooks, with its command and what
/// was told of it; a verification has one where it did not pass.
pub proof fn every_failure_has_a_complaint(
    hooks: Seq<HookView>,
    hook: HookView,
    verification: Option<Result<bool, Seq<char>>>,
)
    ensures
        hook.success ==> hook_complaints(hooks.push(hook)) == hook_complaints(hooks),
        !hook.success ==> hook_complaints(hooks.push(hook)) == hook_complaints(hooks).push(
            hook_complaint(hook),
        ),
        text::has_part(hook_complaint(hook), "'"@ + hook.command + "'"@),
        text::ends_with(hook_complaint(hook), hook.output),
        verification_complaints(verification).len() == (if verification is None
            || verification == Some(Ok::<bool, Seq<char>>(true)) {
            0nat
        } else {
            1
        }),
        verification matches Some(Err(message)) ==> text::ends_with(
            verification_complaints(verification)[0],
            message,
        ),
{
    assert(hooks.push(hook).drop_last() =~= hooks);
    let whole = hook_complaint(hook);
    assert(whole.skip(whole.len() - hook.output.len()) =~= hook.output);
    reveal_strlit("Hook '");
    reveal_strlit("Hook ");
    reveal_strlit("'");
    reveal_strlit("' failed: ");
    reveal_strlit(" failed: ");
    let part = "'"@ + hook.command + "'"@;
    text::lemma_has_part("Hook "@, part, " failed: "@ + hook.output);
    assert("Hook "@ + part + (" failed: "@ + hook.output) =~= whole);
    if let Some(Err(message)) = verification {
        let told = "Verification error: "@ + message;
        assert(told.skip(told.len() - message.len()) =~= message);
    }
}

/// The complaints about a deployment are those about its hooks and then that about its
/// verification.
pub proof fn complaints_come_in_their_order(result: DeployView)
    ensures
        result.complaints() == hook_complaints(result.hooks) + verification_complaints(
            result.verification,
        ),
        result.hooks_succeeded() ==> result.complaints() == verification_complaints(
            result.verification,
        ),
{
    lemma_hook_complaints(result.hooks);
    if result.hooks_succeeded() {
        assert(hook_complaints(result.hooks) =~= Seq::empty());
        assert(result.complaints() =~= verification_complaints(result.verification));
    }
}

/// Results of hooks and deployments are viewed by their own fields.
pub proof fn deployments_are_viewed_field_by_field(hook: HookResult, result: DeployResultInner)
    ensures
        hook@.command == hook.command@,
        hook@.success == hook.success,
        hook@.output == hook.output@,
        result@.domain == result.domain@,
        result@.hooks.len() == result.hooks@.len(),
        forall|i: int| 0 <= i < result.hooks@.len() ==> #[trigger] result@.hooks[i]
            == result.hooks@[i]@,
        result@.verification is Some <==> result.verification is Some,
        result.verification matches Some(Ok(passed)) ==> result@.verification == Some(
            Ok::<bool, Seq<char>>(passed),
        ),
        result.verification matches Some(Err(message)) ==> result@.verification == Some(
            Err::<bool, Seq<char>>(message@),
        ),
{
}

} // verus!
