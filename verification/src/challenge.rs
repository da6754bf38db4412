//! Showing control over a domain to a certificate authority: the steps, and what is
//! said where one of them fails.
use crate::acme::ChallengePlan;
use vstd::prelude::*;

verus! {

/// A step on the way to a validated order. Challenges are named by the number of
/// their authorization, counted from zero.
#[derive(Debug, Clone, Copy, PartialEq, Eq, Structural)]
pub enum ChallengeStep {
    /// Make the proof of a challenge public: as a file, or as a DNS record.
    Publish { index: usize },
    /// Do nothing for a while.
    Wait { secs: u64 },
    /// Have the authority check a challenge, asking for the outcome at this interval.
    Validate { index: usize, interval_millis: u64 },
    /// Ask for the state of the order.
    Refresh,
    /// Make sure that the order is validated.
    Confirm,
    /// Delete the DNS record of a challenge.
    CleanUp { index: usize },
}

/// How often the authority is asked for an outcome.
pub const INTERVAL_MILLIS: u64 = 5000;

/// The steps for one challenge: its proof is public before it is checked. A record is
/// given time to spread.
pub open spec fn steps_for_one(dns: bool, index: usize) -> Seq<ChallengeStep> {
    let publish = ChallengeStep::Publish { index };
    let validate = ChallengeStep::Validate { index, interval_millis: INTERVAL_MILLIS };
    if dns {
        seq![publish, ChallengeStep::Wait { secs: 5 }, validate]
    } else {
        seq![publish, validate]
    }
}

/// The steps for the first `n` challenges, one after the other.
pub open spec fn steps_for_all(dns: bool, n: nat) -> Seq<ChallengeStep>
    decreases n,
{
    if n == 0 {
        Seq::empty()
    } else {
        steps_for_all(dns, (n - 1) as nat) + steps_for_one(dns, (n - 1) as usize)
    }
}

/// The steps after the last challenge, up to the validated order.
pub open spec fn steps_to_confirm(dns: bool) -> Seq<ChallengeStep> {
    if dns {
        seq![ChallengeStep::Wait { secs: 10 }, ChallengeStep::Confirm]
    } else {
        seq![ChallengeStep::Wait { secs: 5 }, ChallengeStep::Refresh, ChallengeStep::Confirm]
    }
}

/// The steps that tidy up: the records are deleted, the files are left.
pub open spec fn steps_to_clean_up(dns: bool, n: nat) -> Seq<ChallengeStep> {
    if dns {
        Seq::new(n, |i: int| ChallengeStep::CleanUp { index: i as usize })
    } else {
        Seq::empty()
    }
}

/// All steps for `n` challenges.
pub open spec fn challenge_steps(dns: bool, n: nat) -> Seq<ChallengeStep> {
    steps_for_all(dns, n) + steps_to_confirm(dns) + steps_to_clean_up(dns, n)
}

/// Whether a plan works with DNS records.
pub open spec fn uses_dns(plan: ChallengePlan<'_>) -> bool {
    plan is Dns01
}

/// The steps with which control over a domain is shown in `count` challenges. Where
/// one fails, those after it are not taken.
pub fn plan_steps(plan: &ChallengePlan<'_>, count: usize) -> (steps: Vec<ChallengeStep>)
    ensures
        steps@ == challenge_steps(uses_dns(*plan), count as nat),
{
    let dns = match plan {
        ChallengePlan::Http01 { .. } => false,
        ChallengePlan::Dns01 { .. } => true,
    };
    let mut steps: Vec<ChallengeStep> = Vec::new();
    let mut i: usize = 0;
    while i < count
        invariant
            i <= count,
            steps@ == steps_for_all(dns, i as nat),
        decreases count - i,
    {
        steps.push(ChallengeStep::Publish { index: i });
        if dns {
            steps.push(ChallengeStep::Wait { secs: 5 });
        }
        steps.push(ChallengeStep::Validate { index: i, interval_millis: INTERVAL_MILLIS });
        assert(steps@ =~= steps_for_all(dns, i as nat) + steps_for_one(dns, i));
        i += 1;
    }
    if !dns {
        steps.push(ChallengeStep::Wait { secs: 5 });
        steps.push(ChallengeStep::Refresh);
        steps.push(ChallengeStep::Confirm);
        assert(steps@ =~= challenge_steps(dns, count as nat));
        return steps;
    }
    steps.push(ChallengeStep::Wait { secs: 10 });
    steps.push(ChallengeStep::Confirm);
    let ghost confirmed = steps@;
    assert(confirmed =~= steps_for_all(dns, count as nat) + steps_to_confirm(dns));
    let mut i: usize = 0;
    assert(steps@ =~= confirmed + steps_to_clean_up(true, 0));
    while i < count
        invariant
            i <= count,
            steps@ == confirmed + steps_to_clean_up(true, i as nat),
        decreases count - i,
    {
        steps.push(ChallengeStep::CleanUp { index: i });
        assert(steps@ =~= confirmed + steps_to_clean_up(true, (i + 1) as nat));
        i += 1;
    }
    steps
}

/// How many steps there are for one challenge.
pub open spec fn step_count(dns: bool) -> nat {
    if dns {
        3
    } else {
        2
    }
}

proof fn lemma_steps_for_all(dns: bool, n: nat, i: nat)
    requires
        i < n <= usize::MAX,
    ensures
        steps_for_all(dns, n).len() == n * step_count(dns),
        i * step_count(dns) + step_count(dns) <= n * step_count(dns),
        steps_for_all(dns, n).subrange(
            (i * step_count(dns)) as int,
            (i * step_count(dns) + step_count(dns)) as int,
        ) == steps_for_one(dns, i as usize),
        forall|k: int|
            0 <= k < steps_for_all(dns, n).len() ==> !((#[trigger] steps_for_all(dns, n)[k])
                is CleanUp) && !(steps_for_all(dns, n)[k] is Confirm),
    decreases n,
{
    let before = steps_for_all(dns, (n - 1) as nat);
    let own = steps_for_one(dns, (n - 1) as usize);
    let all = steps_for_all(dns, n);
    if n == 1 {
        assert(before =~= Seq::empty());
        assert(all =~= own);
        assert(own.subrange(0, own.len() as int) =~= own);
    } else if i < n - 1 {
        lemma_steps_for_all(dns, (n - 1) as nat, i);
        assert(all.subrange(
            (i * step_count(dns)) as int,
            (i * step_count(dns) + step_count(dns)) as int,
        ) =~= before.subrange(
            (i * step_count(dns)) as int,
            (i * step_count(dns) + step_count(dns)) as int,
        ));
    } else {
        lemma_steps_for_all(dns, (n - 1) as nat, 0);
        assert(all.subrange(before.len() as int, all.len() as int) =~= own);
    }
    assert forall|k: int| 0 <= k < all.len() implies !((#[trigger] all[k]) is CleanUp) && !(all[k]
        is Confirm) by {
        if k < before.len() {
            assert(all[k] == before[k]);
        } else {
            assert(all[k] == own[k - before.len()]);
        }
    }
}

/// The proof of every challenge is made public before the authority checks it, and
/// every challenge is checked before the order is confirmed.
pub proof fn proofs_are_public_before_they_are_checked(dns: bool, n: nat, i: nat)
    requires
        i < n <= usize::MAX,
    ensures
        exists|p: int, q: int, r: int|
            0 <= p < q < r < challenge_steps(dns, n).len() && #[trigger] challenge_steps(dns, n)[p]
                == (ChallengeStep::Publish { index: i as usize }) && #[trigger] challenge_steps(
                dns,
                n,
            )[q] == (ChallengeStep::Validate {
                index: i as usize,
                interval_millis: INTERVAL_MILLIS,
            }) && #[trigger] challenge_steps(dns, n)[r] == ChallengeStep::Confirm,
{
    lemma_steps_for_all(dns, n, i);
    let steps = challenge_steps(dns, n);
    let all = steps_for_all(dns, n);
    let size = step_count(dns) as int;
    let p = (i * step_count(dns)) as int;
    let own = all.subrange(p, p + size);
    assert(all[p] == own[0]);
    assert(all[p + size - 1] == own[size - 1]);
    assert(steps[p] == all[p]);
    assert(steps[p + size - 1] == all[p + size - 1]);
    let r = all.len() + steps_to_confirm(dns).len() - 1;
    assert(steps[r] == ChallengeStep::Confirm);
}

/// Once the order is confirmed, every DNS record is deleted, each once and in the
/// order in which it was made; nothing is deleted before that, and no other step
/// follows.
pub proof fn records_are_deleted_after_the_order_is_confirmed(dns: bool, n: nat)
    requires
        n <= usize::MAX,
    ensures
        ({
            let steps = challenge_steps(dns, n);
            let confirmed = steps.len() - 1 - if dns {
                n as int
            } else {
                0
            };
            &&& steps[confirmed] == ChallengeStep::Confirm
            &&& forall|k: int|
                0 <= k < confirmed ==> !((#[trigger] steps[k]) is CleanUp) && !(steps[k] is Confirm)
            &&& forall|k: int|
                confirmed < k < steps.len() ==> #[trigger] steps[k] == (ChallengeStep::CleanUp {
                    index: (k - confirmed - 1) as usize,
                })
        }),
{
    let steps = challenge_steps(dns, n);
    let all = steps_for_all(dns, n);
    let to_confirm = steps_to_confirm(dns);
    let confirmed = all.len() + to_confirm.len() - 1;
    if n > 0 {
        lemma_steps_for_all(dns, n, 0);
    }
    assert forall|k: int| 0 <= k < confirmed implies !((#[trigger] steps[k]) is CleanUp) && !(
    steps[k] is Confirm) by {
        if k < all.len() {
            assert(steps[k] == all[k]);
        } else {
            assert(steps[k] == to_confirm[k - all.len()]);
        }
    }
}

/// Why a certificate was not renewed.
#[derive(Debug)]
pub enum RenewalFailure {
    /// The directory for the account could not be made.
    PersistDirectory { path: String },
    /// The authority's directory could not be read.
    Directory { reason: String },
    /// There is no account.
    Account { reason: String },
    /// No order could be placed.
    Order { reason: String },
    /// The directory for the proofs could not be made.
    ChallengeDirectory { path: String },
    /// The authorizations could not be had.
    Authorizations { reason: String },
    /// A proof could not be written.
    ChallengeFile { path: String },
    /// Cloudflare could not be reached.
    Cloudflare,
    /// Aliyun could not be reached.
    Aliyun,
    /// A challenge was not validated.
    Validate { reason: String },
    /// The state of the order could not be had.
    Refresh { reason: String },
    /// The order is not validated.
    Unconfirmed,
    /// The order could not be finalized.
    Finalize { reason: String },
    /// The certificate could not be had.
    Download { reason: String },
    /// The directory for the certificate could not be made.
    CertificateDirectory { path: String },
    /// The certificate could not be written.
    Fullchain { path: String },
    /// The key could not be written.
    Privkey { path: String },
}

impl RenewalFailure {
    /// The failure in words.
    pub open spec fn text(self) -> Seq<char> {
        match self {
            RenewalFailure::PersistDirectory { path } => "Failed to create ACME persist dir: "@
                + path@,
            RenewalFailure::Directory { reason } => "Failed to create ACME directory: "@ + reason@,
            RenewalFailure::Account { reason } => "Failed to get/create ACME account: "@ + reason@,
            RenewalFailure::Order { reason } => "Failed to create order: "@ + reason@,
            RenewalFailure::ChallengeDirectory { path } => "Failed to create challenge dir: "@
                + path@,
            RenewalFailure::Authorizations { reason } => "Failed to get authorizations: "@
                + reason@,
            RenewalFailure::ChallengeFile { path } => "Failed to write challenge file: "@ + path@,
            RenewalFailure::Cloudflare => "Failed to call "@ + "Cloudflare API"@,
            RenewalFailure::Aliyun => "Failed to call "@ + "Aliyun DNS API"@,
            RenewalFailure::Validate { reason } => "Failed to validate challenge: "@ + reason@,
            RenewalFailure::Refresh { reason } => "Failed to refresh order: "@ + reason@,
            RenewalFailure::Unconfirmed => "Failed to "@ + "confirm validations"@,
            RenewalFailure::Finalize { reason } => "Failed to finalize order: "@ + reason@,
            RenewalFailure::Download { reason } => "Failed to download certificate: "@ + reason@,
            RenewalFailure::CertificateDirectory { path } => "Failed to create cert directory: "@
                + path@,
            RenewalFailure::Fullchain { path } => "Failed to write fullchain: "@ + path@,
            RenewalFailure::Privkey { path } => "Failed to write privkey: "@ + path@,
        }
    }

    /// The failure in words.
    pub fn message(&self) -> (message: String)
        ensures
            message@ == self.text(),
    {
        let (prefix, detail) = match self {
            RenewalFailure::PersistDirectory { path } => (
                "Failed to create ACME persist dir: ",
                path.as_str(),
            ),
            RenewalFailure::Directory { reason } => (
                "Failed to create ACME directory: ",
                reason.as_str(),
            ),
            RenewalFailure::Account { reason } => (
                "Failed to get/create ACME account: ",
                reason.as_str(),
            ),
            RenewalFailure::Order { reason } => ("Failed to create order: ", reason.as_str()),
            RenewalFailure::ChallengeDirectory { path } => (
                "Failed to create challenge dir: ",
                path.as_str(),
            ),
            RenewalFailure::Authorizations { reason } => (
                "Failed to get authorizations: ",
                reason.as_str(),
            ),
            RenewalFailure::ChallengeFile { path } => (
                "Failed to write challenge file: ",
                path.as_str(),
            ),
            RenewalFailure::Cloudflare => ("Failed to call ", "Cloudflare API"),
            RenewalFailure::Aliyun => ("Failed to call ", "Aliyun DNS API"),
            RenewalFailure::Validate { reason } => (
                "Failed to validate challenge: ",
                reason.as_str(),
            ),
            RenewalFailure::Refresh { reason } => ("Failed to refresh order: ", reason.as_str()),
            RenewalFailure::Unconfirmed => ("Failed to ", "confirm validations"),
            RenewalFailure::Finalize { reason } => ("Failed to finalize order: ", reason.as_str()),
            RenewalFailure::Download { reason } => (
                "Failed to download certificate: ",
                reason.as_str(),
            ),
            RenewalFailure::CertificateDirectory { path } => (
                "Failed to create cert directory: ",
                path.as_str(),
            ),
            RenewalFailure::Fullchain { path } => ("Failed to write fullchain: ", path.as_str()),
            RenewalFailure::Privkey { path } => ("Failed to write privkey: ", path.as_str()),
        };
        let mut message = prefix.to_owned();
        message.append(detail);
        message
    }
}

/// A DNS record is given five seconds to spread before its challenge is checked, a file is
/// checked at once; the authority is asked every five seconds. Each challenge is gone through
/// in its turn.
pub proof fn records_are_given_time_to_spread(n: nat, i: nat)
    requires
        i < n <= usize::MAX,
    ensures
        challenge_steps(true, n)[3 * i as int] == (ChallengeStep::Publish { index: i as usize }),
        challenge_steps(true, n)[3 * i as int + 1] == (ChallengeStep::Wait { secs: 5 }),
        challenge_steps(true, n)[3 * i as int + 2] == (ChallengeStep::Validate {
            index: i as usize,
            interval_millis: 5000,
        }),
        challenge_steps(false, n)[2 * i as int] == (ChallengeStep::Publish { index: i as usize }),
        challenge_steps(false, n)[2 * i as int + 1] == (ChallengeStep::Validate {
            index: i as usize,
            interval_millis: 5000,
        }),
{
    lemma_steps_for_all(true, n, i);
    lemma_steps_for_all(false, n, i);
    let dns = steps_for_all(true, n);
    let files = steps_for_all(false, n);
    let d = 3 * i as int;
    let f = 2 * i as int;
    let one = dns.subrange(d, d + 3);
    let other = files.subrange(f, f + 2);
    assert(dns[d] == one[0] && dns[d + 1] == one[1] && dns[d + 2] == one[2]);
    assert(files[f] == other[0] && files[f + 1] == other[1]);
    assert(challenge_steps(true, n)[d] == dns[d]);
    assert(challenge_steps(true, n)[d + 1] == dns[d + 1]);
    assert(challenge_steps(true, n)[d + 2] == dns[d + 2]);
    assert(challenge_steps(false, n)[f] == files[f]);
    assert(challenge_steps(false, n)[f + 1] == files[f + 1]);
}

/// After the last challenge there is a pause, of ten seconds with records and of five with
/// files; with files, the state of the order is then asked for once more.
pub proof fn orders_are_confirmed_after_a_pause(n: nat)
    requires
        n <= usize::MAX,
    ensures
        challenge_steps(true, n).len() == 4 * n + 2,
        challenge_steps(true, n)[3 * n as int] == (ChallengeStep::Wait { secs: 10 }),
        challenge_steps(true, n)[3 * n as int + 1] == ChallengeStep::Confirm,
        challenge_steps(false, n).len() == 2 * n + 3,
        challenge_steps(false, n)[2 * n as int] == (ChallengeStep::Wait { secs: 5 }),
        challenge_steps(false, n)[2 * n as int + 1] == ChallengeStep::Refresh,
        challenge_steps(false, n)[2 * n as int + 2] == ChallengeStep::Confirm,
{
    if n > 0 {
        lemma_steps_for_all(true, n, 0);
        lemma_steps_for_all(false, n, 0);
    }
    assert(steps_for_all(true, n).len() == 3 * n);
    assert(steps_for_all(false, n).len() == 2 * n);
}

/// A failure is told with what it is about: the path, or the reason that was given.
pub proof fn failures_are_told_with_their_reason(failure: RenewalFailure)
    ensures
        failure matches RenewalFailure::PersistDirectory { path } ==> ends(failure, path@),
        failure matches RenewalFailure::Directory { reason } ==> ends(failure, reason@),
        failure matches RenewalFailure::Account { reason } ==> ends(failure, reason@),
        failure matches RenewalFailure::Order { reason } ==> ends(failure, reason@),
        failure matches RenewalFailure::ChallengeDirectory { path } ==> ends(failure, path@),
        failure matches RenewalFailure::Authorizations { reason } ==> ends(failure, reason@),
        failure matches RenewalFailure::ChallengeFile { path } ==> ends(failure, path@),
        failure matches RenewalFailure::Validate { reason } ==> ends(failure, reason@),
        failure matches RenewalFailure::Refresh { reason } ==> ends(failure, reason@),
        failure matches RenewalFailure::Finalize { reason } ==> ends(failure, reason@),
        failure matches RenewalFailure::Download { reason } ==> ends(failure, reason@),
        failure matches RenewalFailure::CertificateDirectory { path } ==> ends(failure, path@),
        failure matches RenewalFailure::Fullchain { path } ==> ends(failure, path@),
        failure matches RenewalFailure::Privkey { path } ==> ends(failure, path@),
        crate::text::begins_with(failure.text(), "Failed to "@),
{
    lemma_failed_to();
    match failure {
        RenewalFailure::PersistDirectory { path } => {
            lemma_ends("Failed to create ACME persist dir: "@, path@);
        },
        RenewalFailure::Directory { reason } => {
            lemma_ends("Failed to create ACME directory: "@, reason@);
        },
        RenewalFailure::Account { reason } => {
            lemma_ends("Failed to get/create ACME account: "@, reason@);
        },
        RenewalFailure::Order { reason } => {
            lemma_ends("Failed to create order: "@, reason@);
        },
        RenewalFailure::ChallengeDirectory { path } => {
            lemma_ends("Failed to create challenge dir: "@, path@);
        },
        RenewalFailure::Authorizations { reason } => {
            lemma_ends("Failed to get authorizations: "@, reason@);
        },
        RenewalFailure::ChallengeFile { path } => {
            lemma_ends("Failed to write challenge file: "@, path@);
        },
        RenewalFailure::Cloudflare => {
            lemma_ends("Failed to call "@, "Cloudflare API"@);
        },
        RenewalFailure::Aliyun => {
            lemma_ends("Failed to call "@, "Aliyun DNS API"@);
        },
        RenewalFailure::Validate { reason } => {
            lemma_ends("Failed to validate challenge: "@, reason@);
        },
        RenewalFailure::Refresh { reason } => {
            lemma_ends("Failed to refresh order: "@, reason@);
        },
        RenewalFailure::Unconfirmed => {
            lemma_ends("Failed to "@, "confirm validations"@);
        },
        RenewalFailure::Finalize { reason } => {
            lemma_ends("Failed to finalize order: "@, reason@);
        },
        RenewalFailure::Download { reason } => {
            lemma_ends("Failed to download certificate: "@, reason@);
        },
        RenewalFailure::CertificateDirectory { path } => {
            lemma_ends("Failed to create cert directory: "@, path@);
        },
        RenewalFailure::Fullchain { path } => {
            lemma_ends("Failed to write fullchain: "@, path@);
        },
        RenewalFailure::Privkey { path } => {
            lemma_ends("Failed to write privkey: "@, path@);
        },
    }
}

/// Whether a failure is told with this at the end.
pub open spec fn ends(failure: RenewalFailure, detail: Seq<char>) -> bool {
    crate::text::ends_with(failure.text(), detail)
}

proof fn lemma_ends(prefix: Seq<char>, detail: Seq<char>)
    ensures
        crate::text::ends_with(prefix + detail, detail),
        crate::text::begins_with(prefix, "Failed to "@) ==> crate::text::begins_with(
            prefix + detail,
            "Failed to "@,
        ),
{
    let whole = prefix + detail;
    assert(whole.skip(whole.len() - detail.len()) =~= detail);
    let n = "Failed to "@.len() as int;
    if n <= prefix.len() {
        assert(whole.take(n) =~= prefix.take(n));
    }
}

/// Every message begins alike.
proof fn lemma_failed_to()
    ensures
        crate::text::begins_with("Failed to create ACME persist dir: "@, "Failed to "@),
        crate::text::begins_with("Failed to create ACME directory: "@, "Failed to "@),
        crate::text::begins_with("Failed to get/create ACME account: "@, "Failed to "@),
        crate::text::begins_with("Failed to create order: "@, "Failed to "@),
        crate::text::begins_with("Failed to create challenge dir: "@, "Failed to "@),
        crate::text::begins_with("Failed to get authorizations: "@, "Failed to "@),
        crate::text::begins_with("Failed to write challenge file: "@, "Failed to "@),
        crate::text::begins_with("Failed to call "@, "Failed to "@),
        crate::text::begins_with("Failed to validate challenge: "@, "Failed to "@),
        crate::text::begins_with("Failed to refresh order: "@, "Failed to "@),
        crate::text::begins_with("Failed to "@, "Failed to "@),
        crate::text::begins_with("Failed to finalize order: "@, "Failed to "@),
        crate::text::begins_with("Failed to download certificate: "@, "Failed to "@),
        crate::text::begins_with("Failed to create cert directory: "@, "Failed to "@),
        crate::text::begins_with("Failed to write fullchain: "@, "Failed to "@),
        crate::text::begins_with("Failed to write privkey: "@, "Failed to "@),
{
    reveal_strlit("Failed to ");
    reveal_strlit("Failed to create ACME persist dir: ");
    reveal_strlit("Failed to create ACME directory: ");
    reveal_strlit("Failed to get/create ACME account: ");
    reveal_strlit("Failed to create order: ");
    reveal_strlit("Failed to create challenge dir: ");
    reveal_strlit("Failed to get authorizations: ");
    reveal_strlit("Failed to write challenge file: ");
    reveal_strlit("Failed to call ");
    reveal_strlit("Failed to validate challenge: ");
    reveal_strlit("Failed to refresh order: ");
    reveal_strlit("Failed to finalize order: ");
    reveal_strlit("Failed to download certificate: ");
    reveal_strlit("Failed to create cert directory: ");
    reveal_strlit("Failed to write fullchain: ");
    reveal_strlit("Failed to write privkey: ");
    let head = "Failed to "@;
    assert("Failed to create ACME persist dir: "@.take(10) =~= head);
    assert("Failed to create ACME directory: "@.take(10) =~= head);
    assert("Failed to get/create ACME account: "@.take(10) =~= head);
    assert("Failed to create order: "@.take(10) =~= head);
    assert("Failed to create challenge dir: "@.take(10) =~= head);
    assert("Failed to get authorizations: "@.take(10) =~= head);
    assert("Failed to write challenge file: "@.take(10) =~= head);
    assert("Failed to call "@.take(10) =~= head);
    assert("Failed to validate challenge: "@.take(10) =~= head);
    assert("Failed to refresh order: "@.take(10) =~= head);
    assert("Failed to "@.take(10) =~= head);
    assert("Failed to finalize order: "@.take(10) =~= head);
    assert("Failed to download certificate: "@.take(10) =~= head);
    assert("Failed to create cert directory: "@.take(10) =~= head);
    assert("Failed to write fullchain: "@.take(10) =~= head);
    assert("Failed to write privkey: "@.take(10) =~= head);
}

/// Records are used exactly where the plan is one with DNS.
pub proof fn plans_with_a_provider_use_records(plan: ChallengePlan<'_>)
    ensures
        plan is Dns01 ==> uses_dns(plan),
        plan is Http01 ==> !uses_dns(plan),
{
}

} // verus!
