//! What the monitor remembers of each domain, and how it changes.
use crate::clock::{self, hours_elapsed, Timestamp};
use crate::types::{
    self, AlertLevel, AppState, AppView, DomainState, DomainView, RenewalHistory, RenewalView,
};
use vstd::prelude::*;

verus! {

/// The most renewals that are remembered of a domain.
pub const HISTORY_LENGTH: usize = 5;

/// A history, after one more renewal: the last renewals, at most as many as are
/// remembered.
pub open spec fn extended_history(
    history: Seq<RenewalView>,
    renewal: RenewalView,
) -> Seq<RenewalView> {
    let longer = history.push(renewal);
    if longer.len() > HISTORY_LENGTH {
        longer.skip(longer.len() - HISTORY_LENGTH)
    } else {
        longer
    }
}

impl DomainView {
    /// After a scan at `now`.
    pub open spec fn scanned(self, now: Timestamp) -> DomainView {
        DomainView { last_scan: Some(now), ..self }
    }

    /// After a successful renewal at `now`.
    pub open spec fn renewed(self, now: Timestamp) -> DomainView {
        DomainView { last_renew: Some(now), ..self }
    }

    /// With a certificate of this fingerprint.
    pub open spec fn fingerprinted(self, fingerprint: Seq<char>) -> DomainView {
        DomainView { current_fingerprint: Some(fingerprint), ..self }
    }

    /// After an alert of this level at `now`.
    pub open spec fn notified(self, level: AlertLevel, now: Timestamp) -> DomainView {
        DomainView {
            last_notifications: self.last_notifications.with(level, now),
            ..self
        }
    }

    /// After an attempt at a renewal.
    pub open spec fn attempted(self, renewal: RenewalView) -> DomainView {
        DomainView {
            renewal_history: extended_history(self.renewal_history, renewal),
            ..self
        }
    }
}

impl AppView {
    /// Whether an alert of `level` about a domain may be sent at `now`: none was
    /// sent, or the last one `debounce_hours` whole hours ago or more.
    pub open spec fn may_notify(
        self,
        domain: Seq<char>,
        level: AlertLevel,
        debounce_hours: int,
        now: Timestamp,
    ) -> bool {
        match self.domain(domain).last_notifications.at(level) {
            Some(last) => clock::elapsed_hours(now, last) >= debounce_hours,
            None => true,
        }
    }

    /// After a scan of `domain` at `now`.
    pub open spec fn scanned(self, domain: Seq<char>, now: Timestamp) -> AppView {
        self.with_domain(domain, self.domain(domain).scanned(now))
    }

    /// After a successful renewal for `domain` at `now`.
    pub open spec fn renewed(self, domain: Seq<char>, now: Timestamp) -> AppView {
        self.with_domain(domain, self.domain(domain).renewed(now))
    }

    /// With a certificate of this fingerprint for `domain`.
    pub open spec fn fingerprinted(
        self,
        domain: Seq<char>,
        fingerprint: Seq<char>,
    ) -> AppView {
        self.with_domain(domain, self.domain(domain).fingerprinted(fingerprint))
    }

    /// After an alert of `level` about `domain` at `now`.
    pub open spec fn notified(
        self,
        domain: Seq<char>,
        level: AlertLevel,
        now: Timestamp,
    ) -> AppView {
        self.with_domain(domain, self.domain(domain).notified(level, now))
    }

    /// After an attempt at a renewal for `domain`.
    pub open spec fn attempted(
        self,
        domain: Seq<char>,
        renewal: RenewalView,
    ) -> AppView {
        self.with_domain(domain, self.domain(domain).attempted(renewal))
    }

    /// After being saved at `now`.
    pub open spec fn saved(self, now: Timestamp) -> AppView {
        AppView { updated_at: now, ..self }
    }
}

/// Keeps what the monitor remembers.
#[derive(Debug)]
pub struct StateManager {
    state: AppState,
}

impl View for StateManager {
    type V = AppView;

    closed spec fn view(&self) -> AppView {
        self.state@
    }
}

impl Clone for StateManager {
    fn clone(&self) -> (copy: StateManager)
        ensures
            self.wf() ==> copy.wf(),
            copy@ == self@,
    {
        StateManager { state: self.state.clone() }
    }
}

impl StateManager {
    /// No domain stands twice.
    pub closed spec fn wf(&self) -> bool {
        self.state.wf()
    }

    /// Begins with what was loaded, or with nothing where no state was stored yet.
    pub fn new(loaded: Option<AppState>) -> (manager: StateManager)
        requires
            loaded matches Some(state) ==> state.wf(),
        ensures
            manager.wf(),
            match loaded {
                Some(state) => manager@ == state@,
                None => manager@.domains == Map::<Seq<char>, DomainView>::empty()
                    && manager@.updated_at.can_be_now(),
            },
    {
        match loaded {
            Some(state) => StateManager { state },
            None => StateManager { state: AppState::default() },
        }
    }

    /// Marks the state as saved at `now`.
    pub fn save_at(&mut self, now: Timestamp)
        requires
            old(self).wf(),
        ensures
            final(self).wf(),
            final(self)@ == old(self)@.saved(now),
    {
        self.state.updated_at = now;
    }

    /// Marks the state as saved at the present instant, and hands it out to be
    /// written.
    pub fn save(&mut self) -> (state: &AppState)
        requires
            old(self).wf(),
        ensures
            final(self).wf(),
            exists|now: Timestamp|
                now.can_be_now() && final(self)@ == #[trigger] old(self)@.saved(now),
            state@ == final(self)@,
            state.wf(),
    {
        let now = Timestamp::now();
        self.save_at(now);
        &self.state
    }

    /// What is remembered of a domain.
    pub fn get_domain_state(&self, domain: &str) -> (state: DomainState)
        requires
            self.wf(),
        ensures
            state@ == self@.domain(domain@),
    {
        match self.state.domains.get(domain) {
            Some(state) => state.clone(),
            None => DomainState::default(),
        }
    }

    /// What is remembered of a domain, to be changed in place. A domain that was not
    /// known becomes known.
    pub fn get_domain_state_mut(&mut self, domain: &str) -> (state: &mut DomainState)
        requires
            old(self).wf(),
        ensures
            state@ == old(self)@.domain(domain@),
            final(self).wf(),
            final(self)@ == old(self)@.with_domain(domain@, (*final(state))@),
    {
        self.state.domains.get_or_add(domain)
    }

    /// Remembers a scan of a domain at `now`.
    pub fn update_scan_time_at(&mut self, domain: &str, now: Timestamp)
        requires
            old(self).wf(),
        ensures
            final(self).wf(),
            final(self)@ == old(self)@.scanned(domain@, now),
    {
        let state = self.get_domain_state_mut(domain);
        state.last_scan = Some(now);
    }

    /// Remembers a scan of a domain at the present instant.
    pub fn update_scan_time(&mut self, domain: &str)
        requires
            old(self).wf(),
        ensures
            final(self).wf(),
            exists|now: Timestamp|
                now.can_be_now() && final(self)@ == #[trigger] old(self)@.scanned(domain@, now),
    {
        let now = Timestamp::now();
        self.update_scan_time_at(domain, now);
    }

    /// Remembers a renewal for a domain at `now`.
    pub fn update_renew_time_at(&mut self, domain: &str, now: Timestamp)
        requires
            old(self).wf(),
        ensures
            final(self).wf(),
            final(self)@ == old(self)@.renewed(domain@, now),
    {
        let state = self.get_domain_state_mut(domain);
        state.last_renew = Some(now);
    }

    /// Remembers a renewal for a domain at the present instant.
    pub fn update_renew_time(&mut self, domain: &str)
        requires
            old(self).wf(),
        ensures
            final(self).wf(),
            exists|now: Timestamp|
                now.can_be_now() && final(self)@ == #[trigger] old(self)@.renewed(domain@, now),
    {
        let now = Timestamp::now();
        self.update_renew_time_at(domain, now);
    }

    /// Remembers the fingerprint of a domain's certificate.
    pub fn update_fingerprint(&mut self, domain: &str, fingerprint: String)
        requires
            old(self).wf(),
        ensures
            final(self).wf(),
            final(self)@ == old(self)@.fingerprinted(domain@, fingerprint@),
    {
        let state = self.get_domain_state_mut(domain);
        state.current_fingerprint = Some(fingerprint);
    }

    /// Remembers an alert about a domain at `now`.
    pub fn update_notification_time_at(&mut self, domain: &str, level: AlertLevel, now: Timestamp)
        requires
            old(self).wf(),
        ensures
            final(self).wf(),
            final(self)@ == old(self)@.notified(domain@, level, now),
    {
        let state = self.get_domain_state_mut(domain);
        state.last_notifications.insert(level, now);
    }

    /// Remembers an alert about a domain at the present instant.
    pub fn update_notification_time(&mut self, domain: &str, level: AlertLevel)
        requires
            old(self).wf(),
        ensures
            final(self).wf(),
            exists|now: Timestamp|
                now.can_be_now() && final(self)@ == #[trigger] old(self)@.notified(
                    domain@,
                    level,
                    now,
                ),
    {
        let now = Timestamp::now();
        self.update_notification_time_at(domain, level, now);
    }

    /// Remembers an attempt at a renewal, and forgets all but the last ones.
    pub fn add_renewal_history(&mut self, domain: &str, history: RenewalHistory)
        requires
            old(self).wf(),
        ensures
            final(self).wf(),
            final(self)@ == old(self)@.attempted(domain@, history@),
    {
        let state = self.get_domain_state_mut(domain);
        let ghost before = types::renewal_views(state.renewal_history@);
        let ghost added = history@;
        state.renewal_history.push(history);
        let ghost longer = state.renewal_history@;
        assert(types::renewal_views(longer) =~= before.push(added));
        let n = state.renewal_history.len();
        if n > HISTORY_LENGTH {
            let kept = state.renewal_history.split_off(n - HISTORY_LENGTH);
            state.renewal_history = kept;
            assert(types::renewal_views(state.renewal_history@)
                =~= types::renewal_views(longer).skip(longer.len() - HISTORY_LENGTH));
        }
        assert(types::renewal_views(state.renewal_history@) =~= extended_history(
            before,
            added,
        ));
    }

    /// Whether an alert of `level` about a domain may be sent at `now`.
    pub fn should_send_notification_at(
        &self,
        domain: &str,
        level: &AlertLevel,
        debounce_hours: i64,
        now: Timestamp,
    ) -> (send: bool)
        requires
            self.wf(),
        ensures
            send == self@.may_notify(domain@, *level, debounce_hours as int, now),
    {
        match self.state.domains.get(domain) {
            Some(state) => match state.last_notifications.get(*level) {
                Some(last) => hours_elapsed(now, last) >= debounce_hours,
                None => true,
            },
            None => true,
        }
    }

    /// Whether an alert of `level` about a domain may be sent at the present instant.
    pub fn should_send_notification(
        &self,
        domain: &str,
        level: &AlertLevel,
        debounce_hours: i64,
    ) -> (send: bool)
        requires
            self.wf(),
        ensures
            exists|now: Timestamp|
                now.can_be_now() && send == #[trigger] self@.may_notify(
                    domain@,
                    *level,
                    debounce_hours as int,
                    now,
                ),
            self@.domain(domain@).last_notifications.at(*level) is None ==> send,
    {
        let now = Timestamp::now();
        self.should_send_notification_at(domain, level, debounce_hours, now)
    }

    /// What is remembered.
    pub fn state(&self) -> (state: &AppState)
        requires
            self.wf(),
        ensures
            state@ == self@,
            state.wf(),
    {
        &self.state
    }
}

/// What is remembered of one domain stays as it is while another one is scanned,
/// renewed, alerted about, given a fingerprint or an attempt at a renewal, and while
/// the state is saved.
pub proof fn other_domains_stay_as_they_are(
    state: AppView,
    domain: Seq<char>,
    other: Seq<char>,
    level: AlertLevel,
    fingerprint: Seq<char>,
    renewal: RenewalView,
    now: Timestamp,
)
    requires
        domain != other,
    ensures
        state.scanned(domain, now).domain(other) == state.domain(other),
        state.renewed(domain, now).domain(other) == state.domain(other),
        state.fingerprinted(domain, fingerprint).domain(other) == state.domain(other),
        state.notified(domain, level, now).domain(other) == state.domain(other),
        state.attempted(domain, renewal).domain(other) == state.domain(other),
        state.saved(now).domains == state.domains,
{
}

/// What was remembered last is what is read back: the scan, the renewal, the
/// fingerprint and the alert of a domain.
pub proof fn what_was_remembered_is_read_back(
    state: AppView,
    domain: Seq<char>,
    level: AlertLevel,
    fingerprint: Seq<char>,
    now: Timestamp,
)
    ensures
        state.scanned(domain, now).domain(domain).last_scan == Some(now),
        state.renewed(domain, now).domain(domain).last_renew == Some(now),
        state.fingerprinted(domain, fingerprint).domain(domain).current_fingerprint == Some(
            fingerprint,
        ),
        state.notified(domain, level, now).domain(domain).last_notifications.at(level) == Some(now),
{
}

/// After an attempt at a renewal, that attempt is the last one remembered, at most
/// as many as the limit are, and the others are the newest of those before.
pub proof fn histories_end_with_the_newest(
    state: AppView,
    domain: Seq<char>,
    renewal: RenewalView,
)
    ensures
        ({
            let before = state.domain(domain).renewal_history;
            let after = state.attempted(domain, renewal).domain(domain).renewal_history;
            &&& 0 < after.len() <= HISTORY_LENGTH
            &&& after.last() == renewal
            &&& after.len() == if before.len() + 1 < HISTORY_LENGTH {
                before.len() + 1
            } else {
                HISTORY_LENGTH as nat
            }
            &&& after.drop_last() == before.skip(before.len() - (after.len() - 1))
        }),
{
    let before = state.domain(domain).renewal_history;
    let after = state.attempted(domain, renewal).domain(domain).renewal_history;
    assert(after.drop_last() =~= before.skip(before.len() - (after.len() - 1)));
}

/// Once an alert was sent, another one of the same level about the same domain may
/// be sent exactly when the debounce time has passed; alerts of other levels and
/// about other domains are not held back by it.
pub proof fn alerts_are_held_back_for_the_debounce_time(
    state: AppView,
    domain: Seq<char>,
    level: AlertLevel,
    sent_at: Timestamp,
    debounce_hours: int,
    now: Timestamp,
    other_domain: Seq<char>,
    other_level: AlertLevel,
)
    ensures
        state.notified(domain, level, sent_at).may_notify(domain, level, debounce_hours, now)
            <==> clock::elapsed_hours(now, sent_at) >= debounce_hours,
        other_domain != domain || other_level != level ==> state.notified(
            domain,
            level,
            sent_at,
        ).may_notify(other_domain, other_level, debounce_hours, now) == state.may_notify(
            other_domain,
            other_level,
            debounce_hours,
            now,
        ),
{
}

/// Right after an alert was sent, none of the same level about the same domain may
/// be sent, provided there is a debounce time at all.
pub proof fn alerts_are_not_repeated_at_once(
    state: AppView,
    domain: Seq<char>,
    level: AlertLevel,
    now: Timestamp,
    debounce_hours: int,
)
    requires
        debounce_hours > 0,
    ensures
        !state.notified(domain, level, now).may_notify(domain, level, debounce_hours, now),
{
    assert(clock::elapsed_nanos(now, now) == 0);
}

/// Remembering one thing about a domain leaves everything else that is remembered of it as
/// it was, and does not count as saving.
pub proof fn remembering_one_thing_changes_nothing_else(
    state: AppView,
    domain: Seq<char>,
    level: AlertLevel,
    other_level: AlertLevel,
    fingerprint: Seq<char>,
    renewal: RenewalView,
    now: Timestamp,
)
    ensures
        ({
            let before = state.domain(domain);
            let after = state.scanned(domain, now).domain(domain);
            &&& after.last_renew == before.last_renew
            &&& after.last_notifications == before.last_notifications
            &&& after.renewal_history == before.renewal_history
            &&& after.current_fingerprint == before.current_fingerprint
            &&& state.scanned(domain, now).updated_at == state.updated_at
        }),
        ({
            let before = state.domain(domain);
            let after = state.renewed(domain, now).domain(domain);
            &&& after.last_scan == before.last_scan
            &&& after.last_notifications == before.last_notifications
            &&& after.renewal_history == before.renewal_history
            &&& after.current_fingerprint == before.current_fingerprint
            &&& state.renewed(domain, now).updated_at == state.updated_at
        }),
        ({
            let before = state.domain(domain);
            let after = state.fingerprinted(domain, fingerprint).domain(domain);
            &&& after.last_scan == before.last_scan
            &&& after.last_renew == before.last_renew
            &&& after.last_notifications == before.last_notifications
            &&& after.renewal_history == before.renewal_history
            &&& state.fingerprinted(domain, fingerprint).updated_at == state.updated_at
        }),
        ({
            let before = state.domain(domain);
            let after = state.notified(domain, level, now).domain(domain);
            &&& after.last_scan == before.last_scan
            &&& after.last_renew == before.last_renew
            &&& after.renewal_history == before.renewal_history
            &&& after.current_fingerprint == before.current_fingerprint
            &&& other_level != level ==> after.last_notifications.at(other_level)
                == before.last_notifications.at(other_level)
            &&& state.notified(domain, level, now).updated_at == state.updated_at
        }),
        ({
            let before = state.domain(domain);
            let after = state.attempted(domain, renewal).domain(domain);
            &&& after.last_scan == before.last_scan
            &&& after.last_renew == before.last_renew
            &&& after.last_notifications == before.last_notifications
            &&& after.current_fingerprint == before.current_fingerprint
            &&& state.attempted(domain, renewal).updated_at == state.updated_at
        }),
        state.saved(now).updated_at == now,
{
}

/// The last five renewals are remembered: up to five are all kept, in their order.
pub proof fn five_renewals_are_remembered(history: Seq<RenewalView>, renewal: RenewalView)
    ensures
        history.len() < 5 ==> extended_history(history, renewal) == history.push(renewal),
        history.len() >= 5 ==> extended_history(history, renewal).len() == 5,
        forall|k: int|
            1 <= k <= extended_history(history, renewal).len() ==> #[trigger] extended_history(
                history,
                renewal,
            )[extended_history(history, renewal).len() - k] == history.push(renewal)[history.len()
                + 1 - k],
{
}

/// A domain becomes known by what is remembered of it, and no other one does.
pub proof fn domains_become_known_one_by_one(
    state: AppView,
    domain: Seq<char>,
    level: AlertLevel,
    fingerprint: Seq<char>,
    renewal: RenewalView,
    now: Timestamp,
)
    ensures
        state.scanned(domain, now).domains.dom() == state.domains.dom().insert(domain),
        state.renewed(domain, now).domains.dom() == state.domains.dom().insert(domain),
        state.fingerprinted(domain, fingerprint).domains.dom() == state.domains.dom().insert(domain),
        state.notified(domain, level, now).domains.dom() == state.domains.dom().insert(domain),
        state.attempted(domain, renewal).domains.dom() == state.domains.dom().insert(domain),
{
}

} // verus!
