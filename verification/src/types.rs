//! What is known of certificates, and what is remembered of each domain.
use crate::clock::{self, days_elapsed, Timestamp};
use crate::text::{self, text_equal};
use vstd::prelude::*;

verus! {

/// How urgent the expiry of a certificate is.
#[derive(Debug, Clone, Copy, PartialEq, Eq, Hash, Structural)]
pub enum AlertLevel {
    Info,
    Warning,
    Critical,
    Emergency,
}

impl AlertLevel {
    /// The level that calls for attention with `days` whole days left: none with
    /// more than sixty.
    pub open spec fn of_days(days: int) -> Option<AlertLevel> {
        if days < 0 {
            Some(AlertLevel::Emergency)
        } else if days <= 7 {
            Some(AlertLevel::Critical)
        } else if days <= 30 {
            Some(AlertLevel::Warning)
        } else if days <= 60 {
            Some(AlertLevel::Info)
        } else {
            None
        }
    }

    /// The name of the level.
    pub open spec fn name(self) -> Seq<char> {
        match self {
            AlertLevel::Info => "INFO"@,
            AlertLevel::Warning => "WARNING"@,
            AlertLevel::Critical => "CRITICAL"@,
            AlertLevel::Emergency => "EMERGENCY"@,
        }
    }

    /// The most days that a certificate at this level can have left.
    pub open spec fn threshold(self) -> int {
        match self {
            AlertLevel::Info => 60,
            AlertLevel::Warning => 30,
            AlertLevel::Critical => 7,
            AlertLevel::Emergency => 0,
        }
    }

    /// The place of the level in the order of urgency.
    pub open spec fn urgency(self) -> int {
        match self {
            AlertLevel::Info => 1,
            AlertLevel::Warning => 2,
            AlertLevel::Critical => 3,
            AlertLevel::Emergency => 4,
        }
    }

    pub fn from_days(days: i64) -> (level: Option<AlertLevel>)
        ensures
            level == AlertLevel::of_days(days as int),
    {
        if days < 0 {
            Some(AlertLevel::Emergency)
        } else if days <= 7 {
            Some(AlertLevel::Critical)
        } else if days <= 30 {
            Some(AlertLevel::Warning)
        } else if days <= 60 {
            Some(AlertLevel::Info)
        } else {
            None
        }
    }

    pub fn as_str(&self) -> (name: &'static str)
        ensures
            name@ == self.name(),
    {
        match self {
            AlertLevel::Info => "INFO",
            AlertLevel::Warning => "WARNING",
            AlertLevel::Critical => "CRITICAL",
            AlertLevel::Emergency => "EMERGENCY",
        }
    }

    pub fn threshold_days(&self) -> (days: i64)
        ensures
            days == self.threshold(),
    {
        match self {
            AlertLevel::Info => 60,
            AlertLevel::Warning => 30,
            AlertLevel::Critical => 7,
            AlertLevel::Emergency => 0,
        }
    }
}

/// The urgency of what is left; zero where nothing calls for attention.
pub open spec fn urgency_of_days(days: int) -> int {
    match AlertLevel::of_days(days) {
        Some(level) => level.urgency(),
        None => 0,
    }
}

/// The fewer days are left, the more urgent the alert.
pub proof fn fewer_days_are_no_less_urgent(fewer: int, more: int)
    requires
        fewer <= more,
    ensures
        urgency_of_days(fewer) >= urgency_of_days(more),
{
}

/// A level is raised for no more days than its threshold; at the threshold itself
/// the level is raised, but for the level of expired certificates, which is raised
/// below its threshold only.
pub proof fn levels_begin_at_their_thresholds(level: AlertLevel, days: int)
    ensures
        AlertLevel::of_days(days) == Some(level) ==> days <= level.threshold(),
        level != AlertLevel::Emergency ==> AlertLevel::of_days(level.threshold()) == Some(level),
        AlertLevel::of_days(days) == Some(AlertLevel::Emergency) <==> days
            < AlertLevel::Emergency.threshold(),
        AlertLevel::of_days(days) is None <==> days > AlertLevel::Info.threshold(),
{
}

/// What a responder says of a certificate's revocation.
#[derive(Debug, Clone, Copy, PartialEq, Eq, Structural)]
pub enum OcspStatus {
    Good,
    Revoked,
    Unknown,
}

/// The text that an optional string holds.
pub open spec fn optional_text(t: Option<String>) -> Option<Seq<char>> {
    match t {
        Some(t) => Some(t@),
        None => None,
    }
}

/// A certificate as it was found.
#[derive(Debug)]
pub struct CertificateInfo {
    pub domain: String,
    pub subject: String,
    pub san_list: Vec<String>,
    pub issuer: String,
    pub not_before: Timestamp,
    pub not_after: Timestamp,
    pub fingerprint_sha256: String,
    pub chain_complete: bool,
    pub ocsp_status: OcspStatus,
    pub source: String,
}

/// What a `CertificateInfo` says.
pub struct CertificateView {
    pub domain: Seq<char>,
    pub subject: Seq<char>,
    pub san_list: Seq<Seq<char>>,
    pub issuer: Seq<char>,
    pub not_before: Timestamp,
    pub not_after: Timestamp,
    pub fingerprint_sha256: Seq<char>,
    pub chain_complete: bool,
    pub ocsp_status: OcspStatus,
    pub source: Seq<char>,
}

impl View for CertificateInfo {
    type V = CertificateView;

    open spec fn view(&self) -> CertificateView {
        CertificateView {
            domain: self.domain@,
            subject: self.subject@,
            san_list: text::texts(self.san_list@),
            issuer: self.issuer@,
            not_before: self.not_before,
            not_after: self.not_after,
            fingerprint_sha256: self.fingerprint_sha256@,
            chain_complete: self.chain_complete,
            ocsp_status: self.ocsp_status,
            source: self.source@,
        }
    }
}

/// A copy of a list of strings.
pub fn clone_texts(list: &Vec<String>) -> (copy: Vec<String>)
    ensures
        text::texts(copy@) == text::texts(list@),
{
    let mut copy: Vec<String> = Vec::new();
    let mut i: usize = 0;
    while i < list.len()
        invariant
            i <= list.len(),
            copy.len() == i,
            forall|j: int| 0 <= j < i ==> copy@[j]@ == list@[j]@,
        decreases list.len() - i,
    {
        copy.push(list[i].clone());
        i += 1;
    }
    assert(text::texts(copy@) =~= text::texts(list@));
    copy
}

impl Clone for CertificateInfo {
    fn clone(&self) -> (copy: CertificateInfo)
        ensures
            copy@ == self@,
    {
        CertificateInfo {
            domain: self.domain.clone(),
            subject: self.subject.clone(),
            san_list: clone_texts(&self.san_list),
            issuer: self.issuer.clone(),
            not_before: self.not_before,
            not_after: self.not_after,
            fingerprint_sha256: self.fingerprint_sha256.clone(),
            chain_complete: self.chain_complete,
            ocsp_status: self.ocsp_status,
            source: self.source.clone(),
        }
    }
}

impl CertificateInfo {
    /// Whole days until the certificate expires, counted from `now`; negative once
    /// it has been expired for a day or more.
    pub fn days_remaining_at(&self, now: Timestamp) -> (days: i64)
        ensures
            days == clock::elapsed_days(self.not_after, now),
    {
        days_elapsed(self.not_after, now)
    }

    /// Whole days until the certificate expires, counted from the present instant.
    pub fn days_remaining(&self) -> (days: i64)
        ensures
            exists|now: Timestamp|
                now.can_be_now() && days == #[trigger] clock::elapsed_days(self.not_after, now),
    {
        let now = Timestamp::now();
        self.days_remaining_at(now)
    }
}

/// The outcome of scanning one domain.
#[derive(Debug)]
pub struct ScanResult {
    pub domain: String,
    pub cert: Option<CertificateInfo>,
    pub error: Option<String>,
    pub scanned_at: Timestamp,
}

/// What a `ScanResult` says.
pub struct ScanView {
    pub domain: Seq<char>,
    pub cert: Option<CertificateView>,
    pub error: Option<Seq<char>>,
    pub scanned_at: Timestamp,
}

/// What an optional certificate says.
pub open spec fn optional_certificate(cert: Option<CertificateInfo>) -> Option<CertificateView> {
    match cert {
        Some(c) => Some(c@),
        None => None,
    }
}

impl View for ScanResult {
    type V = ScanView;

    open spec fn view(&self) -> ScanView {
        ScanView {
            domain: self.domain@,
            cert: optional_certificate(self.cert),
            error: optional_text(self.error),
            scanned_at: self.scanned_at,
        }
    }
}

impl Clone for ScanResult {
    fn clone(&self) -> (copy: ScanResult)
        ensures
            copy@ == self@,
    {
        let cert = match &self.cert {
            Some(cert) => Some(cert.clone()),
            None => None,
        };
        ScanResult {
            domain: self.domain.clone(),
            cert,
            error: clone_optional_text(&self.error),
            scanned_at: self.scanned_at,
        }
    }
}

/// What a list of scan results says.
pub open spec fn scan_views(results: Seq<ScanResult>) -> Seq<ScanView> {
    Seq::new(results.len(), |i: int| results[i]@)
}

/// When an alert of one level was last sent.
#[derive(Debug, Clone, Copy, PartialEq, Eq, Structural)]
pub struct NotificationRecord {
    pub level: AlertLevel,
    pub last_sent: Timestamp,
}

/// One attempt at renewing a certificate.
#[derive(Debug)]
pub struct RenewalHistory {
    pub timestamp: Timestamp,
    pub success: bool,
    pub message: String,
    pub new_fingerprint: Option<String>,
}

/// What a `RenewalHistory` says.
pub struct RenewalView {
    pub timestamp: Timestamp,
    pub success: bool,
    pub message: Seq<char>,
    pub new_fingerprint: Option<Seq<char>>,
}

impl View for RenewalHistory {
    type V = RenewalView;

    open spec fn view(&self) -> RenewalView {
        RenewalView {
            timestamp: self.timestamp,
            success: self.success,
            message: self.message@,
            new_fingerprint: optional_text(self.new_fingerprint),
        }
    }
}

/// A copy of an optional string.
pub fn clone_optional_text(t: &Option<String>) -> (copy: Option<String>)
    ensures
        optional_text(copy) == optional_text(*t),
{
    match t {
        Some(t) => Some(t.clone()),
        None => None,
    }
}

impl Clone for RenewalHistory {
    fn clone(&self) -> (copy: RenewalHistory)
        ensures
            copy@ == self@,
    {
        RenewalHistory {
            timestamp: self.timestamp,
            success: self.success,
            message: self.message.clone(),
            new_fingerprint: clone_optional_text(&self.new_fingerprint),
        }
    }
}

/// When an alert of each level was last sent, where one was.
#[derive(Debug, Clone, Copy, PartialEq, Eq)]
pub struct NotificationTimes {
    pub info: Option<Timestamp>,
    pub warning: Option<Timestamp>,
    pub critical: Option<Timestamp>,
    pub emergency: Option<Timestamp>,
}

impl NotificationTimes {
    /// When an alert of `level` was last sent.
    pub open spec fn at(self, level: AlertLevel) -> Option<Timestamp> {
        match level {
            AlertLevel::Info => self.info,
            AlertLevel::Warning => self.warning,
            AlertLevel::Critical => self.critical,
            AlertLevel::Emergency => self.emergency,
        }
    }

    /// These times, with `time` for `level`.
    pub open spec fn with(self, level: AlertLevel, time: Timestamp) -> NotificationTimes {
        match level {
            AlertLevel::Info => NotificationTimes { info: Some(time), ..self },
            AlertLevel::Warning => NotificationTimes { warning: Some(time), ..self },
            AlertLevel::Critical => NotificationTimes { critical: Some(time), ..self },
            AlertLevel::Emergency => NotificationTimes { emergency: Some(time), ..self },
        }
    }

    /// Nothing was sent yet.
    pub open spec fn never() -> NotificationTimes {
        NotificationTimes { info: None, warning: None, critical: None, emergency: None }
    }

    pub fn new() -> (times: NotificationTimes)
        ensures
            times == NotificationTimes::never(),
    {
        NotificationTimes { info: None, warning: None, critical: None, emergency: None }
    }

    pub fn get(&self, level: AlertLevel) -> (time: Option<Timestamp>)
        ensures
            time == self.at(level),
    {
        match level {
            AlertLevel::Info => self.info,
            AlertLevel::Warning => self.warning,
            AlertLevel::Critical => self.critical,
            AlertLevel::Emergency => self.emergency,
        }
    }

    pub fn insert(&mut self, level: AlertLevel, time: Timestamp)
        ensures
            *final(self) == old(self).with(level, time),
    {
        match level {
            AlertLevel::Info => {
                self.info = Some(time);
            },
            AlertLevel::Warning => {
                self.warning = Some(time);
            },
            AlertLevel::Critical => {
                self.critical = Some(time);
            },
            AlertLevel::Emergency => {
                self.emergency = Some(time);
            },
        }
    }
}

/// What is remembered of one domain.
#[derive(Debug)]
pub struct DomainState {
    pub last_scan: Option<Timestamp>,
    pub last_renew: Option<Timestamp>,
    pub last_notifications: NotificationTimes,
    pub renewal_history: Vec<RenewalHistory>,
    pub current_fingerprint: Option<String>,
}

/// What a `DomainState` says.
#[verifier::ext_equal]
pub struct DomainView {
    pub last_scan: Option<Timestamp>,
    pub last_renew: Option<Timestamp>,
    pub last_notifications: NotificationTimes,
    pub renewal_history: Seq<RenewalView>,
    pub current_fingerprint: Option<Seq<char>>,
}

/// What a list of renewals says.
pub open spec fn renewal_views(history: Seq<RenewalHistory>) -> Seq<RenewalView> {
    Seq::new(history.len(), |i: int| history[i]@)
}

impl View for DomainState {
    type V = DomainView;

    open spec fn view(&self) -> DomainView {
        DomainView {
            last_scan: self.last_scan,
            last_renew: self.last_renew,
            last_notifications: self.last_notifications,
            renewal_history: renewal_views(self.renewal_history@),
            current_fingerprint: optional_text(self.current_fingerprint),
        }
    }
}

impl DomainView {
    /// Nothing is remembered.
    pub open spec fn blank() -> DomainView {
        DomainView {
            last_scan: None,
            last_renew: None,
            last_notifications: NotificationTimes::never(),
            renewal_history: Seq::empty(),
            current_fingerprint: None,
        }
    }
}

impl Default for DomainState {
    fn default() -> (state: DomainState)
        ensures
            state@ == DomainView::blank(),
    {
        let state = DomainState {
            last_scan: None,
            last_renew: None,
            last_notifications: NotificationTimes::new(),
            renewal_history: Vec::new(),
            current_fingerprint: None,
        };
        assert(renewal_views(state.renewal_history@) =~= Seq::empty());
        state
    }
}

impl Clone for DomainState {
    fn clone(&self) -> (copy: DomainState)
        ensures
            copy@ == self@,
    {
        let mut history: Vec<RenewalHistory> = Vec::new();
        let mut i: usize = 0;
        while i < self.renewal_history.len()
            invariant
                i <= self.renewal_history.len(),
                history.len() == i,
                forall|j: int| 0 <= j < i ==> history@[j]@ == self.renewal_history@[j]@,
            decreases self.renewal_history.len() - i,
        {
            history.push(self.renewal_history[i].clone());
            i += 1;
        }
        assert(renewal_views(history@) =~= renewal_views(self.renewal_history@));
        DomainState {
            last_scan: self.last_scan,
            last_renew: self.last_renew,
            last_notifications: self.last_notifications,
            renewal_history: history,
            current_fingerprint: clone_optional_text(&self.current_fingerprint),
        }
    }
}

/// A domain and what is remembered of it.
#[derive(Debug)]
struct DomainEntry {
    name: String,
    state: DomainState,
}

/// What is remembered of each domain, by its name.
#[derive(Debug)]
pub struct DomainTable {
    entries: Vec<DomainEntry>,
}

impl View for DomainTable {
    type V = Map<Seq<char>, DomainView>;

    closed spec fn view(&self) -> Map<Seq<char>, DomainView> {
        Map::new(
            |name: Seq<char>| self.names().contains(name),
            |name: Seq<char>| self.entries@[self.names().index_of(name)].state@,
        )
    }
}

impl DomainTable {
    /// The names of the domains, in the order in which they were added.
    pub closed spec fn names(&self) -> Seq<Seq<char>> {
        Seq::new(self.entries@.len(), |i: int| self.entries@[i].name@)
    }

    /// No name stands twice.
    pub closed spec fn wf(&self) -> bool {
        self.names().no_duplicates()
    }

    /// What the entry with a given place holds.
    proof fn lemma_entry(&self, i: int)
        requires
            self.wf(),
            0 <= i < self.entries@.len(),
        ensures
            self@.contains_key(self.entries@[i].name@),
            self@[self.entries@[i].name@] == self.entries@[i].state@,
    {
        let names = self.names();
        assert(names[i] == self.entries@[i].name@);
        assert(names.contains(names[i]));
        let j = names.index_of(names[i]);
        assert(0 <= j < names.len() && names[j] == names[i]);
    }

    /// Each name is that of one domain, and each domain has its name.
    pub proof fn lemma_names(&self)
        requires
            self.wf(),
        ensures
            self.names().no_duplicates(),
            forall|name: Seq<char>| #[trigger]
                self@.contains_key(name) <==> self.names().contains(name),
    {
    }

    /// A table without domains.
    pub fn new() -> (table: DomainTable)
        ensures
            table.wf(),
            table@ == Map::<Seq<char>, DomainView>::empty(),
            table.names() == Seq::<Seq<char>>::empty(),
    {
        let table = DomainTable { entries: Vec::new() };
        assert(table.names() =~= Seq::empty());
        assert(table@ =~= Map::<Seq<char>, DomainView>::empty());
        table
    }

    /// The number of domains.
    pub fn len(&self) -> (n: usize)
        ensures
            n == self.names().len(),
    {
        self.entries.len()
    }

    /// The name of the domain with a given place.
    pub fn name_at(&self, i: usize) -> (name: &String)
        requires
            i < self.names().len(),
        ensures
            name@ == self.names()[i as int],
    {
        &self.entries[i].name
    }

    /// What is remembered of the domain with a given place.
    pub fn state_at(&self, i: usize) -> (state: &DomainState)
        requires
            self.wf(),
            i < self.names().len(),
        ensures
            state@ == self@[self.names()[i as int]],
    {
        proof {
            self.lemma_entry(i as int);
        }
        &self.entries[i].state
    }

    /// The place of a domain, if there is one.
    fn find(&self, name: &str) -> (place: Option<usize>)
        requires
            self.wf(),
        ensures
            match place {
                Some(i) => {
                    &&& i < self.entries@.len()
                    &&& self.entries@[i as int].name@ == name@
                    &&& self@.contains_key(name@)
                    &&& self@[name@] == self.entries@[i as int].state@
                },
                None => !self@.contains_key(name@) && !self.names().contains(name@),
            },
    {
        let mut i: usize = 0;
        while i < self.entries.len()
            invariant
                i <= self.entries.len(),
                self.wf(),
                forall|j: int| 0 <= j < i ==> (#[trigger] self.entries@[j]).name@ != name@,
            decreases self.entries.len() - i,
        {
            if text_equal(self.entries[i].name.as_str(), name) {
                proof {
                    self.lemma_entry(i as int);
                }
                return Some(i);
            }
            i += 1;
        }
        assert(!self.names().contains(name@)) by {
            assert forall|j: int| 0 <= j < self.names().len() implies self.names()[j] != name@ by {
                assert(self.names()[j] == self.entries@[j].name@);
            }
        }
        None
    }

    /// What is remembered of a domain.
    pub fn get(&self, name: &str) -> (state: Option<&DomainState>)
        requires
            self.wf(),
        ensures
            match state {
                Some(state) => self@.contains_key(name@) && state@ == self@[name@],
                None => !self@.contains_key(name@),
            },
    {
        match self.find(name) {
            Some(i) => Some(&self.entries[i].state),
            None => None,
        }
    }

    /// Replacing what one entry holds replaces it under its name.
    proof fn lemma_replaced(&self, replaced: &DomainTable, i: int)
        requires
            self.wf(),
            0 <= i < self.entries@.len(),
            replaced.entries@.len() == self.entries@.len(),
            replaced.entries@[i].name == self.entries@[i].name,
            forall|j: int|
                0 <= j < self.entries@.len() && j != i ==> replaced.entries@[j]
                    == #[trigger] self.entries@[j],
        ensures
            replaced.wf(),
            replaced.names() == self.names(),
            replaced@ == self@.insert(self.entries@[i].name@, replaced.entries@[i].state@),
    {
        assert(replaced.names() =~= self.names());
        let name = self.entries@[i].name@;
        self.lemma_entry(i);
        replaced.lemma_entry(i);
        assert forall|other: Seq<char>| #[trigger] replaced@.contains_key(other) implies self@.insert(
            name,
            replaced.entries@[i].state@,
        ).contains_key(other) && self@.insert(name, replaced.entries@[i].state@)[other]
            == replaced@[other] by {
            let j = self.names().index_of(other);
            assert(self.names()[j] == other);
        }
        assert(replaced@ =~= self@.insert(name, replaced.entries@[i].state@));
    }

    /// Adding an entry under a new name adds it to the table.
    proof fn lemma_added(&self, added: &DomainTable)
        requires
            self.wf(),
            added.entries@.len() == self.entries@.len() + 1,
            forall|j: int|
                0 <= j < self.entries@.len() ==> added.entries@[j] == #[trigger] self.entries@[j],
            !self.names().contains(added.entries@.last().name@),
        ensures
            added.wf(),
            added.names() == self.names().push(added.entries@.last().name@),
            added@ == self@.insert(added.entries@.last().name@, added.entries@.last().state@),
    {
        let name = added.entries@.last().name@;
        let n = self.entries@.len() as int;
        assert(added.names() =~= self.names().push(name));
        assert(added.wf()) by {
            assert forall|a: int, b: int|
                0 <= a < added.names().len() && 0 <= b < added.names().len() && a
                    != b implies added.names()[a] != added.names()[b] by {
                if a == n {
                    assert(self.names()[b] == added.names()[b]);
                    assert(self.names().contains(self.names()[b]));
                } else if b == n {
                    assert(self.names()[a] == added.names()[a]);
                    assert(self.names().contains(self.names()[a]));
                } else {
                    assert(self.names()[a] == added.names()[a]);
                    assert(self.names()[b] == added.names()[b]);
                }
            }
        }
        added.lemma_entry(n);
        let expected = self@.insert(name, added.entries@.last().state@);
        assert forall|other: Seq<char>| #[trigger]
            added@.contains_key(other) <==> expected.contains_key(other) by {
            if self.names().contains(other) {
                let j = self.names().index_of(other);
                assert(added.names()[j] == other);
            }
            if added.names().contains(other) && other != name {
                let j = added.names().index_of(other);
                assert(self.names()[j] == other);
            }
        }
        assert forall|other: Seq<char>| #[trigger] added@.contains_key(other) implies expected[other]
            == added@[other] by {
            let j = added.names().index_of(other);
            assert(added.names()[j] == other);
            added.lemma_entry(j);
            if j < n {
                self.lemma_entry(j);
            }
        }
        assert(added@ =~= expected);
    }

    /// What is remembered of a domain, to be changed in place. A domain that is not
    /// there yet is added, with nothing remembered.
    pub fn get_or_add(&mut self, name: &str) -> (state: &mut DomainState)
        requires
            old(self).wf(),
        ensures
            state@ == (if old(self)@.contains_key(name@) {
                old(self)@[name@]
            } else {
                DomainView::blank()
            }),
            final(self).wf(),
            final(self)@ == old(self)@.insert(name@, (*final(state))@),
            final(self).names() == (if old(self)@.contains_key(name@) {
                old(self).names()
            } else {
                old(self).names().push(name@)
            }),
    {
        let ghost before = *self;
        let ghost after = *final(self);
        match self.find(name) {
            Some(i) => {
                let state = &mut self.entries[i].state;
                proof {
                    before.lemma_replaced(&after, i as int);
                }
                state
            },
            None => {
                self.entries.push(
                    DomainEntry { name: name.to_owned(), state: DomainState::default() },
                );
                let i = self.entries.len() - 1;
                let state = &mut self.entries[i].state;
                proof {
                    before.lemma_added(&after);
                }
                state
            },
        }
    }
}

impl Clone for DomainTable {
    fn clone(&self) -> (copy: DomainTable)
        ensures
            self.wf() ==> copy.wf(),
            copy.names() == self.names(),
            copy@ == self@,
    {
        let mut entries: Vec<DomainEntry> = Vec::new();
        let mut i: usize = 0;
        while i < self.entries.len()
            invariant
                i <= self.entries.len(),
                entries.len() == i,
                forall|j: int|
                    0 <= j < i ==> (#[trigger] entries@[j]).name@ == self.entries@[j].name@
                        && entries@[j].state@ == self.entries@[j].state@,
            decreases self.entries.len() - i,
        {
            let entry = &self.entries[i];
            entries.push(DomainEntry { name: entry.name.clone(), state: entry.state.clone() });
            i += 1;
        }
        let copy = DomainTable { entries };
        proof {
            assert(copy.names() =~= self.names());
            assert forall|name: Seq<char>| #[trigger] self@.contains_key(name) implies copy@[name]
                == self@[name] by {
                let j = self.names().index_of(name);
                assert(self.names()[j] == name);
            }
            assert(copy@ =~= self@);
        }
        copy
    }
}

/// What is remembered from one run to the next.
#[derive(Debug)]
pub struct AppState {
    pub domains: DomainTable,
    pub updated_at: Timestamp,
}

/// What an `AppState` says.
#[verifier::ext_equal]
pub struct AppView {
    pub domains: Map<Seq<char>, DomainView>,
    pub updated_at: Timestamp,
}

impl View for AppState {
    type V = AppView;

    open spec fn view(&self) -> AppView {
        AppView { domains: self.domains@, updated_at: self.updated_at }
    }
}

impl AppState {
    /// No domain stands twice.
    pub open spec fn wf(&self) -> bool {
        self.domains.wf()
    }
}

impl AppView {
    /// What is remembered of a domain: nothing where it is not known.
    pub open spec fn domain(self, name: Seq<char>) -> DomainView {
        if self.domains.contains_key(name) {
            self.domains[name]
        } else {
            DomainView::blank()
        }
    }

    /// This state, with `domain` remembered of the domain `name`.
    pub open spec fn with_domain(self, name: Seq<char>, domain: DomainView) -> AppView {
        AppView { domains: self.domains.insert(name, domain), ..self }
    }
}

impl Default for AppState {
    fn default() -> (state: AppState)
        ensures
            state.wf(),
            state@.domains == Map::<Seq<char>, DomainView>::empty(),
            state@.updated_at.can_be_now(),
    {
        AppState { domains: DomainTable::new(), updated_at: Timestamp::now() }
    }
}

impl Clone for AppState {
    fn clone(&self) -> (copy: AppState)
        ensures
            self.wf() ==> copy.wf(),
            copy@ == self@,
    {
        AppState { domains: self.domains.clone(), updated_at: self.updated_at }
    }
}

/// A certificate is viewed by its own fields.
pub proof fn certificates_are_viewed_field_by_field(info: CertificateInfo)
    ensures
        info@.domain == info.domain@,
        info@.subject == info.subject@,
        info@.san_list.len() == info.san_list@.len(),
        forall|i: int|
            0 <= i < info.san_list@.len() ==> #[trigger] info@.san_list[i] == info.san_list@[i]@,
        info@.issuer == info.issuer@,
        info@.not_before == info.not_before,
        info@.not_after == info.not_after,
        info@.fingerprint_sha256 == info.fingerprint_sha256@,
        info@.chain_complete == info.chain_complete,
        info@.ocsp_status == info.ocsp_status,
        info@.source == info.source@,
{
}

/// The result of a scan is viewed by its own fields.
pub proof fn scans_are_viewed_field_by_field(scan: ScanResult)
    ensures
        scan@.domain == scan.domain@,
        scan@.scanned_at == scan.scanned_at,
        scan@.cert is Some <==> scan.cert is Some,
        scan.cert matches Some(cert) ==> scan@.cert == Some(cert@),
        scan@.error is Some <==> scan.error is Some,
        scan.error matches Some(error) ==> scan@.error == Some(error@),
{
}

/// What is remembered of a domain, and of a renewal, is viewed by its own fields.
pub proof fn states_are_viewed_field_by_field(state: DomainState, renewal: RenewalHistory)
    ensures
        state@.last_scan == state.last_scan,
        state@.last_renew == state.last_renew,
        state@.last_notifications == state.last_notifications,
        state@.renewal_history.len() == state.renewal_history@.len(),
        forall|i: int|
            0 <= i < state.renewal_history@.len() ==> #[trigger] state@.renewal_history[i]
                == state.renewal_history@[i]@,
        state@.current_fingerprint is Some <==> state.current_fingerprint is Some,
        state.current_fingerprint matches Some(fingerprint) ==> state@.current_fingerprint == Some(
            fingerprint@,
        ),
        renewal@.timestamp == renewal.timestamp,
        renewal@.success == renewal.success,
        renewal@.message == renewal.message@,
        renewal@.new_fingerprint is Some <==> renewal.new_fingerprint is Some,
        renewal.new_fingerprint matches Some(fingerprint) ==> renewal@.new_fingerprint == Some(
            fingerprint@,
        ),
{
}

/// Each level has its own time: the one that was put in is read back, and those of the other
/// levels stay.
pub proof fn times_are_kept_level_by_level(
    times: NotificationTimes,
    level: AlertLevel,
    other: AlertLevel,
    time: Timestamp,
)
    ensures
        times.with(level, time).at(level) == Some(time),
        other != level ==> times.with(level, time).at(other) == times.at(other),
        NotificationTimes::never().at(level) is None,
        times.with(AlertLevel::Info, time).info == Some(time),
        times.with(AlertLevel::Warning, time).warning == Some(time),
        times.with(AlertLevel::Critical, time).critical == Some(time),
        times.with(AlertLevel::Emergency, time).emergency == Some(time),
{
}

/// The levels divide the days: below zero, from zero to seven, to thirty, to sixty, and no
/// level beyond.
pub proof fn levels_divide_the_days(days: int)
    ensures
        AlertLevel::of_days(days) == Some(AlertLevel::Emergency) <==> days < 0,
        AlertLevel::of_days(days) == Some(AlertLevel::Critical) <==> 0 <= days <= 7,
        AlertLevel::of_days(days) == Some(AlertLevel::Warning) <==> 7 < days <= 30,
        AlertLevel::of_days(days) == Some(AlertLevel::Info) <==> 30 < days <= 60,
        AlertLevel::of_days(days) is None <==> days > 60,
{
}

/// A domain that is not known has nothing remembered of it; putting something in reads it
/// back and leaves the others.
pub proof fn domains_are_kept_apart(
    state: AppView,
    name: Seq<char>,
    other: Seq<char>,
    domain: DomainView,
)
    ensures
        state.with_domain(name, domain).domain(name) == domain,
        other != name ==> state.with_domain(name, domain).domain(other) == state.domain(other),
        state.with_domain(name, domain).updated_at == state.updated_at,
        !state.domains.contains_key(name) ==> {
            &&& state.domain(name).last_scan is None
            &&& state.domain(name).last_renew is None
            &&& state.domain(name).current_fingerprint is None
            &&& state.domain(name).renewal_history.len() == 0
            &&& forall|level: AlertLevel| #[trigger]
                state.domain(name).last_notifications.at(level) is None
        },
{
}

} // verus!
