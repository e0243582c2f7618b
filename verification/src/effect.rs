//! Generation-owned cleanup obligations: the journal a Fiber drains, the
//! normalized failure of one cleanup, and what a cleanup may return.

use crate::event::{ListenerMetaView, ListenerObservationMeta};
use crate::ids::{ContractId, ExporterKey, ListenerRegistrationId, RealmKey, ServiceOccurrenceId};
use crate::seqs::{first, first_index, is_first, lemma_first_absent, lemma_first_found, without_first};
use crate::text::join2;
use vstd::prelude::*;

verus! {

/// The semantic kind of an [`EffectFailure`].
#[derive(Clone, Copy, PartialEq, Eq, Structural, Debug, Hash)]
pub enum EffectFailureKind {
    /// The cleanup returned an error.
    ReturnedError,
    /// The cleanup panicked; the panic was contained at the cleanup boundary.
    Panic,
}

/// One cleanup's normalized failure: its kind plus owned diagnostic text.
#[derive(Debug)]
pub struct EffectFailure {
    kind: EffectFailureKind,
    diagnostic: String,
}

/// A cleanup failure as a mathematical value.
pub struct EffectFailureView {
    pub kind: EffectFailureKind,
    pub diagnostic: Seq<char>,
}

impl View for EffectFailure {
    type V = EffectFailureView;

    closed spec fn view(&self) -> EffectFailureView {
        EffectFailureView { kind: self.kind, diagnostic: self.diagnostic@ }
    }
}

impl EffectFailureView {
    /// The text the failure displays.
    pub open spec fn message(self) -> Seq<char> {
        match self.kind {
            EffectFailureKind::ReturnedError => "returned an error: "@ + self.diagnostic,
            EffectFailureKind::Panic => "panicked: "@ + self.diagnostic,
        }
    }
}

impl EffectFailure {
    /// The failure of a cleanup that returned an error with this text.
    pub fn returned(diagnostic: String) -> (r: EffectFailure)
        ensures
            r@ == (EffectFailureView {
                kind: EffectFailureKind::ReturnedError,
                diagnostic: diagnostic@,
            }),
    {
        EffectFailure { kind: EffectFailureKind::ReturnedError, diagnostic }
    }

    /// The failure of a cleanup that panicked with this rendered payload.
    pub fn panicked(payload: String) -> (r: EffectFailure)
        ensures
            r@ == (EffectFailureView { kind: EffectFailureKind::Panic, diagnostic: payload@ }),
    {
        EffectFailure { kind: EffectFailureKind::Panic, diagnostic: payload }
    }

    /// Whether the cleanup returned an error or panicked.
    pub fn kind(&self) -> (r: EffectFailureKind)
        ensures
            r == self@.kind,
    {
        self.kind
    }

    /// The owned diagnostic text.
    pub fn diagnostic(&self) -> (r: &str)
        ensures
            r@ == self@.diagnostic,
    {
        self.diagnostic.as_str()
    }

    /// The text the failure displays.
    pub fn message(&self) -> (r: String)
        ensures
            r@ == self@.message(),
    {
        match self.kind {
            EffectFailureKind::ReturnedError => join2(
                "returned an error: ",
                self.diagnostic.as_str(),
            ),
            EffectFailureKind::Panic => join2("panicked: ", self.diagnostic.as_str()),
        }
    }
}

/// The diagnostic line for a cleanup failure that nobody is left to receive.
pub fn report_cleanup_failure(failure: &EffectFailure) -> (r: String)
    ensures
        r@ == "cordis: effect cleanup "@ + failure@.message(),
{
    let message = failure.message();
    join2("cordis: effect cleanup ", message.as_str())
}

/// Seal on [`CleanupResult`].
pub trait Sealed {

}

impl Sealed for () {

}

impl Sealed for Result<(), String> {

}

/// What an effect cleanup may return: nothing, or a result whose error is given
/// by its text. A failure normalizes exactly once.
pub trait CleanupResult: Sealed + Sized {
    /// The failure the value stands for, if any.
    spec fn failure(self) -> Option<EffectFailureView>;

    /// Normalizes the value.
    fn into_outcome(self) -> (r: Result<(), EffectFailure>)
        ensures
            match r {
                Ok(_) => self.failure() is None,
                Err(f) => self.failure() == Some(f@),
            },
    ;
}

impl CleanupResult for () {
    open spec fn failure(self) -> Option<EffectFailureView> {
        None
    }

    fn into_outcome(self) -> (r: Result<(), EffectFailure>) {
        Ok(())
    }
}

impl CleanupResult for Result<(), String> {
    open spec fn failure(self) -> Option<EffectFailureView> {
        match self {
            Ok(_) => None,
            Err(text) => Some(
                EffectFailureView { kind: EffectFailureKind::ReturnedError, diagnostic: text@ },
            ),
        }
    }

    fn into_outcome(self) -> (r: Result<(), EffectFailure>) {
        match self {
            Ok(_) => Ok(()),
            Err(text) => Err(EffectFailure::returned(text)),
        }
    }
}

/// Why an effect registration was refused.
#[derive(Clone, Copy, PartialEq, Eq, Structural, Debug)]
pub enum EffectRegistrationError {
    /// The selected fiber's generation is not open. Nothing was registered.
    InactiveContext,
}

impl EffectRegistrationError {
    /// The text the refusal displays.
    pub fn message(&self) -> (r: String)
        ensures
            r@ == "the context's fiber generation is closed to new cleanup"@,
    {
        "the context's fiber generation is closed to new cleanup".to_owned()
    }
}

/// Why a task registration was refused. Both arms are pre-commit.
#[derive(Clone, Copy, PartialEq, Eq, Structural, Debug)]
pub enum TaskRegistrationError {
    /// The selected fiber's generation is not open.
    InactiveContext,
    /// No async runtime is current on this thread to drive the task.
    ExecutorUnavailable,
}

impl TaskRegistrationError {
    /// The text the refusal displays.
    pub open spec fn spec_message(self) -> Seq<char> {
        match self {
            TaskRegistrationError::InactiveContext =>
                "the context's fiber generation is closed to new tasks"@,
            TaskRegistrationError::ExecutorUnavailable => "no async runtime is current"@,
        }
    }

    /// The text the refusal displays.
    pub fn message(&self) -> (r: String)
        ensures
            r@ == self.spec_message(),
    {
        match self {
            TaskRegistrationError::InactiveContext =>
                "the context's fiber generation is closed to new tasks".to_owned(),
            TaskRegistrationError::ExecutorUnavailable => "no async runtime is current".to_owned(),
        }
    }
}

/// One stored cleanup obligation. User cleanups are named by a handle that the
/// host runs; the framework's own bookkeeping is spelled out.
pub enum Cleanup {
    /// A user cleanup.
    Callback {
        /// The host's name for the closure.
        handle: u64,
        /// Whether the closure awaits.
        async_cleanup: bool,
    },
    /// Join a task the generation owns.
    Join {
        /// The host's name for the task.
        task: u64,
    },
    /// Physically withdraw one exact Service publication.
    Withdraw {
        /// The realm of the slot.
        realm: RealmKey,
        /// The Service name of the slot.
        service: String,
        /// The exact occurrence.
        occurrence: ServiceOccurrenceId,
    },
    /// Remove one exact Event listener.
    Unlisten {
        /// The listener's correlation facts.
        meta: ListenerObservationMeta,
    },
    /// Remove one exact update-control listener.
    Unhook {
        /// The Plugin contract the listener controls.
        contract: ContractId,
        /// The exact registration.
        listener: ListenerRegistrationId,
    },
    /// Remove one exact log exporter.
    Unexport {
        /// The exact occurrence.
        key: ExporterKey,
    },
    /// Remove one exact Runtime observer.
    Unobserve {
        /// The observer's key.
        observer: u64,
    },
}

/// A cleanup obligation as a mathematical value.
pub enum CleanupView {
    Callback { handle: u64, async_cleanup: bool },
    Join { task: u64 },
    Withdraw { realm: RealmKey, service: Seq<char>, occurrence: ServiceOccurrenceId },
    Unlisten { meta: ListenerMetaView },
    Unhook { contract: ContractId, listener: ListenerRegistrationId },
    Unexport { key: ExporterKey },
    Unobserve { observer: u64 },
}

impl View for Cleanup {
    type V = CleanupView;

    open spec fn view(&self) -> CleanupView {
        match self {
            Cleanup::Callback { handle, async_cleanup } => CleanupView::Callback {
                handle: *handle,
                async_cleanup: *async_cleanup,
            },
            Cleanup::Join { task } => CleanupView::Join { task: *task },
            Cleanup::Withdraw { realm, service, occurrence } => CleanupView::Withdraw {
                realm: *realm,
                service: service@,
                occurrence: *occurrence,
            },
            Cleanup::Unlisten { meta } => CleanupView::Unlisten { meta: meta@ },
            Cleanup::Unhook { contract, listener } => CleanupView::Unhook {
                contract: *contract,
                listener: *listener,
            },
            Cleanup::Unexport { key } => CleanupView::Unexport { key: *key },
            Cleanup::Unobserve { observer } => CleanupView::Unobserve { observer: *observer },
        }
    }
}

impl CleanupView {
    /// Whether the host has to run the cleanup.
    pub open spec fn is_hosted(self) -> bool {
        self is Callback || self is Join
    }
}

impl Cleanup {
    /// Whether the cleanup awaits, and so starts on the completion runtime.
    pub fn async_cleanup(&self) -> (r: bool)
        ensures
            r == (match self@ {
                CleanupView::Callback { async_cleanup, .. } => async_cleanup,
                CleanupView::Join { .. } => true,
                CleanupView::Unexport { .. } => true,
                _ => false,
            }),
    {
        match self {
            Cleanup::Callback { async_cleanup, .. } => *async_cleanup,
            Cleanup::Join { .. } => true,
            Cleanup::Unexport { .. } => true,
            _ => false,
        }
    }
}

/// Opaque key of one journal occurrence.
#[derive(Clone, Copy, PartialEq, Eq, Structural, Debug, Hash)]
pub struct DisposableToken(pub u64);

/// The per-generation cleanup journal, in commit order.
pub struct DisposableList {
    sn: u64,
    entries: Vec<(DisposableToken, Cleanup)>,
}

/// The journal as a mathematical value.
#[verifier::ext_equal]
pub struct JournalView {
    /// The last token issued.
    pub sn: u64,
    /// The obligations still owned, in commit order.
    pub entries: Seq<(DisposableToken, CleanupView)>,
}

/// The mathematical value of one journal row.
pub open spec fn row_view(row: (DisposableToken, Cleanup)) -> (DisposableToken, CleanupView) {
    (row.0, row.1@)
}

/// Whether a row is the one a token names.
pub open spec fn names(token: DisposableToken) -> spec_fn((DisposableToken, CleanupView)) -> bool {
    |row: (DisposableToken, CleanupView)| row.0 == token
}

impl View for DisposableList {
    type V = JournalView;

    closed spec fn view(&self) -> JournalView {
        JournalView {
            sn: self.sn,
            entries: self.entries@.map_values(|row: (DisposableToken, Cleanup)| row_view(row)),
        }
    }
}

impl JournalView {
    /// The journal of a generation that registered nothing.
    pub open spec fn empty() -> JournalView {
        JournalView { sn: 0, entries: Seq::empty() }
    }

    /// The token the next obligation gets.
    pub open spec fn next_token(self) -> DisposableToken {
        DisposableToken((self.sn + 1) as u64)
    }

    /// The journal with one obligation more.
    pub open spec fn pushed(self, cleanup: CleanupView) -> JournalView {
        JournalView {
            sn: (self.sn + 1) as u64,
            entries: self.entries.push((self.next_token(), cleanup)),
        }
    }

    /// The obligation a token names, while the generation owns it.
    pub open spec fn find(self, token: DisposableToken) -> Option<CleanupView> {
        match first(self.entries, names(token)) {
            Some(row) => Some(row.1),
            None => None,
        }
    }

    /// The journal after the obligation was claimed.
    pub open spec fn claimed(self, token: DisposableToken) -> JournalView {
        JournalView { sn: self.sn, entries: without_first(self.entries, names(token)) }
    }

    /// The tokens still owned, in commit order.
    pub open spec fn tokens(self) -> Seq<DisposableToken> {
        self.entries.map_values(|row: (DisposableToken, CleanupView)| row.0)
    }

    /// Tokens are issued once and kept in the order they were issued.
    pub open spec fn wf(self) -> bool {
        &&& forall|i: int| 0 <= i < self.entries.len() ==> 0 < (#[trigger] self.entries[i]).0.0 <= self.sn
        &&& forall|i: int, j: int|
            0 <= i < j < self.entries.len() ==> (#[trigger] self.entries[i]).0.0 < (
            #[trigger] self.entries[j]).0.0
    }
}

impl DisposableList {
    /// An empty journal.
    pub fn new() -> (r: DisposableList)
        ensures
            r@ == JournalView::empty(),
    {
        let r = DisposableList { sn: 0, entries: Vec::new() };
        assert(r@.entries =~= Seq::empty());
        r
    }

    /// How many obligations more the token space has room for.
    pub fn remaining(&self) -> (r: u64)
        ensures
            r == u64::MAX - self@.sn,
    {
        u64::MAX - self.sn
    }

    /// Commits one cleanup obligation and returns its exact claim token.
    pub fn push(&mut self, cleanup: Cleanup) -> (token: DisposableToken)
        requires
            old(self)@.sn < u64::MAX,
        ensures
            token == old(self)@.next_token(),
            final(self)@ == old(self)@.pushed(cleanup@),
    {
        self.sn = self.sn + 1;
        let token = DisposableToken(self.sn);
        self.entries.push((token, cleanup));
        assert(self@.entries =~= old(self)@.entries.push((token, cleanup@)));
        token
    }

    /// Claims an occurrence: hands its cleanup out, if the generation still
    /// owned it.
    pub fn remove(&mut self, token: DisposableToken) -> (r: Option<Cleanup>)
        ensures
            match r {
                Some(cleanup) => old(self)@.find(token) == Some(cleanup@),
                None => old(self)@.find(token) is None,
            },
            final(self)@ == old(self)@.claimed(token),
    {
        let mut i: usize = 0;
        while i < self.entries.len()
            invariant
                *self == *old(self),
                i <= self.entries@.len(),
                forall|j: int| 0 <= j < i ==> self@.entries[j].0 != token,
            decreases self.entries@.len() - i,
        {
            if self.entries[i].0 == token {
                proof {
                    assert(is_first(self@.entries, names(token), i as int));
                    lemma_first_found(self@.entries, names(token), i as int);
                }
                let (_, cleanup) = self.entries.remove(i);
                assert(self@.entries =~= old(self)@.entries.remove(i as int));
                return Some(cleanup);
            }
            i = i + 1;
        }
        proof {
            lemma_first_absent(self@.entries, names(token));
        }
        None
    }

    /// Every still-owned token, in commit order.
    pub fn tokens(&self) -> (r: Vec<DisposableToken>)
        ensures
            r@ == self@.tokens(),
    {
        let mut out: Vec<DisposableToken> = Vec::new();
        let mut i: usize = 0;
        while i < self.entries.len()
            invariant
                i <= self.entries@.len(),
                out@ == self@.tokens().take(i as int),
            decreases self.entries@.len() - i,
        {
            out.push(self.entries[i].0);
            assert(out@ =~= self@.tokens().take(i + 1));
            i = i + 1;
        }
        assert(out@ =~= self@.tokens());
        out
    }
}

/// When framework-owned work that an executor drops before its end moves to
/// another executor: a normal suspension authorizes the transfer, a poll that never
/// returned does not.
#[derive(Clone, Copy, PartialEq, Eq, Structural, Debug)]
pub struct DetachedWork {
    /// Whether the work has not returned yet.
    pub live: bool,
    /// Whether a drop moves the work on.
    pub transfer_on_drop: bool,
}

impl DetachedWork {
    /// Work that was never polled.
    pub fn new() -> (r: DetachedWork)
        ensures
            r == (DetachedWork { live: true, transfer_on_drop: true }),
    {
        DetachedWork { live: true, transfer_on_drop: true }
    }

    /// A poll begins.
    pub fn poll(&mut self)
        ensures
            *final(self) == (DetachedWork { transfer_on_drop: false, ..*old(self) }),
    {
        self.transfer_on_drop = false;
    }

    /// A poll returned, with the work at its end or suspended.
    pub fn polled(&mut self, ready: bool)
        ensures
            *final(self) == (if ready {
                DetachedWork { live: false, ..*old(self) }
            } else {
                DetachedWork { transfer_on_drop: true, ..*old(self) }
            }),
    {
        if ready {
            self.live = false;
        } else {
            self.transfer_on_drop = true;
        }
    }

    /// The executor drops the work: says whether it moves on.
    pub fn dropped(self) -> (r: bool)
        ensures
            r == (self.live && self.transfer_on_drop),
    {
        self.live && self.transfer_on_drop
    }
}

/// A claimed occurrence cannot be claimed again.
pub proof fn law_a_token_is_claimed_exactly_once(journal: JournalView, token: DisposableToken)
    requires
        journal.wf(),
    ensures
        journal.claimed(token).find(token) is None,
        journal.claimed(token).wf(),
{
    let after = journal.claimed(token);
    match first_index(journal.entries, names(token)) {
        Some(i) => {
            assert(is_first(journal.entries, names(token), i));
            assert forall|j: int| 0 <= j < after.entries.len() implies !names(token)(
                #[trigger] after.entries[j],
            ) by {
                if j < i {
                    assert(after.entries[j] == journal.entries[j]);
                } else {
                    assert(after.entries[j] == journal.entries[j + 1]);
                }
            }
        },
        None => {},
    }
    crate::seqs::lemma_first_meets(journal.entries, names(token));
    lemma_first_absent(after.entries, names(token));
}

/// Claiming one occurrence leaves every other one claimable, with the same
/// cleanup.
pub proof fn law_a_claim_leaves_the_others(
    journal: JournalView,
    token: DisposableToken,
    other: DisposableToken,
)
    requires
        journal.wf(),
        token != other,
    ensures
        journal.claimed(token).find(other) == journal.find(other),
{
    let after = journal.claimed(token);
    crate::seqs::lemma_first_meets(journal.entries, names(token));
    crate::seqs::lemma_first_meets(journal.entries, names(other));
    match first_index(journal.entries, names(token)) {
        Some(i) => match first_index(journal.entries, names(other)) {
            Some(k) => {
                let at = if k < i {
                    k
                } else {
                    k - 1
                };
                assert(after.entries[at] == journal.entries[k]);
                assert forall|j: int| 0 <= j < at implies !names(other)(
                    #[trigger] after.entries[j],
                ) by {
                    if j < i {
                        assert(after.entries[j] == journal.entries[j]);
                    } else {
                        assert(after.entries[j] == journal.entries[j + 1]);
                    }
                }
                assert(is_first(after.entries, names(other), at));
                lemma_first_found(after.entries, names(other), at);
            },
            None => {
                assert forall|j: int| 0 <= j < after.entries.len() implies !names(other)(
                    #[trigger] after.entries[j],
                ) by {
                    if j < i {
                        assert(after.entries[j] == journal.entries[j]);
                    } else {
                        assert(after.entries[j] == journal.entries[j + 1]);
                    }
                }
                lemma_first_absent(after.entries, names(other));
            },
        },
        None => {},
    }
}

/// A committed obligation is claimable under its token, comes last in commit
/// order, and leaves those before it as they were.
pub proof fn law_a_commit_is_claimable_and_last(journal: JournalView, cleanup: CleanupView)
    requires
        journal.wf(),
        journal.sn < u64::MAX,
    ensures
        journal.pushed(cleanup).wf(),
        journal.pushed(cleanup).find(journal.next_token()) == Some(cleanup),
        journal.pushed(cleanup).tokens() == journal.tokens().push(journal.next_token()),
{
    let after = journal.pushed(cleanup);
    let token = journal.next_token();
    let at = journal.entries.len() as int;
    assert(after.entries[at] == (token, cleanup));
    assert forall|j: int| 0 <= j < at implies !names(token)(#[trigger] after.entries[j]) by {
        assert(after.entries[j] == journal.entries[j]);
    }
    assert(is_first(after.entries, names(token), at));
    lemma_first_found(after.entries, names(token), at);
    assert(after.tokens() =~= journal.tokens().push(token));
}

impl JournalView {
    /// Whether the generation still owes a cleanup of a kind.
    pub open spec fn owes(self, kind: spec_fn(CleanupView) -> bool) -> bool {
        exists|k: int| 0 <= k < self.entries.len() && kind((#[trigger] self.entries[k]).1)
    }
}

/// A committed obligation is owed beside everything owed before.
pub proof fn lemma_pushed_owes(
    journal: JournalView,
    cleanup: CleanupView,
    kind: spec_fn(CleanupView) -> bool,
)
    requires
        journal.wf(),
        journal.sn < u64::MAX,
    ensures
        journal.pushed(cleanup).wf(),
        journal.owes(kind) || kind(cleanup) ==> journal.pushed(cleanup).owes(kind),
{
    let after = journal.pushed(cleanup);
    let n = journal.entries.len() as int;
    assert(after.entries[n].1 == cleanup);
    if journal.owes(kind) {
        let k = choose|k: int|
            0 <= k < journal.entries.len() && kind((#[trigger] journal.entries[k]).1);
        assert(after.entries[k] == journal.entries[k]);
    }
}

/// What is owed by another obligation than the claimed one stays owed.
pub proof fn lemma_claimed_owes(
    journal: JournalView,
    token: DisposableToken,
    kind: spec_fn(CleanupView) -> bool,
)
    requires
        journal.owes(kind),
        journal.find(token) matches Some(c) ==> !kind(c),
    ensures
        journal.claimed(token).owes(kind),
{
    let after = journal.claimed(token);
    let k = choose|k: int|
        0 <= k < journal.entries.len() && kind((#[trigger] journal.entries[k]).1);
    match first_index(journal.entries, names(token)) {
        Some(i) => {
            assert(k != i);
            if k < i {
                assert(after.entries[k] == journal.entries[k]);
            } else {
                assert(after.entries[k - 1] == journal.entries[k]);
            }
        },
        None => {},
    }
}

} // verus!
