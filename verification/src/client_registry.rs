//! Per-credential client cache.
//!
//! Kafka credentials belong to a connection, so every resolved credential
//! bundle needs a client pair of its own. The cache keeps one pair per digest of
//! a resolved bundle, is bounded, and drops pairs when a credential is revoked,
//! when a secret rotates, and when a pair has been idle for too long. `T` is the
//! client pair; the cache never looks inside it. Times are milliseconds since an
//! epoch of the owner's choice.
use std::sync::Arc;
use std::time::Duration;
use vstd::prelude::*;

use crate::text::{pair_view, pair_views, same_text, PairView};

pub use crate::digest::{digest_credential_bundle, static_digest, CredDigest};

verus! {

/// How many whole milliseconds a duration holds.
pub uninterp spec fn whole_millis(duration: std::time::Duration) -> u128;

/// Calls `std::time::Duration::as_millis`: the number of whole milliseconds.
#[verifier::external_body]
fn millis_of(duration: Duration) -> (ms: u128)
    ensures
        ms == whole_millis(duration),
{
    duration.as_millis()
}

/// Calls `std::time::Duration::from_secs`: a duration of so many whole seconds.
#[verifier::external_body]
fn seconds(secs: u64) -> (duration: Duration)
    ensures
        whole_millis(duration) == secs * 1000,
{
    Duration::from_secs(secs)
}

/// The bounds of a [`ClientRegistry`].
#[derive(Debug, Clone, Copy)]
pub struct ClientRegistryConfig {
    /// How many client pairs are kept at most.
    pub max_entries: usize,
    /// For how long an unused client pair is kept.
    pub idle_eviction: Duration,
}

impl Default for ClientRegistryConfig {
    /// 256 client pairs, kept for 15 idle minutes.
    fn default() -> (config: Self)
        ensures
            config.max_entries == 256,
            whole_millis(config.idle_eviction) == 15 * 60 * 1000,
    {
        ClientRegistryConfig { max_entries: 256, idle_eviction: seconds(15 * 60) }
    }
}

/// One cached client pair.
struct ClientEntry<T> {
    digest: CredDigest,
    bundle: Arc<T>,
    cred_keys: Vec<(String, String)>,
    last_used: u64,
}

/// What the cache holds of one client pair.
pub ghost struct EntryView<T> {
    /// The digest of the resolved credential bundle.
    pub digest: Seq<u8>,
    /// The client pair.
    pub bundle: Arc<T>,
    /// The `(plugin_id, target)` pairs whose revocation drops the entry.
    pub cred_keys: Seq<PairView>,
    /// When the pair was last handed out.
    pub last_used: u64,
}

impl<T> ClientEntry<T> {
    spec fn model(self) -> EntryView<T> {
        EntryView {
            digest: self.digest@,
            bundle: self.bundle,
            cred_keys: pair_views(self.cred_keys@),
            last_used: self.last_used,
        }
    }
}

spec fn models<T>(entries: Seq<ClientEntry<T>>) -> Seq<EntryView<T>> {
    entries.map_values(|e: ClientEntry<T>| e.model())
}

/// Bounded cache of client pairs, at most one per credential digest.
pub struct ClientRegistry<T> {
    entries: Vec<ClientEntry<T>>,
    config: ClientRegistryConfig,
}

impl<T> View for ClientRegistry<T> {
    type V = Seq<EntryView<T>>;

    /// The entries, in the order of their insertion.
    closed spec fn view(&self) -> Seq<EntryView<T>> {
        models(self.entries@)
    }
}

/// No two entries have the same digest.
pub open spec fn digests_distinct<T>(entries: Seq<EntryView<T>>) -> bool {
    forall|i: int, j: int|
        0 <= i < j < entries.len() ==> (#[trigger] entries[i]).digest != (
        #[trigger] entries[j]).digest
}

/// Entry `i` is that of `digest`.
pub open spec fn is_entry_of<T>(entries: Seq<EntryView<T>>, digest: Seq<u8>, i: int) -> bool {
    0 <= i < entries.len() && entries[i].digest == digest
}

/// Some entry is that of `digest`.
pub open spec fn holds_digest<T>(entries: Seq<EntryView<T>>, digest: Seq<u8>) -> bool {
    exists|i: int| is_entry_of(entries, digest, i)
}

/// The client pair cached for `digest`.
pub open spec fn bundle_of<T>(entries: Seq<EntryView<T>>, digest: Seq<u8>) -> Arc<T> {
    entries[choose|i: int| is_entry_of(entries, digest, i)].bundle
}

/// `entries` with the entry of `digest` last used at `now`.
pub open spec fn touched<T>(entries: Seq<EntryView<T>>, digest: Seq<u8>, now: u64) -> Seq<
    EntryView<T>,
> {
    entries.map_values(
        |e: EntryView<T>|
            if e.digest == digest {
                EntryView { last_used: now, ..e }
            } else {
                e
            },
    )
}

/// No entry was last used before entry `i`.
pub open spec fn is_oldest<T>(entries: Seq<EntryView<T>>, i: int) -> bool {
    &&& 0 <= i < entries.len()
    &&& forall|j: int|
        0 <= j < entries.len() ==> entries[i].last_used <= (#[trigger] entries[j]).last_used
}

/// `after` is `entries`, without one of its oldest entries if it holds more than
/// `max_entries`.
pub open spec fn bounded<T>(
    entries: Seq<EntryView<T>>,
    max_entries: usize,
    after: Seq<EntryView<T>>,
) -> bool {
    if entries.len() > max_entries {
        exists|i: int| is_oldest(entries, i) && after == #[trigger] entries.remove(i)
    } else {
        after == entries
    }
}

/// Whether a revocation of `(plugin_id, target)` spares an entry.
pub open spec fn spared_by<T>(plugin_id: Seq<char>, target: Seq<char>) -> spec_fn(
    EntryView<T>,
) -> bool {
    |e: EntryView<T>| !e.cred_keys.contains((plugin_id, target))
}

/// Whether an entry has been idle for no longer than `limit` milliseconds at time `now`. A
/// clock that stands before the last use counts as no idle time.
pub open spec fn fresh_at<T>(now: u64, limit: u128) -> spec_fn(EntryView<T>) -> bool {
    |e: EntryView<T>| now - e.last_used <= limit
}

/// What a caller of [`ClientRegistry::get_or_build`] brings.
pub enum BundleRequest<T> {
    /// Nothing yet: look the digest up.
    Lookup,
    /// A freshly built client pair and the keys that revoke it.
    Built { bundle: Arc<T>, cred_keys: Vec<(String, String)> },
}

/// What a call of a [`ClientRegistry`] method does to the entries.
#[verifier::reject_recursive_types(T)]
pub ghost enum CacheOp<T> {
    /// Nothing.
    Keep,
    /// Hands the client pair of `digest` out at `now`.
    Use { digest: Seq<u8>, now: u64 },
    /// Adds `entry` and hands its client pair out.
    Add { entry: EntryView<T> },
    /// Drops the entries that are not spared.
    Drop { spared: spec_fn(EntryView<T>) -> bool },
    /// Drops every entry.
    Clear,
}

/// `op` leads from the entries `before` to the entries `after` in a cache of at most
/// `max_entries`.
pub open spec fn cache_step<T>(
    before: Seq<EntryView<T>>,
    op: CacheOp<T>,
    max_entries: usize,
    after: Seq<EntryView<T>>,
) -> bool {
    match op {
        CacheOp::Keep => after == before,
        CacheOp::Use { digest, now } => holds_digest(before, digest) && after == touched(
            before,
            digest,
            now,
        ),
        CacheOp::Add { entry } => !holds_digest(before, entry.digest) && bounded(
            before.push(entry),
            max_entries,
            after,
        ),
        CacheOp::Drop { spared } => after == before.filter(spared),
        CacheOp::Clear => after.len() == 0,
    }
}

/// What [`ClientRegistry::get_or_build`] does with a request for `digest`.
pub open spec fn request_op<T>(
    entries: Seq<EntryView<T>>,
    digest: Seq<u8>,
    request: BundleRequest<T>,
    now: u64,
) -> CacheOp<T> {
    if holds_digest(entries, digest) {
        CacheOp::Use { digest, now }
    } else {
        match request {
            BundleRequest::Lookup => CacheOp::Keep,
            BundleRequest::Built { bundle, cred_keys } => CacheOp::Add {
                entry: EntryView {
                    digest,
                    bundle,
                    cred_keys: pair_views(cred_keys@),
                    last_used: now,
                },
            },
        }
    }
}

/// The digest and the client pair that `op` hands out, if it does.
pub open spec fn handed_out<T>(before: Seq<EntryView<T>>, op: CacheOp<T>) -> Option<
    (Seq<u8>, Arc<T>),
> {
    match op {
        CacheOp::Use { digest, .. } => Some((digest, bundle_of(before, digest))),
        CacheOp::Add { entry } => Some((entry.digest, entry.bundle)),
        _ => None,
    }
}

/// The entries of a cache of at most `max_entries` over time: `ops[k]` leads from
/// `history[k]` to `history[k + 1]`.
pub open spec fn is_run<T>(
    history: Seq<Seq<EntryView<T>>>,
    ops: Seq<CacheOp<T>>,
    max_entries: usize,
) -> bool {
    &&& history.len() == ops.len() + 1
    &&& forall|k: int|
        0 <= k < ops.len() ==> cache_step(
            history[k],
            #[trigger] ops[k],
            max_entries,
            history[k + 1],
        )
}

/// `made` holds of every entry's client pair and digest.
pub open spec fn all_made<T>(
    entries: Seq<EntryView<T>>,
    made: spec_fn(Arc<T>, Seq<u8>) -> bool,
) -> bool {
    forall|i: int|
        0 <= i < entries.len() ==> made((#[trigger] entries[i]).bundle, entries[i].digest)
}

/// No entry is lost between `before` and `after`.
pub open spec fn drops_nothing<T>(
    before: Seq<EntryView<T>>,
    op: CacheOp<T>,
    after: Seq<EntryView<T>>,
) -> bool {
    match op {
        CacheOp::Keep => true,
        CacheOp::Use { .. } => true,
        CacheOp::Add { .. } => after.len() == before.len() + 1,
        CacheOp::Drop { .. } => after == before,
        CacheOp::Clear => after == before,
    }
}

/// What a caller of [`ClientRegistry::get_or_build`] is to do.
pub enum BundleAnswer<T> {
    /// Use this client pair. `evicted` older pairs were dropped to make room.
    Ready { bundle: Arc<T>, evicted: usize },
    /// Build a client pair and come back with it.
    Build,
}

/// Where the background sweeper stands.
#[derive(Debug)]
pub enum SweeperState {
    /// Its ticker has not ticked yet. A ticker ticks at once when it is started, and then
    /// once per interval.
    Starting,
    /// Its ticker has ticked.
    Running,
    /// It was cancelled.
    Stopped,
}

/// What the background sweeper finds when it wakes.
#[derive(Debug)]
pub struct SweepWake {
    /// The last owner of the sweeper is gone.
    pub cancelled: bool,
    /// The ticker has ticked.
    pub ticked: bool,
}

/// Where the sweeper stands after a wake. A cancellation comes before a tick.
pub open spec fn sweeper_after(state: SweeperState, wake: SweepWake) -> SweeperState {
    if state is Stopped || wake.cancelled {
        SweeperState::Stopped
    } else if wake.ticked {
        SweeperState::Running
    } else {
        state
    }
}

/// Whether the sweeper sweeps the cache on a wake.
pub open spec fn sweeps_on(state: SweeperState, wake: SweepWake) -> bool {
    state is Running && wake.ticked && !wake.cancelled
}

/// Where the sweeper stands after a number of wakes.
pub open spec fn sweeper_state(wakes: Seq<SweepWake>) -> SweeperState
    decreases wakes.len(),
{
    if wakes.len() == 0 {
        SweeperState::Starting
    } else {
        sweeper_after(sweeper_state(wakes.drop_last()), wakes.last())
    }
}

/// What the background sweeper does next.
pub enum IdleSweepAction {
    /// End.
    Stop,
    /// Wait for the next event.
    Wait,
    /// Report the number of dropped entries, then wait for the next event.
    Report { evicted: usize },
}

/// Whether two digests are equal.
fn same_digest(a: &CredDigest, b: &CredDigest) -> (same: bool)
    ensures
        same == (a@ == b@),
{
    let mut i: usize = 0;
    while i < 32
        invariant
            i <= 32,
            forall|j: int| 0 <= j < i ==> a@[j] == b@[j],
        decreases 32 - i,
    {
        if a[i] != b[i] {
            return false;
        }
        i += 1;
    }
    assert(a@ =~= b@);
    true
}

/// Whether `(first, second)` is among `keys`.
fn contains_pair(keys: &Vec<(String, String)>, first: &str, second: &str) -> (found: bool)
    ensures
        found == pair_views(keys@).contains((first@, second@)),
{
    let ghost views = pair_views(keys@);
    let mut i: usize = 0;
    while i < keys.len()
        invariant
            i <= keys.len(),
            views == pair_views(keys@),
            forall|j: int| 0 <= j < i ==> views[j] != (first@, second@),
        decreases keys.len() - i,
    {
        assert(views[i as int] == pair_view(keys@[i as int]));
        if same_text(&keys[i].0, first) && same_text(&keys[i].1, second) {
            return true;
        }
        i += 1;
    }
    false
}

impl<T> ClientRegistry<T> {
    /// The bounds this cache was made with.
    pub closed spec fn limits(self) -> ClientRegistryConfig {
        self.config
    }

    /// No two entries have the same digest, and there are no more than the bound.
    #[verifier::type_invariant]
    pub closed spec fn valid(self) -> bool {
        &&& digests_distinct(models(self.entries@))
        &&& self.entries@.len() <= self.config.max_entries
    }

    /// An empty cache.
    #[must_use]
    pub fn new(config: ClientRegistryConfig) -> (registry: Self)
        ensures
            registry@ == Seq::<EntryView<T>>::empty(),
            registry.limits() == config,
    {
        let registry = ClientRegistry { entries: Vec::new(), config };
        assert(registry@ =~= Seq::<EntryView<T>>::empty());
        registry
    }

    /// How many client pairs are cached.
    pub fn len(&self) -> (n: usize)
        ensures
            n == self@.len(),
            n <= self.limits().max_entries,
            digests_distinct(self@),
    {
        proof {
            use_type_invariant(self);
        }
        self.entries.len()
    }

    /// Whether no client pair is cached.
    pub fn is_empty(&self) -> (b: bool)
        ensures
            b == (self@.len() == 0),
    {
        self.entries.len() == 0
    }

    /// The index of the entry of `digest`.
    fn find(&self, digest: &CredDigest) -> (found: Option<usize>)
        ensures
            match found {
                Some(i) => is_entry_of(self@, digest@, i as int),
                None => !holds_digest(self@, digest@),
            },
    {
        let mut i: usize = 0;
        while i < self.entries.len()
            invariant
                i <= self.entries.len(),
                forall|j: int| 0 <= j < i ==> !is_entry_of(self@, digest@, j),
            decreases self.entries.len() - i,
        {
            if same_digest(&self.entries[i].digest, digest) {
                return Some(i);
            }
            i += 1;
        }
        None
    }

    /// Takes one step towards the client pair of `digest`. On a
    /// [`BundleRequest::Lookup`] a cached pair is handed out and marked as used
    /// at `now`; otherwise the caller is asked to build one. On a
    /// [`BundleRequest::Built`] the pair is cached and, if the cache is then over
    /// its bound, one of the longest unused entries is dropped; but if the digest
    /// has been cached in the meantime, the cached pair is handed out and the
    /// fresh one is not kept. Between the two steps the cache is free for other
    /// digests.
    pub fn get_or_build(
        &mut self,
        digest: &CredDigest,
        request: BundleRequest<T>,
        now: u64,
    ) -> (answer: BundleAnswer<T>)
        ensures
            final(self).limits() == old(self).limits(),
            digests_distinct(final(self)@),
            final(self)@.len() <= old(self).limits().max_entries,
            cache_step(
                old(self)@,
                request_op(old(self)@, digest@, request, now),
                old(self).limits().max_entries,
                final(self)@,
            ),
            holds_digest(old(self)@, digest@) ==> {
                &&& answer == (BundleAnswer::Ready {
                    bundle: bundle_of(old(self)@, digest@),
                    evicted: 0,
                })
                &&& final(self)@ == touched(old(self)@, digest@, now)
            },
            !holds_digest(old(self)@, digest@) ==> match request {
                BundleRequest::Lookup => {
                    &&& answer == BundleAnswer::<T>::Build
                    &&& final(self)@ == old(self)@
                },
                BundleRequest::Built { bundle, cred_keys } => {
                    let grown = old(self)@.push(
                        EntryView {
                            digest: digest@,
                            bundle,
                            cred_keys: pair_views(cred_keys@),
                            last_used: now,
                        },
                    );
                    &&& answer == (BundleAnswer::Ready {
                        bundle,
                        evicted: (grown.len() - final(self)@.len()) as usize,
                    })
                    &&& bounded(grown, old(self).limits().max_entries, final(self)@)
                },
            },
    {
        proof {
            use_type_invariant(&*self);
        }
        let ghost before = self@;
        let found = self.find(digest);
        let mut entries: Vec<ClientEntry<T>> = Vec::new();
        std::mem::swap(&mut entries, &mut self.entries);
        match found {
            Some(i) => {
                proof {
                    let j = choose|j: int| is_entry_of(before, digest@, j);
                    assert(is_entry_of(before, digest@, i as int));
                    assert(j == i);
                }
                let entry = entries.remove(i);
                let bundle = Arc::clone(&entry.bundle);
                entries.insert(i, ClientEntry { last_used: now, ..entry });
                assert(models(entries@) =~= touched(before, digest@, now));
                self.entries = entries;
                BundleAnswer::Ready { bundle, evicted: 0 }
            },
            None => match request {
                BundleRequest::Lookup => {
                    self.entries = entries;
                    BundleAnswer::Build
                },
                BundleRequest::Built { bundle, cred_keys } => {
                    let handed_out = Arc::clone(&bundle);
                    let entry = ClientEntry { digest: *digest, bundle, cred_keys, last_used: now };
                    entries.push(entry);
                    let ghost grown = models(entries@);
                    proof {
                        let added = grown.last();
                        assert(grown =~= before.push(added));
                        assert forall|i: int| 0 <= i < before.len() implies (
                        #[trigger] before[i]).digest != digest@ by {
                            assert(!is_entry_of(before, digest@, i));
                        }
                    }
                    let mut evicted: usize = 0;
                    if entries.len() > self.config.max_entries {
                        let i = oldest_entry(&entries);
                        let _dropped = entries.remove(i);
                        evicted = 1;
                        assert(models(entries@) =~= grown.remove(i as int));
                    }
                    self.entries = entries;
                    BundleAnswer::Ready { bundle: handed_out, evicted }
                },
            },
        }
    }

    /// Drops the entries whose keys contain `(plugin_id, target)` and returns how
    /// many that were.
    pub fn evict_for(&mut self, plugin_id: &str, target: &str) -> (evicted: usize)
        ensures
            final(self).limits() == old(self).limits(),
            final(self)@ == old(self)@.filter(spared_by(plugin_id@, target@)),
            cache_step(
                old(self)@,
                (CacheOp::Drop { spared: spared_by(plugin_id@, target@) }),
                old(self).limits().max_entries,
                final(self)@,
            ),
            evicted == old(self)@.len() - final(self)@.len(),
            digests_distinct(final(self)@),
            final(self)@.len() <= old(self).limits().max_entries,
    {
        proof {
            use_type_invariant(&*self);
        }
        let ghost before = self@;
        let ghost spared = spared_by::<T>(plugin_id@, target@);
        let mut entries: Vec<ClientEntry<T>> = Vec::new();
        std::mem::swap(&mut entries, &mut self.entries);
        let total: usize = entries.len();
        let mut kept: Vec<ClientEntry<T>> = Vec::new();
        for entry in it: entries
            invariant
                models(it.seq()) == before,
                spared == spared_by::<T>(plugin_id@, target@),
                models(kept@) == before.take(it.index() as int).filter(spared),
        {
            proof {
                lemma_filter_step(before, it.index() as int, spared);
            }
            if !contains_pair(&entry.cred_keys, plugin_id, target) {
                let ghost so_far = models(kept@);
                kept.push(entry);
                assert(models(kept@) =~= so_far.push(entry.model()));
            }
        }
        proof {
            assert(before.take(before.len() as int) =~= before);
            lemma_filter_keeps_distinct(before, spared);
        }
        let evicted: usize = total - kept.len();
        self.entries = kept;
        evicted
    }

    /// Answers one wake of the background sweeper. A cancellation stops it and leaves the
    /// cache as it is; the first tick starts it; every later tick sweeps the cache, and
    /// what was dropped, if anything, is reported.
    pub fn idle_sweep_step(
        &mut self,
        sweeper: &mut SweeperState,
        wake: SweepWake,
        now: u64,
    ) -> (action: IdleSweepAction)
        ensures
            final(self).limits() == old(self).limits(),
            digests_distinct(final(self)@),
            *final(sweeper) == sweeper_after(*old(sweeper), wake),
            if sweeps_on(*old(sweeper), wake) {
                let evicted = old(self)@.len() - final(self)@.len();
                &&& final(self)@ == old(self)@.filter(
                    fresh_at(now, whole_millis(old(self).limits().idle_eviction)),
                )
                &&& action == if evicted > 0 {
                    IdleSweepAction::Report { evicted: evicted as usize }
                } else {
                    IdleSweepAction::Wait
                }
            } else {
                &&& final(self)@ == old(self)@
                &&& action == if *final(sweeper) is Stopped {
                    IdleSweepAction::Stop
                } else {
                    IdleSweepAction::Wait
                }
            },
    {
        proof {
            use_type_invariant(&*self);
        }
        if wake.cancelled {
            *sweeper = SweeperState::Stopped;
        }
        match sweeper {
            SweeperState::Stopped => IdleSweepAction::Stop,
            SweeperState::Starting => {
                if wake.ticked {
                    *sweeper = SweeperState::Running;
                }
                IdleSweepAction::Wait
            },
            SweeperState::Running => {
                if !wake.ticked {
                    return IdleSweepAction::Wait;
                }
                let evicted = self.sweep_idle(now);
                if evicted > 0 {
                    IdleSweepAction::Report { evicted }
                } else {
                    IdleSweepAction::Wait
                }
            },
        }
    }

    /// Drops every entry, because a secret that the cached pairs depend on has
    /// rotated, and returns how many there were.
    pub fn evict_for_secret(&mut self, _secret_ref: &str) -> (evicted: usize)
        ensures
            final(self).limits() == old(self).limits(),
            final(self)@ == Seq::<EntryView<T>>::empty(),
            evicted == old(self)@.len(),
            digests_distinct(final(self)@),
            cache_step(
                old(self)@,
                CacheOp::Clear,
                old(self).limits().max_entries,
                final(self)@,
            ),
    {
        let evicted: usize = self.entries.len();
        self.entries = Vec::new();
        assert(self@ =~= Seq::<EntryView<T>>::empty());
        evicted
    }

    /// Drops the entries that at time `now` have been idle for longer than the
    /// configured limit and returns how many that were.
    pub fn sweep_idle(&mut self, now: u64) -> (evicted: usize)
        ensures
            final(self).limits() == old(self).limits(),
            final(self)@ == old(self)@.filter(
                fresh_at(now, whole_millis(old(self).limits().idle_eviction)),
            ),
            cache_step(
                old(self)@,
                (CacheOp::Drop {
                    spared: fresh_at(now, whole_millis(old(self).limits().idle_eviction)),
                }),
                old(self).limits().max_entries,
                final(self)@,
            ),
            evicted == old(self)@.len() - final(self)@.len(),
            digests_distinct(final(self)@),
            final(self)@.len() <= old(self).limits().max_entries,
    {
        proof {
            use_type_invariant(&*self);
        }
        let ghost before = self@;
        let threshold: u128 = millis_of(self.config.idle_eviction);
        let ghost fresh = fresh_at::<T>(now, threshold);
        let mut entries: Vec<ClientEntry<T>> = Vec::new();
        std::mem::swap(&mut entries, &mut self.entries);
        let total: usize = entries.len();
        let mut kept: Vec<ClientEntry<T>> = Vec::new();
        for entry in it: entries
            invariant
                models(it.seq()) == before,
                fresh == fresh_at::<T>(now, threshold),
                models(kept@) == before.take(it.index() as int).filter(fresh),
        {
            proof {
                lemma_filter_step(before, it.index() as int, fresh);
            }
            if now <= entry.last_used || (now - entry.last_used) as u128 <= threshold {
                let ghost so_far = models(kept@);
                kept.push(entry);
                assert(models(kept@) =~= so_far.push(entry.model()));
            }
        }
        proof {
            assert(before.take(before.len() as int) =~= before);
            lemma_filter_keeps_distinct(before, fresh);
        }
        let evicted: usize = total - kept.len();
        self.entries = kept;
        evicted
    }
}

/// The index of the first of the longest unused entries.
fn oldest_entry<T>(entries: &Vec<ClientEntry<T>>) -> (oldest: usize)
    requires
        entries@.len() > 0,
    ensures
        is_oldest(models(entries@), oldest as int),
{
    let ghost views = models(entries@);
    let mut oldest: usize = 0;
    let mut i: usize = 1;
    while i < entries.len()
        invariant
            views == models(entries@),
            oldest < i <= entries.len(),
            forall|j: int| 0 <= j < i ==> views[oldest as int].last_used <= (
            #[trigger] views[j]).last_used,
        decreases entries.len() - i,
    {
        assert(views[i as int].last_used == entries@[i as int].last_used);
        if entries[i].last_used < entries[oldest].last_used {
            oldest = i;
        }
        i += 1;
    }
    oldest
}

/// Filtering one entry more.
proof fn lemma_filter_step<T>(
    entries: Seq<EntryView<T>>,
    i: int,
    pred: spec_fn(EntryView<T>) -> bool,
)
    requires
        0 <= i < entries.len(),
    ensures
        entries.take(i + 1).filter(pred) == if pred(entries[i]) {
            entries.take(i).filter(pred).push(entries[i])
        } else {
            entries.take(i).filter(pred)
        },
{
    reveal(Seq::filter);
    assert(entries.take(i + 1).drop_last() =~= entries.take(i));
}

/// A filtered list of distinct digests has distinct digests and is no longer.
proof fn lemma_filter_keeps_distinct<T>(
    entries: Seq<EntryView<T>>,
    pred: spec_fn(EntryView<T>) -> bool,
)
    requires
        digests_distinct(entries),
    ensures
        digests_distinct(entries.filter(pred)),
        entries.filter(pred).len() <= entries.len(),
    decreases entries.len(),
{
    reveal(Seq::filter);
    if entries.len() > 0 {
        let rest = entries.drop_last();
        lemma_filter_keeps_distinct(rest, pred);
        let kept = rest.filter(pred);
        assert forall|i: int| 0 <= i < kept.len() implies (#[trigger] kept[i]).digest
            != entries.last().digest by {
            rest.lemma_filter_contains_rev(pred, kept[i]);
            let k = choose|k: int| 0 <= k < rest.len() && rest[k] == kept[i];
            assert(entries[k] == kept[i]);
        }
    }
}

/// A freshly built client pair is found under its digest afterwards, if there is room
/// for it or some other entry has not been used since before it was built.
pub proof fn law_built_bundle_is_found<T>(
    entries: Seq<EntryView<T>>,
    added: EntryView<T>,
    max_entries: usize,
    after: Seq<EntryView<T>>,
)
    requires
        digests_distinct(entries),
        !holds_digest(entries, added.digest),
        bounded(entries.push(added), max_entries, after),
        entries.len() <= max_entries,
        entries.len() < max_entries || exists|i: int|
            0 <= i < entries.len() && (#[trigger] entries[i]).last_used < added.last_used,
    ensures
        holds_digest(after, added.digest),
        bundle_of(after, added.digest) == added.bundle,
{
    let grown = entries.push(added);
    let n = entries.len() as int;
    assert forall|i: int| 0 <= i < n implies (#[trigger] grown[i]).digest != added.digest by {
        assert(!is_entry_of(entries, added.digest, i));
    }
    if grown.len() > max_entries {
        let i = choose|i: int| is_oldest(grown, i) && after == #[trigger] grown.remove(i);
        let older = choose|k: int|
            0 <= k < entries.len() && (#[trigger] entries[k]).last_used < added.last_used;
        assert(grown[older].last_used < grown[n].last_used);
        assert(i != n);
        assert(after[n - 1] == added);
        assert(is_entry_of(after, added.digest, n - 1));
        assert forall|j: int| 0 <= j < n - 1 implies (#[trigger] after[j]).digest
            != added.digest by {
            assert(after[j] == if j < i { grown[j] } else { grown[j + 1] });
        }
    } else {
        assert(is_entry_of(after, added.digest, n));
    }
}

/// What is cached under a digest was built for it, and so was whatever is handed out for it,
/// over any sequence of calls: if `made` holds of every client pair and digest that were
/// brought in, it holds of every entry at every time and of all that is handed out.
pub proof fn law_cached_clients_are_those_built<T>(
    history: Seq<Seq<EntryView<T>>>,
    ops: Seq<CacheOp<T>>,
    max_entries: usize,
    made: spec_fn(Arc<T>, Seq<u8>) -> bool,
    i: int,
)
    requires
        is_run(history, ops, max_entries),
        all_made(history[0], made),
        forall|k: int|
            0 <= k < ops.len() ==> ((#[trigger] ops[k]) matches CacheOp::Add { entry } ==> made(
                entry.bundle,
                entry.digest,
            )),
        0 <= i < history.len(),
    ensures
        all_made(history[i], made),
        i < ops.len() ==> (handed_out(history[i], ops[i]) matches Some(out) ==> made(
            out.1,
            out.0,
        )),
    decreases i,
{
    if i > 0 {
        law_cached_clients_are_those_built(history, ops, max_entries, made, i - 1);
        lemma_step_keeps_made(history[i - 1], ops[i - 1], max_entries, history[i], made);
    }
    if i < ops.len() {
        if let CacheOp::Use { digest, now } = ops[i] {
            let k = choose|k: int| is_entry_of(history[i], digest, k);
            assert(is_entry_of(history[i], digest, k));
        }
    }
}

/// One call brings in no other client pair than the one that was built.
proof fn lemma_step_keeps_made<T>(
    before: Seq<EntryView<T>>,
    op: CacheOp<T>,
    max_entries: usize,
    after: Seq<EntryView<T>>,
    made: spec_fn(Arc<T>, Seq<u8>) -> bool,
)
    requires
        cache_step(before, op, max_entries, after),
        all_made(before, made),
        op matches CacheOp::Add { entry } ==> made(entry.bundle, entry.digest),
    ensures
        all_made(after, made),
{
    match op {
        CacheOp::Add { entry } => {
            let grown = before.push(entry);
            if grown.len() > max_entries {
                let i = choose|i: int| is_oldest(grown, i) && after == #[trigger] grown.remove(i);
                assert forall|j: int| 0 <= j < after.len() implies made(
                    (#[trigger] after[j]).bundle,
                    after[j].digest,
                ) by {
                    assert(after[j] == if j < i { grown[j] } else { grown[j + 1] });
                }
            }
        },
        CacheOp::Drop { spared } => {
            assert forall|j: int| 0 <= j < after.len() implies made(
                (#[trigger] after[j]).bundle,
                after[j].digest,
            ) by {
                before.lemma_filter_contains_rev(spared, after[j]);
                let k = choose|k: int| 0 <= k < before.len() && before[k] == after[j];
                assert(made(before[k].bundle, before[k].digest));
            }
        },
        _ => {},
    }
}

/// One call keeps digests distinct.
proof fn lemma_step_keeps_distinct<T>(
    before: Seq<EntryView<T>>,
    op: CacheOp<T>,
    max_entries: usize,
    after: Seq<EntryView<T>>,
)
    requires
        cache_step(before, op, max_entries, after),
        digests_distinct(before),
    ensures
        digests_distinct(after),
{
    match op {
        CacheOp::Add { entry } => {
            let grown = before.push(entry);
            assert forall|k: int| 0 <= k < before.len() implies (#[trigger] before[k]).digest
                != entry.digest by {
                assert(!is_entry_of(before, entry.digest, k));
            }
            if grown.len() > max_entries {
                let i = choose|i: int| is_oldest(grown, i) && after == #[trigger] grown.remove(i);
                assert forall|a: int, b: int| 0 <= a < b < after.len() implies (
                #[trigger] after[a]).digest != (#[trigger] after[b]).digest by {
                    assert(after[a] == if a < i { grown[a] } else { grown[a + 1] });
                    assert(after[b] == if b < i { grown[b] } else { grown[b + 1] });
                }
            }
        },
        CacheOp::Drop { spared } => {
            lemma_filter_keeps_distinct(before, spared);
        },
        _ => {},
    }
}

/// The entry of a digest is the only one.
pub(crate) proof fn lemma_bundle_of<T>(entries: Seq<EntryView<T>>, digest: Seq<u8>, i: int)
    requires
        digests_distinct(entries),
        is_entry_of(entries, digest, i),
    ensures
        bundle_of(entries, digest) == entries[i].bundle,
{
    let k = choose|k: int| is_entry_of(entries, digest, k);
    assert(is_entry_of(entries, digest, k));
    assert(k == i);
}

/// What a call hands out is what is cached under its digest afterwards, if anything is.
proof fn lemma_handed_out_is_cached<T>(
    before: Seq<EntryView<T>>,
    op: CacheOp<T>,
    max_entries: usize,
    after: Seq<EntryView<T>>,
)
    requires
        cache_step(before, op, max_entries, after),
        digests_distinct(before),
    ensures
        handed_out(before, op) matches Some(out) ==> (holds_digest(after, out.0) ==> bundle_of(
            after,
            out.0,
        ) == out.1),
{
    lemma_step_keeps_distinct(before, op, max_entries, after);
    match op {
        CacheOp::Use { digest, now } => {
            law_use_keeps_bundles(before, digest, now, digest);
        },
        CacheOp::Add { entry } => {
            let grown = before.push(entry);
            if holds_digest(after, entry.digest) {
                let k = choose|k: int| is_entry_of(after, entry.digest, k);
                lemma_bundle_of(after, entry.digest, k);
                assert forall|j: int| 0 <= j < before.len() implies (#[trigger] before[j]).digest
                    != entry.digest by {
                    assert(!is_entry_of(before, entry.digest, j));
                }
                if grown.len() > max_entries {
                    let i = choose|i: int|
                        is_oldest(grown, i) && after == #[trigger] grown.remove(i);
                    assert(after[k] == if k < i { grown[k] } else { grown[k + 1] });
                }
            }
        },
        _ => {},
    }
}

/// A call that drops nothing leaves what is cached under a digest.
proof fn lemma_step_keeps_bundle<T>(
    before: Seq<EntryView<T>>,
    op: CacheOp<T>,
    max_entries: usize,
    after: Seq<EntryView<T>>,
    digest: Seq<u8>,
)
    requires
        cache_step(before, op, max_entries, after),
        digests_distinct(before),
        drops_nothing(before, op, after),
        holds_digest(before, digest),
    ensures
        holds_digest(after, digest),
        bundle_of(after, digest) == bundle_of(before, digest),
{
    match op {
        CacheOp::Use { digest: used, now } => {
            law_use_keeps_bundles(before, used, now, digest);
        },
        CacheOp::Add { entry } => {
            lemma_step_keeps_distinct(before, op, max_entries, after);
            let grown = before.push(entry);
            let k = choose|k: int| is_entry_of(before, digest, k);
            assert(after == grown) by {
                if grown.len() > max_entries {
                    let i = choose|i: int|
                        is_oldest(grown, i) && after == #[trigger] grown.remove(i);
                    assert(grown.remove(i).len() == before.len());
                }
            }
            assert(is_entry_of(after, digest, k));
            lemma_bundle_of(before, digest, k);
            lemma_bundle_of(after, digest, k);
        },
        _ => {},
    }
}

/// Calls for the same digest get the same client pair: once one has been handed out for a
/// digest and is cached, and as long as nothing is dropped, the next call for the digest
/// finds it and builds none.
pub proof fn law_same_digest_same_client<T>(
    history: Seq<Seq<EntryView<T>>>,
    ops: Seq<CacheOp<T>>,
    max_entries: usize,
    digest: Seq<u8>,
    bundle: Arc<T>,
    i: int,
    j: int,
    request: BundleRequest<T>,
    now: u64,
)
    requires
        is_run(history, ops, max_entries),
        digests_distinct(history[0]),
        0 <= i < j < history.len(),
        handed_out(history[i], ops[i]) == Some((digest, bundle)),
        holds_digest(history[i + 1], digest),
        forall|k: int|
            i < k < j ==> drops_nothing(history[k], #[trigger] ops[k], history[k + 1]),
    ensures
        request_op(history[j], digest, request, now) == (CacheOp::<T>::Use { digest, now }),
        handed_out(history[j], request_op(history[j], digest, request, now)) == Some(
            (digest, bundle),
        ),
{
    lemma_run_keeps_distinct(history, ops, max_entries, i);
    assert(cache_step(history[i], ops[i], max_entries, history[i + 1]));
    lemma_handed_out_is_cached(history[i], ops[i], max_entries, history[i + 1]);
    lemma_run_keeps_bundle(history, ops, max_entries, digest, i + 1, j);
}

/// Digests stay distinct over any sequence of calls.
proof fn lemma_run_keeps_distinct<T>(
    history: Seq<Seq<EntryView<T>>>,
    ops: Seq<CacheOp<T>>,
    max_entries: usize,
    i: int,
)
    requires
        is_run(history, ops, max_entries),
        digests_distinct(history[0]),
        0 <= i < history.len(),
    ensures
        digests_distinct(history[i]),
    decreases i,
{
    if i > 0 {
        lemma_run_keeps_distinct(history, ops, max_entries, i - 1);
        assert(cache_step(history[i - 1], ops[i - 1], max_entries, history[i]));
        lemma_step_keeps_distinct(history[i - 1], ops[i - 1], max_entries, history[i]);
    }
}

/// Calls that drop nothing leave what is cached under a digest.
proof fn lemma_run_keeps_bundle<T>(
    history: Seq<Seq<EntryView<T>>>,
    ops: Seq<CacheOp<T>>,
    max_entries: usize,
    digest: Seq<u8>,
    from: int,
    to: int,
)
    requires
        is_run(history, ops, max_entries),
        digests_distinct(history[0]),
        0 <= from <= to < history.len(),
        holds_digest(history[from], digest),
        forall|k: int|
            from <= k < to ==> drops_nothing(history[k], #[trigger] ops[k], history[k + 1]),
    ensures
        holds_digest(history[to], digest),
        bundle_of(history[to], digest) == bundle_of(history[from], digest),
    decreases to - from,
{
    if from < to {
        lemma_run_keeps_bundle(history, ops, max_entries, digest, from, to - 1);
        lemma_run_keeps_distinct(history, ops, max_entries, to - 1);
        assert(cache_step(history[to - 1], ops[to - 1], max_entries, history[to]));
        assert(drops_nothing(history[to - 1], ops[to - 1], history[to]));
        lemma_step_keeps_bundle(
            history[to - 1],
            ops[to - 1],
            max_entries,
            history[to],
            digest,
        );
    }
}

/// A cache holds no digest twice and no more entries than its bound.
pub(crate) proof fn lemma_valid_registry<T>(registry: ClientRegistry<T>)
    requires
        registry.valid(),
    ensures
        digests_distinct(registry@),
        registry@.len() <= registry.limits().max_entries,
{
}

/// A use changes nothing of an entry but the time of its last use, and so
/// neither which digests are cached nor the pairs cached for them.
pub proof fn law_use_keeps_bundles<T>(
    entries: Seq<EntryView<T>>,
    used: Seq<u8>,
    now: u64,
    digest: Seq<u8>,
)
    requires
        digests_distinct(entries),
    ensures
        touched(entries, used, now).len() == entries.len(),
        holds_digest(touched(entries, used, now), digest) == holds_digest(entries, digest),
        holds_digest(entries, digest) ==> bundle_of(touched(entries, used, now), digest)
            == bundle_of(entries, digest),
{
    let after = touched(entries, used, now);
    assert forall|i: int| is_entry_of(after, digest, i) == is_entry_of(entries, digest, i) by {}
    if holds_digest(entries, digest) {
        let i = choose|i: int| is_entry_of(entries, digest, i);
        assert(is_entry_of(after, digest, i));
    }
}

/// After a revocation no entry with the revoked key is left, every other entry
/// is, and revoking the same key again drops nothing.
pub proof fn law_revocation_is_complete<T>(
    entries: Seq<EntryView<T>>,
    plugin_id: Seq<char>,
    target: Seq<char>,
)
    ensures
        ({
            let after = entries.filter(spared_by(plugin_id, target));
            &&& forall|i: int|
                0 <= i < after.len() ==> !(#[trigger] after[i]).cred_keys.contains(
                    (plugin_id, target),
                )
            &&& forall|i: int|
                0 <= i < entries.len() && !(#[trigger] entries[i]).cred_keys.contains(
                    (plugin_id, target),
                ) ==> after.contains(entries[i])
            &&& after.filter(spared_by(plugin_id, target)) == after
        }),
{
    lemma_filter_is_exact(entries, spared_by(plugin_id, target));
}

/// After a sweep no entry is left that was idle for too long, every other entry
/// is, and sweeping again at the same time drops nothing.
pub proof fn law_sweep_is_complete<T>(entries: Seq<EntryView<T>>, now: u64, limit: u128)
    ensures
        ({
            let after = entries.filter(fresh_at(now, limit));
            &&& forall|i: int|
                0 <= i < after.len() ==> now - (#[trigger] after[i]).last_used <= limit
            &&& forall|i: int|
                0 <= i < entries.len() && now - (#[trigger] entries[i]).last_used <= limit
                    ==> after.contains(entries[i])
            &&& after.filter(fresh_at(now, limit)) == after
        }),
{
    lemma_filter_is_exact(entries, fresh_at(now, limit));
}

/// The sweeper sweeps on every tick but the first, as long as it is not cancelled: the first
/// comes at once, so no sweep is made before one full interval has passed. Once it is
/// cancelled, also on a wake that brings a tick, it is stopped and sweeps no more, and
/// nothing else stops it.
pub proof fn law_sweeper_keeps_its_schedule(wakes: Seq<SweepWake>, i: int)
    requires
        0 <= i < wakes.len(),
    ensures
        sweeps_on(sweeper_state(wakes.take(i)), wakes[i]) <==> {
            &&& wakes[i].ticked
            &&& exists|j: int| 0 <= j < i && (#[trigger] wakes[j]).ticked
            &&& forall|j: int| 0 <= j <= i ==> !(#[trigger] wakes[j]).cancelled
        },
        sweeper_state(wakes.take(i + 1)) is Stopped <==> exists|j: int|
            0 <= j <= i && (#[trigger] wakes[j]).cancelled,
{
    lemma_sweeper_state(wakes.take(i));
    lemma_sweeper_state(wakes.take(i + 1));
    let before = wakes.take(i);
    let upto = wakes.take(i + 1);
    assert(forall|j: int| 0 <= j < i ==> #[trigger] before[j] == wakes[j]);
    assert(forall|j: int| 0 <= j <= i ==> #[trigger] upto[j] == wakes[j]);
    if exists|j: int| 0 <= j < i && (#[trigger] wakes[j]).ticked {
        let j = choose|j: int| 0 <= j < i && (#[trigger] wakes[j]).ticked;
        assert(before[j].ticked);
    }
    if exists|j: int| 0 <= j < i && (#[trigger] wakes[j]).cancelled {
        let j = choose|j: int| 0 <= j < i && (#[trigger] wakes[j]).cancelled;
        assert(before[j].cancelled);
    }
    if exists|j: int| 0 <= j <= i && (#[trigger] wakes[j]).cancelled {
        let j = choose|j: int| 0 <= j <= i && (#[trigger] wakes[j]).cancelled;
        assert(upto[j].cancelled);
    }
}

/// What the wakes so far say of where the sweeper stands.
proof fn lemma_sweeper_state(wakes: Seq<SweepWake>)
    ensures
        sweeper_state(wakes) is Stopped <==> exists|j: int|
            0 <= j < wakes.len() && (#[trigger] wakes[j]).cancelled,
        sweeper_state(wakes) is Starting ==> forall|j: int|
            0 <= j < wakes.len() ==> !(#[trigger] wakes[j]).ticked,
        sweeper_state(wakes) is Running ==> exists|j: int|
            0 <= j < wakes.len() && (#[trigger] wakes[j]).ticked,
    decreases wakes.len(),
{
    if wakes.len() > 0 {
        let rest = wakes.drop_last();
        let n = rest.len() as int;
        lemma_sweeper_state(rest);
        assert(forall|j: int| 0 <= j < n ==> #[trigger] rest[j] == wakes[j]);
        assert(wakes[n] == wakes.last());
        if sweeper_state(rest) is Stopped {
            let j = choose|j: int| 0 <= j < n && (#[trigger] rest[j]).cancelled;
            assert(wakes[j].cancelled);
        }
        if sweeper_state(rest) is Running {
            let j = choose|j: int| 0 <= j < n && (#[trigger] rest[j]).ticked;
            assert(wakes[j].ticked);
        }
        if sweeper_state(wakes) is Starting {
            assert forall|j: int| 0 <= j < wakes.len() implies !(#[trigger] wakes[j]).ticked by {
                assert(j < n ==> !rest[j].ticked);
            }
        }
        if exists|j: int| 0 <= j < wakes.len() && (#[trigger] wakes[j]).cancelled {
            let j = choose|j: int| 0 <= j < wakes.len() && (#[trigger] wakes[j]).cancelled;
            assert(j < n ==> rest[j].cancelled);
        }
    }
}

/// A filter keeps exactly what satisfies it.
proof fn lemma_filter_is_exact<T>(
    entries: Seq<EntryView<T>>,
    pred: spec_fn(EntryView<T>) -> bool,
)
    ensures
        ({
            let after = entries.filter(pred);
            &&& forall|i: int| 0 <= i < after.len() ==> pred(#[trigger] after[i])
            &&& forall|i: int|
                0 <= i < entries.len() && pred(#[trigger] entries[i]) ==> after.contains(
                    entries[i],
                )
            &&& after.filter(pred) == after
        }),
    decreases entries.len(),
{
    broadcast use vstd::seq_lib::group_filter_ensures;

    let after = entries.filter(pred);
    lemma_filter_of_all(after, pred);
}

/// A filter that everything satisfies changes nothing.
proof fn lemma_filter_of_all<T>(entries: Seq<EntryView<T>>, pred: spec_fn(EntryView<T>) -> bool)
    requires
        forall|i: int| 0 <= i < entries.len() ==> pred(#[trigger] entries[i]),
    ensures
        entries.filter(pred) == entries,
    decreases entries.len(),
{
    reveal(Seq::filter);
    if entries.len() > 0 {
        lemma_filter_of_all(entries.drop_last(), pred);
        assert(entries =~= entries.drop_last().push(entries.last()));
    }
}


/// What a use leaves of a cache: every entry in its place with its digest, its client pair and
/// its keys, entry `i` last used at `now` and every other one when it was.
pub open spec fn only_used<T>(
    before: Seq<EntryView<T>>,
    i: int,
    now: u64,
    after: Seq<EntryView<T>>,
) -> bool {
    &&& after.len() == before.len()
    &&& forall|j: int|
        0 <= j < before.len() ==> {
            &&& (#[trigger] after[j]).digest == before[j].digest
            &&& after[j].bundle == before[j].bundle
            &&& after[j].cred_keys == before[j].cred_keys
            &&& after[j].last_used == if j == i {
                now
            } else {
                before[j].last_used
            }
        }
}

/// What adding an entry leaves of a cache of at most `max_entries`: all entries and the new one
/// behind them while there is room, and otherwise all but one that was used no later than any
/// other.
pub open spec fn only_added<T>(
    before: Seq<EntryView<T>>,
    added: EntryView<T>,
    max_entries: usize,
    after: Seq<EntryView<T>>,
) -> bool {
    let grown = before.push(added);
    &&& before.len() < max_entries ==> after == grown
    &&& before.len() >= max_entries ==> exists|i: int|
        0 <= i < grown.len() && after == #[trigger] grown.remove(i) && forall|j: int|
            0 <= j < grown.len() ==> grown[i].last_used <= (#[trigger] grown[j]).last_used
}

/// A cached client pair is handed out for its digest, whatever the caller brings, and nothing
/// changes but the time of its last use.
pub proof fn law_cached_client_is_handed_out<T>(
    registry: &mut ClientRegistry<T>,
    digest: CredDigest,
    request: BundleRequest<T>,
    now: u64,
    answer: BundleAnswer<T>,
    i: int,
)
    requires
        call_ensures(
            ClientRegistry::<T>::get_or_build,
            (registry, &digest, request, now),
            answer,
        ),
        digests_distinct(old(registry)@),
        0 <= i < old(registry)@.len(),
        old(registry)@[i].digest == digest@,
    ensures
        answer matches BundleAnswer::Ready { bundle, evicted } && {
            &&& bundle == old(registry)@[i].bundle
            &&& evicted == 0
        },
        only_used(old(registry)@, i, now, final(registry)@),
{
    assert(is_entry_of(registry@, digest@, i));
    lemma_bundle_of(registry@, digest@, i);
}

/// For a digest that is not cached the caller is asked to build a client pair, and nothing
/// changes. The pair it then brings is handed out and cached under the digest and its keys,
/// last used now; if there is no room for it, one entry goes that was used no later than any
/// other.
pub proof fn law_missing_client_is_built_and_cached<T>(
    registry: &mut ClientRegistry<T>,
    digest: CredDigest,
    request: BundleRequest<T>,
    now: u64,
    answer: BundleAnswer<T>,
)
    requires
        call_ensures(
            ClientRegistry::<T>::get_or_build,
            (registry, &digest, request, now),
            answer,
        ),
        old(registry)@.len() <= old(registry).limits().max_entries,
        forall|i: int|
            0 <= i < old(registry)@.len() ==> (#[trigger] old(registry)@[i]).digest != digest@,
    ensures
        request is Lookup ==> answer is Build && final(registry)@ == old(registry)@,
        request matches BundleRequest::Built { bundle, cred_keys } ==> {
            let added = EntryView {
                digest: digest@,
                bundle,
                cred_keys: pair_views(cred_keys@),
                last_used: now,
            };
            &&& answer matches BundleAnswer::Ready { bundle: handed_out, evicted } && {
                &&& handed_out == bundle
                &&& evicted == if old(registry)@.len() < old(registry).limits().max_entries {
                    0int
                } else {
                    1int
                }
            }
            &&& only_added(
                old(registry)@,
                added,
                old(registry).limits().max_entries,
                final(registry)@,
            )
        },
        final(registry).limits() == old(registry).limits(),
{
    let before = registry@;
    assert(!holds_digest(before, digest@)) by {
        if holds_digest(before, digest@) {
            let i = choose|i: int| is_entry_of(before, digest@, i);
            assert(before[i].digest != digest@);
        }
    }
    if let BundleRequest::Built { bundle, cred_keys } = request {
        let grown = before.push(
            EntryView {
                digest: digest@,
                bundle,
                cred_keys: pair_views(cred_keys@),
                last_used: now,
            },
        );
        if before.len() >= registry.limits().max_entries {
            let after = final(registry)@;
            let i = choose|i: int| is_oldest(grown, i) && after == #[trigger] grown.remove(i);
            assert(after == grown.remove(i));
            assert(after.len() == before.len());
        }
    }
}

/// A revocation drops the entries that list the revoked key and no others, keeps the rest in
/// order and as they are, and says how many went.
pub proof fn law_revocation_drops_what_depends_on_the_key<T>(
    registry: &mut ClientRegistry<T>,
    plugin_id: &str,
    target: &str,
    evicted: usize,
)
    requires
        call_ensures(ClientRegistry::<T>::evict_for, (registry, plugin_id, target), evicted),
    ensures
        final(registry)@ == old(registry)@.filter(
            |e: EntryView<T>| !e.cred_keys.contains((plugin_id@, target@)),
        ),
        evicted + final(registry)@.len() == old(registry)@.len(),
        final(registry).limits() == old(registry).limits(),
{
    assert(spared_by::<T>(plugin_id@, target@) =~= (|e: EntryView<T>|
        !e.cred_keys.contains((plugin_id@, target@))));
}

/// A sweep drops the entries that have been idle for longer than the limit and no others, keeps
/// the rest in order and as they are, and says how many went. The rotation of a secret drops
/// them all.
pub proof fn law_sweep_drops_what_is_idle<T>(
    registry: &mut ClientRegistry<T>,
    now: u64,
    evicted: usize,
    other: &mut ClientRegistry<T>,
    secret_ref: &str,
    rotated: usize,
)
    requires
        call_ensures(ClientRegistry::<T>::sweep_idle, (registry, now), evicted),
        call_ensures(ClientRegistry::<T>::evict_for_secret, (other, secret_ref), rotated),
    ensures
        final(registry)@ == old(registry)@.filter(
            |e: EntryView<T>|
                now - e.last_used <= whole_millis(old(registry).limits().idle_eviction),
        ),
        evicted + final(registry)@.len() == old(registry)@.len(),
        final(registry).limits() == old(registry).limits(),
        final(other)@.len() == 0,
        rotated == old(other)@.len(),
        final(other).limits() == old(other).limits(),
{
    let limit = whole_millis(registry.limits().idle_eviction);
    assert(fresh_at::<T>(now, limit) =~= (|e: EntryView<T>| now - e.last_used <= limit));
}

/// The sweeper sweeps when it wakes to a tick after its first one, and reports what went, if
/// anything did. A cancellation stops it for good, before any tick; the first tick only starts
/// it; nothing else touches the cache.
pub proof fn law_sweeper_acts_on_its_wakes<T>(
    registry: &mut ClientRegistry<T>,
    sweeper: &mut SweeperState,
    wake: SweepWake,
    now: u64,
    action: IdleSweepAction,
)
    requires
        call_ensures(
            ClientRegistry::<T>::idle_sweep_step,
            (registry, sweeper, wake, now),
            action,
        ),
    ensures
        wake.cancelled || *old(sweeper) is Stopped ==> {
            &&& *final(sweeper) is Stopped
            &&& action is Stop
            &&& final(registry)@ == old(registry)@
        },
        !wake.cancelled && *old(sweeper) is Starting ==> {
            &&& *final(sweeper) is Running <==> wake.ticked
            &&& *final(sweeper) is Starting <==> !wake.ticked
            &&& action is Wait
            &&& final(registry)@ == old(registry)@
        },
        !wake.cancelled && *old(sweeper) is Running ==> *final(sweeper) is Running,
        !wake.cancelled && *old(sweeper) is Running && !wake.ticked ==> {
            &&& action is Wait
            &&& final(registry)@ == old(registry)@
        },
        !wake.cancelled && *old(sweeper) is Running && wake.ticked ==> {
            let went = old(registry)@.len() - final(registry)@.len();
            &&& final(registry)@ == old(registry)@.filter(
                |e: EntryView<T>|
                    now - e.last_used <= whole_millis(old(registry).limits().idle_eviction),
            )
            &&& went == 0 ==> action is Wait
            &&& went > 0 ==> action == (IdleSweepAction::Report { evicted: went as usize })
        },
        final(registry).limits() == old(registry).limits(),
{
    let limit = whole_millis(registry.limits().idle_eviction);
    assert(fresh_at::<T>(now, limit) =~= (|e: EntryView<T>| now - e.last_used <= limit));
    if !wake.cancelled && *sweeper is Running && wake.ticked {
        let fresh = fresh_at::<T>(now, limit);
        lemma_filter_is_exact(registry@, fresh);
        registry@.lemma_filter_len(fresh);
    }
}

/// A cache is empty when it is made, keeps the bounds it is made with, and counts its entries.
/// By default it keeps 256 client pairs for 15 idle minutes.
pub proof fn law_cache_begins_empty<T>(
    config: ClientRegistryConfig,
    registry: ClientRegistry<T>,
    counted: ClientRegistry<T>,
    n: usize,
    empty: bool,
    defaults: ClientRegistryConfig,
)
    requires
        call_ensures(ClientRegistry::<T>::new, (config,), registry),
        call_ensures(ClientRegistry::<T>::len, (&counted,), n),
        call_ensures(ClientRegistry::<T>::is_empty, (&counted,), empty),
        call_ensures(ClientRegistryConfig::default, (), defaults),
    ensures
        registry@.len() == 0,
        registry.limits() == config,
        n == counted@.len(),
        n <= counted.limits().max_entries,
        empty <==> n == 0,
        defaults.max_entries == 256,
        whole_millis(defaults.idle_eviction) == 900_000,
{
}

} // verus!
