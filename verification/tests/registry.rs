use mcpg_plugin_backend_kafka::client_registry::{
    digest_credential_bundle, static_digest, BundleAnswer, BundleRequest, ClientRegistry,
    ClientRegistryConfig, IdleSweepAction, SweepWake, SweeperState,
};
use std::sync::Arc;
use std::time::Duration;

fn pair(a: &str, b: &str) -> (String, String) {
    (a.to_owned(), b.to_owned())
}

#[test]
fn digest_is_order_independent() {
    let a = digest_credential_bundle(&[
        pair("bootstrap_servers", "broker:9092"),
        pair("sasl_username", "alice"),
    ]);
    let b = digest_credential_bundle(&[
        pair("sasl_username", "alice"),
        pair("bootstrap_servers", "broker:9092"),
    ]);
    assert_eq!(a, b);
}

#[test]
fn digest_distinguishes_inputs() {
    let a = digest_credential_bundle(&[pair("sasl_password", "alpha")]);
    let b = digest_credential_bundle(&[pair("sasl_password", "beta")]);
    assert_ne!(a, b);
}

#[test]
fn static_digest_stable() {
    assert_eq!(static_digest(), static_digest());
}

#[test]
fn static_digest_is_that_of_the_word() {
    assert_eq!(&static_digest(), blake3::hash(b"static").as_bytes());
}

#[test]
fn empty_bundle_has_the_digest_of_no_bytes() {
    let hex: String = digest_credential_bundle(&[])
        .iter()
        .map(|b| format!("{b:02x}"))
        .collect();
    assert_eq!(
        hex,
        "af1349b9f5f9a1a6a0404dea36dcc9499bcb25c9adc112b7cc9a93cae41f3262"
    );
}

#[test]
fn bundle_is_hashed_line_by_line_in_key_order() {
    let digest = digest_credential_bundle(&[
        pair("sasl_username", "alice"),
        pair("sasl_password", "päss=1"),
        pair("bootstrap_servers", "broker:9092"),
    ]);
    let lines = "bootstrap_servers=broker:9092\nsasl_password=päss=1\nsasl_username=alice\n";
    assert_eq!(&digest, blake3::hash(lines.as_bytes()).as_bytes());
}

#[test]
fn pairs_of_one_key_keep_their_order() {
    let digest = digest_credential_bundle(&[pair("k", "2"), pair("a", "x"), pair("k", "1")]);
    assert_eq!(&digest, blake3::hash(b"a=x\nk=2\nk=1\n").as_bytes());
}

#[test]
fn keys_are_ordered_by_code_point() {
    let digest = digest_credential_bundle(&[pair("é", "1"), pair("z", "2"), pair("zz", "3")]);
    assert_eq!(&digest, blake3::hash("z=2\nzz=3\né=1\n".as_bytes()).as_bytes());
}

#[test]
fn default_bounds() {
    let config = ClientRegistryConfig::default();
    assert_eq!(config.max_entries, 256);
    assert_eq!(config.idle_eviction, Duration::from_secs(15 * 60));
}

fn small(max_entries: usize) -> ClientRegistry<u32> {
    ClientRegistry::new(ClientRegistryConfig {
        max_entries,
        idle_eviction: Duration::from_micros(100_999),
    })
}

fn add(registry: &mut ClientRegistry<u32>, id: u8, bundle: u32, keys: Vec<(String, String)>, now: u64) -> (u32, usize) {
    let request = BundleRequest::Built {
        bundle: Arc::new(bundle),
        cred_keys: keys,
    };
    match registry.get_or_build(&[id; 32], request, now) {
        BundleAnswer::Ready { bundle, evicted } => (*bundle, evicted),
        BundleAnswer::Build => panic!("a built bundle was refused"),
    }
}

fn lookup(registry: &mut ClientRegistry<u32>, id: u8, now: u64) -> Option<u32> {
    match registry.get_or_build(&[id; 32], BundleRequest::Lookup, now) {
        BundleAnswer::Ready { bundle, evicted } => {
            assert_eq!(evicted, 0);
            Some(*bundle)
        }
        BundleAnswer::Build => None,
    }
}

#[test]
fn miss_asks_for_a_build_and_a_built_bundle_is_found() {
    let mut registry = small(4);
    assert!(registry.is_empty());
    assert_eq!(lookup(&mut registry, 1, 0), None);
    assert!(registry.is_empty());
    assert_eq!(add(&mut registry, 1, 10, vec![], 5), (10, 0));
    assert_eq!(lookup(&mut registry, 1, 6), Some(10));
    assert_eq!(lookup(&mut registry, 2, 6), None);
    assert_eq!(registry.len(), 1);
}

#[test]
fn bundle_cached_in_the_meantime_wins() {
    let mut registry = small(4);
    assert_eq!(add(&mut registry, 1, 10, vec![], 5), (10, 0));
    assert_eq!(add(&mut registry, 1, 11, vec![], 6), (10, 0));
    assert_eq!(registry.len(), 1);
}

#[test]
fn cache_over_its_bound_drops_the_longest_unused() {
    let mut registry = small(2);
    add(&mut registry, 1, 10, vec![], 1);
    add(&mut registry, 2, 20, vec![], 2);
    assert_eq!(lookup(&mut registry, 1, 3), Some(10));
    assert_eq!(add(&mut registry, 3, 30, vec![], 4), (30, 1));
    assert_eq!(registry.len(), 2);
    assert_eq!(lookup(&mut registry, 2, 5), None);
    assert_eq!(lookup(&mut registry, 1, 5), Some(10));
    assert_eq!(lookup(&mut registry, 3, 5), Some(30));
}

#[test]
fn cache_that_may_hold_nothing_still_hands_the_bundle_out() {
    let mut registry = small(0);
    assert_eq!(add(&mut registry, 1, 10, vec![], 1), (10, 1));
    assert!(registry.is_empty());
}

#[test]
fn use_moves_only_the_time_of_the_used_entry() {
    let mut registry = small(4);
    add(&mut registry, 1, 10, vec![], 0);
    add(&mut registry, 2, 20, vec![], 0);
    assert_eq!(lookup(&mut registry, 1, 90), Some(10));
    assert_eq!(registry.sweep_idle(150), 1);
    assert_eq!(lookup(&mut registry, 1, 150), Some(10));
    assert_eq!(lookup(&mut registry, 2, 150), None);
}

#[test]
fn revocation_drops_exactly_the_entries_with_the_key() {
    let mut registry = small(4);
    add(&mut registry, 1, 10, vec![pair("vault", "a"), pair("vault", "b")], 0);
    add(&mut registry, 2, 20, vec![pair("vault", "b")], 0);
    add(&mut registry, 3, 30, vec![pair("other", "a")], 0);
    assert_eq!(registry.evict_for("vault", "a"), 1);
    assert_eq!(registry.evict_for("vault", "a"), 0);
    assert_eq!(lookup(&mut registry, 1, 1), None);
    assert_eq!(lookup(&mut registry, 2, 1), Some(20));
    assert_eq!(lookup(&mut registry, 3, 1), Some(30));
}

#[test]
fn rotation_drops_everything() {
    let mut registry = small(4);
    add(&mut registry, 1, 10, vec![], 0);
    add(&mut registry, 2, 20, vec![], 0);
    assert_eq!(registry.evict_for_secret("vault://kv/x"), 2);
    assert_eq!(registry.evict_for_secret("vault://kv/x"), 0);
    assert!(registry.is_empty());
}

#[test]
fn sweep_spares_what_is_idle_no_longer_than_the_limit() {
    let mut registry = small(4);
    add(&mut registry, 1, 10, vec![], 0);
    add(&mut registry, 2, 20, vec![], 1);
    assert_eq!(registry.sweep_idle(101), 1);
    assert_eq!(registry.sweep_idle(101), 0);
    assert_eq!(lookup(&mut registry, 2, 0), Some(20));
    assert_eq!(registry.sweep_idle(0), 0);
}

fn wake(cancelled: bool, ticked: bool) -> SweepWake {
    SweepWake { cancelled, ticked }
}

#[test]
fn sweeper_sweeps_on_ticks_and_stops_when_cancelled() {
    let mut registry = small(4);
    let mut sweeper = SweeperState::Starting;
    add(&mut registry, 1, 10, vec![], 0);
    // The tick that comes at once, and a wake without one.
    for ticked in [true, false] {
        assert!(matches!(
            registry.idle_sweep_step(&mut sweeper, wake(false, ticked), 500),
            IdleSweepAction::Wait
        ));
        assert!(matches!(sweeper, SweeperState::Running));
        assert_eq!(registry.len(), 1);
    }
    assert!(matches!(
        registry.idle_sweep_step(&mut sweeper, wake(false, true), 100),
        IdleSweepAction::Wait
    ));
    assert!(matches!(
        registry.idle_sweep_step(&mut sweeper, wake(false, true), 101),
        IdleSweepAction::Report { evicted: 1 }
    ));
    assert!(registry.is_empty());
    add(&mut registry, 1, 10, vec![], 0);
    // A cancellation comes before a tick, and is final.
    for cancelled in [true, false] {
        assert!(matches!(
            registry.idle_sweep_step(&mut sweeper, wake(cancelled, true), 500),
            IdleSweepAction::Stop
        ));
        assert!(matches!(sweeper, SweeperState::Stopped));
        assert_eq!(registry.len(), 1);
    }
}

#[test]
fn idle_limit_beyond_the_clock_drops_nothing() {
    // More milliseconds than a u64 holds.
    let mut registry: ClientRegistry<u32> = ClientRegistry::new(ClientRegistryConfig {
        max_entries: 4,
        idle_eviction: Duration::from_secs(18_446_744_073_709_552),
    });
    add(&mut registry, 1, 10, vec![], 0);
    assert_eq!(registry.sweep_idle(1000), 0);
    assert_eq!(registry.sweep_idle(u64::MAX), 0);
    assert_eq!(registry.len(), 1);
}

#[test]
fn clients_cached_and_handed_out_are_those_built_for_their_digest() {
    let mut registry = small(2);
    // The client of digest `d` is `10 * d`, whoever builds it.
    for (now, d) in [1u8, 2, 1, 3, 2, 1, 3, 3].into_iter().enumerate() {
        let now = now as u64;
        let got = match lookup(&mut registry, d, now) {
            Some(bundle) => bundle,
            None => add(&mut registry, d, 10 * u32::from(d), vec![], now).0,
        };
        assert_eq!(got, 10 * u32::from(d));
        assert_eq!(lookup(&mut registry, d, now), Some(got));
        registry.sweep_idle(now);
        registry.evict_for("no", "one");
    }
}
