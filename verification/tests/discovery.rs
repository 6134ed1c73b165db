use swarm_cli::discovery::{
    add_friend, admit_freshness_vote, local_state_matches_challenge, load_friend_store, order_search_results, remove_friend, search_state,
    search_state_label, SearchState, WorldDiscoveryCardV1, resolve_state, resolve_state_label, ResolveState,
    answered_presence_state, find_friend, presence_state_label, unanswered_presence_state, PresenceCheck,
    PresenceState, is_active_member, world_publication, Publication, FriendContactV1, FriendError, FRIENDS_FILE_VERSION,
    MAX_FRIEND_LABEL_BYTES, announcement_matches, checked_discovery_expiry, clean_optional, default_search_limit, membership_labels,
    next_discovery_sequence, search_filter, visibility_label, AnnouncementFacts, DiscoveryError,
    DiscoverySearchInputV1, MembershipPolicy, WorldVisibility, FRIEND_PRESENCE_TTL_MS, WORLD_ANNOUNCEMENT_TTL_MS,
};

fn sample_announcement() -> AnnouncementFacts {
    AnnouncementFacts {
        name: "Example".into(),
        description: "survival".into(),
        tags: vec!["survival".into()],
        approximate_region: Some("me".into()),
        minecraft_version: "1.21.8".into(),
        loader_id: "fabric".into(),
        loader_version: "0.17.2".into(),
    }
}

fn filter(input: DiscoverySearchInputV1) -> swarm_cli::discovery::DiscoveryFilter {
    search_filter(input, 64)
}

#[test]
fn discovery_counter_exhaustion_fails_closed() {
    assert!(next_discovery_sequence(u64::MAX, u64::MAX).is_err());
    assert!(checked_discovery_expiry(u64::MAX, 1, "test").is_err());
}

#[test]
fn private_and_unlisted_worlds_never_match_public_browse() {
    let public = sample_announcement();
    let browse = filter(DiscoverySearchInputV1 { limit: 10, ..Default::default() });
    assert!(announcement_matches(&public, &browse));
    assert_eq!(visibility_label(WorldVisibility::Public), "public");
    assert_ne!(visibility_label(WorldVisibility::Unlisted), "public");
    assert_ne!(visibility_label(WorldVisibility::Private), "public");
}

#[test]
fn sequences_grow_and_expiry_adds_the_lifetime() {
    assert_eq!(next_discovery_sequence(5, 9).unwrap(), 9);
    assert_eq!(next_discovery_sequence(9, 9).unwrap(), 10);
    assert_eq!(next_discovery_sequence(12, 9).unwrap(), 13);
    assert_eq!(checked_discovery_expiry(1_000, WORLD_ANNOUNCEMENT_TTL_MS, "world").unwrap(), 301_000);
    assert_eq!(checked_discovery_expiry(1_000, FRIEND_PRESENCE_TTL_MS, "presence").unwrap(), 31_000);
    match checked_discovery_expiry(u64::MAX, 1, "presence") {
        Err(e @ DiscoveryError::ExpiryOverflow { .. }) => assert_eq!(e.message(), "presence expiry overflow"),
        _ => panic!("overflow must fail"),
    }
    match next_discovery_sequence(u64::MAX, 0) {
        Err(e) => assert_eq!(e.message(), "discovery announcement sequence exhausted"),
        Ok(_) => panic!("exhausted counter must fail"),
    }
}

#[test]
fn search_input_is_cleaned_and_clamped() {
    assert_eq!(default_search_limit(), 32);
    let defaults = DiscoverySearchInputV1::default();
    assert_eq!(defaults.loader_id.as_deref(), Some("fabric"));
    assert_eq!(defaults.limit, 32);
    assert_eq!(clean_optional(Some("  hi ".into())).as_deref(), Some("hi"));
    assert_eq!(clean_optional(Some("   ".into())), None);
    assert_eq!(clean_optional(None), None);
    let input = DiscoverySearchInputV1 {
        query: Some("  castle ".into()),
        minecraft_version: Some(" ".into()),
        loader_id: None,
        loader_version: None,
        tags: vec![" pvp ".into(), "".into(), "  ".into(), "build".into()],
        approximate_region: Some("eu".into()),
        limit: 0,
    };
    let cleaned = search_filter(input, 50);
    assert_eq!(cleaned.query.as_deref(), Some("castle"));
    assert_eq!(cleaned.minecraft_version, None);
    assert_eq!(cleaned.tags, vec!["pvp".to_string(), "build".to_string()]);
    assert_eq!(cleaned.limit, 1);
    let many = DiscoverySearchInputV1 { limit: 500, ..Default::default() };
    assert_eq!(search_filter(many, 50).limit, 50);
}

#[test]
fn announcements_match_filters_case_insensitively() {
    let world = sample_announcement();
    let by_version = filter(DiscoverySearchInputV1 { minecraft_version: Some("1.21.8".into()), ..Default::default() });
    assert!(announcement_matches(&world, &by_version));
    let wrong_version =
        filter(DiscoverySearchInputV1 { minecraft_version: Some("1.20.1".into()), ..Default::default() });
    assert!(!announcement_matches(&world, &wrong_version));
    let loader = filter(DiscoverySearchInputV1 { loader_id: Some("FABRIC".into()), ..Default::default() });
    assert!(announcement_matches(&world, &loader));
    let region = filter(DiscoverySearchInputV1 { approximate_region: Some("ME".into()), ..Default::default() });
    assert!(announcement_matches(&world, &region));
    let other_region = filter(DiscoverySearchInputV1 { approximate_region: Some("us".into()), ..Default::default() });
    assert!(!announcement_matches(&world, &other_region));
    let tag = filter(DiscoverySearchInputV1 { tags: vec!["SURVIVAL".into()], ..Default::default() });
    assert!(announcement_matches(&world, &tag));
    let missing_tag = filter(DiscoverySearchInputV1 { tags: vec!["creative".into()], ..Default::default() });
    assert!(!announcement_matches(&world, &missing_tag));
    let query = filter(DiscoverySearchInputV1 { query: Some("EXAM".into()), ..Default::default() });
    assert!(announcement_matches(&world, &query));
    let by_description = filter(DiscoverySearchInputV1 { query: Some("viva".into()), ..Default::default() });
    assert!(announcement_matches(&world, &by_description));
    let no_hit = filter(DiscoverySearchInputV1 { query: Some("skyblock".into()), ..Default::default() });
    assert!(!announcement_matches(&world, &no_hit));
}

#[test]
fn membership_policies_have_descriptive_labels() {
    assert_eq!(membership_labels(MembershipPolicy::Open), ("open".to_string(), "request_join".to_string()));
    assert_eq!(
        membership_labels(MembershipPolicy::ApprovalRequired),
        ("approval_required".to_string(), "request_approval".to_string())
    );
    assert_eq!(
        membership_labels(MembershipPolicy::InviteOnly),
        ("invite_only".to_string(), "invite_required".to_string())
    );
    assert_eq!(visibility_label(WorldVisibility::Unlisted), "unlisted");
}

fn challenge() -> swarm_cli::discovery::FreshnessChallenge {
    swarm_cli::discovery::FreshnessChallenge {
        membership_sequence: 3,
        membership_hash: "m".into(),
        authority_peer_id: "peer-1".into(),
        authority_epoch: 5,
        fencing_token: 5,
        config_sequence: 2,
        config_hash: "c".into(),
        canonical_head: Some(swarm_cli::discovery::DiscoveryHead {
            snapshot_number: 7,
            manifest_hash: "h".into(),
            epoch: 5,
            sequence: 9,
        }),
        pending_membership_proposal_hash: None,
    }
}

fn local_state() -> swarm_cli::discovery::LocalWorldState {
    swarm_cli::discovery::LocalWorldState {
        membership: Some((3, "m".into())),
        promise_target: None,
        epoch: Some(("peer-1".into(), 5, 5)),
        config: Some(("peer-1".into(), 2, "c".into())),
        head: Some(swarm_cli::discovery::DiscoveryHead { snapshot_number: 7, manifest_hash: "h".into(), epoch: 5, sequence: 9 }),
        pending_proposal_hash: None,
        listed_in_membership: true,
        listed_in_pending: false,
    }
}

#[test]
fn durable_promise_fences_stale_freshness_votes() {
    use_matches(&local_state(), &challenge(), true);
    let fenced = swarm_cli::discovery::LocalWorldState { promise_target: Some((6, 6)), ..local_state() };
    use_matches(&fenced, &challenge(), false);
    let same = swarm_cli::discovery::LocalWorldState { promise_target: Some((5, 5)), ..local_state() };
    use_matches(&same, &challenge(), true);
    let stale_epoch = swarm_cli::discovery::LocalWorldState { epoch: Some(("peer-1".into(), 4, 4)), ..local_state() };
    use_matches(&stale_epoch, &challenge(), false);
    let no_head = swarm_cli::discovery::LocalWorldState { head: None, ..local_state() };
    use_matches(&no_head, &challenge(), false);
    let stranger = swarm_cli::discovery::LocalWorldState { listed_in_membership: false, ..local_state() };
    use_matches(&stranger, &challenge(), false);
    let joining = swarm_cli::discovery::LocalWorldState {
        listed_in_membership: false,
        listed_in_pending: true,
        pending_proposal_hash: Some("p".into()),
        ..local_state()
    };
    let mut with_pending = challenge();
    with_pending.pending_membership_proposal_hash = Some("p".into());
    use_matches(&joining, &with_pending, true);
    use_matches(&joining, &challenge(), false);
}

fn use_matches(state: &swarm_cli::discovery::LocalWorldState, challenge: &swarm_cli::discovery::FreshnessChallenge, expected: bool) {
    assert_eq!(swarm_cli::discovery::local_state_matches_challenge(state, challenge), expected);
}

fn held(visibility: WorldVisibility, expires: u64) -> swarm_cli::discovery::HeldAnnouncement {
    swarm_cli::discovery::HeldAnnouncement { facts: sample_announcement(), visibility, expires_unix_ms: expires }
}

#[test]
fn public_listing_holds_only_live_public_matches_up_to_the_limit() {
    let all = vec![
        held(WorldVisibility::Private, 100),
        held(WorldVisibility::Public, 100),
        held(WorldVisibility::Unlisted, 100),
        held(WorldVisibility::Public, 10),
        held(WorldVisibility::Public, 50),
        held(WorldVisibility::Public, 60),
    ];
    let browse = filter(DiscoverySearchInputV1 { limit: 10, ..Default::default() });
    assert_eq!(swarm_cli::discovery::public_listing(&all, &browse, 50, 64), vec![1, 4, 5]);
    let two = filter(DiscoverySearchInputV1 { limit: 2, ..Default::default() });
    assert_eq!(swarm_cli::discovery::public_listing(&all, &two, 50, 64), vec![1, 4]);
    let capped = filter(DiscoverySearchInputV1 { limit: 10, ..Default::default() });
    assert_eq!(swarm_cli::discovery::public_listing(&all, &capped, 50, 1), vec![1]);
    assert!(swarm_cli::discovery::resolvable(WorldVisibility::Unlisted, 50, 50));
    assert!(!swarm_cli::discovery::resolvable(WorldVisibility::Private, 50, 50));
    assert!(!swarm_cli::discovery::resolvable(WorldVisibility::Public, 49, 50));
    let (a, b) = ("v".to_string(), "v".to_string());
    assert!(swarm_cli::discovery::challenge_window_ok(&a, &b, 10, 20, 15, 10));
    assert!(!swarm_cli::discovery::challenge_window_ok(&a, &b, 10, 21, 15, 10));
    assert!(!swarm_cli::discovery::challenge_window_ok(&a, &b, 10, 10, 5, 10));
    assert!(!swarm_cli::discovery::challenge_window_ok(&a, &b, 10, 20, 21, 10));
    assert!(!swarm_cli::discovery::challenge_window_ok(&a, &"w".to_string(), 10, 20, 15, 10));
}

fn friend(peer: &str, key: &str, label: &str, accepted: u64) -> FriendContactV1 {
    FriendContactV1 {
        peer_id: peer.to_string(),
        public_key_hex: key.to_string(),
        label: label.to_string(),
        accepted_unix_ms: accepted,
    }
}

#[test]
fn loaded_friend_store_is_sorted_by_peer_and_drops_repeated_identities() {
    let stored = vec![
        friend("12D3KooWc", "cc", "third", 3),
        friend("12D3KooWa", "aa", "first", 1),
        friend("12D3KooWa", "aa", "duplicate", 9),
        friend("12D3KooWb", "bb", "second", 2),
    ];
    let loaded = load_friend_store(FRIENDS_FILE_VERSION, stored).unwrap();
    let peers: Vec<&str> = loaded.iter().map(|f| f.peer_id.as_str()).collect();
    assert_eq!(peers, vec!["12D3KooWa", "12D3KooWb", "12D3KooWc"]);
    assert_eq!(loaded[0].label, "first");
    assert_eq!(load_friend_store(2, Vec::new()), Err(FriendError::UnsupportedVersion(2)));
    assert_eq!(FriendError::UnsupportedVersion(2).message(), "unsupported friend store version 2");
}

#[test]
fn adding_a_friend_inserts_in_peer_order_with_a_trimmed_label() {
    let mut store = vec![friend("12D3KooWa", "aa", "a", 1), friend("12D3KooWc", "cc", "c", 3)];
    let added = add_friend(&mut store, &"12D3KooWb".to_string(), &"bb".to_string(), "  Bee \n", 42).unwrap();
    assert_eq!(added, friend("12D3KooWb", "bb", "Bee", 42));
    let peers: Vec<&str> = store.iter().map(|f| f.peer_id.as_str()).collect();
    assert_eq!(peers, vec!["12D3KooWa", "12D3KooWb", "12D3KooWc"]);
    assert_eq!(store[1], added);
}

#[test]
fn adding_a_known_friend_relabels_it_and_keeps_its_acceptance_time() {
    let mut store = vec![friend("12D3KooWa", "aa", "old", 1)];
    let updated = add_friend(&mut store, &"12D3KooWa".to_string(), &"aa".to_string(), "new", 99).unwrap();
    assert_eq!(updated, friend("12D3KooWa", "aa", "new", 1));
    assert_eq!(store, vec![friend("12D3KooWa", "aa", "new", 1)]);
}

#[test]
fn friend_identity_collisions_and_long_labels_are_refused() {
    let mut store = vec![friend("12D3KooWa", "aa", "old", 1)];
    assert_eq!(
        add_friend(&mut store, &"12D3KooWa".to_string(), &"ff".to_string(), "x", 5),
        Err(FriendError::IdentityCollision)
    );
    assert_eq!(store, vec![friend("12D3KooWa", "aa", "old", 1)]);
    let long = "é".repeat(49);
    assert_eq!(
        add_friend(&mut store, &"12D3KooWb".to_string(), &"bb".to_string(), &long, 5),
        Err(FriendError::LabelTooLong)
    );
    let fits = format!("  {}  ", "a".repeat(MAX_FRIEND_LABEL_BYTES));
    assert!(add_friend(&mut store, &"12D3KooWb".to_string(), &"bb".to_string(), &fits, 5).is_ok());
    assert_eq!(FriendError::LabelTooLong.message(), "friend label is too long");
    assert_eq!(
        FriendError::IdentityCollision.message(),
        "friend identity collision: the peer ID is already stored with another public key"
    );
}

#[test]
fn removing_a_friend_drops_every_entry_for_the_peer() {
    let mut store = vec![
        friend("12D3KooWa", "aa", "a", 1),
        friend("12D3KooWb", "bb", "b", 2),
        friend("12D3KooWb", "b2", "b", 3),
    ];
    assert!(remove_friend(&mut store, &"12D3KooWb".to_string()));
    assert_eq!(store, vec![friend("12D3KooWa", "aa", "a", 1)]);
    assert!(!remove_friend(&mut store, &"12D3KooWz".to_string()));
    assert_eq!(store.len(), 1);
}

#[test]
fn freshness_votes_are_kept_once_per_voter_in_voter_order_up_to_the_cap() {
    let mut voters: Vec<String> = Vec::new();
    assert!(admit_freshness_vote(&mut voters, &"peer-c".to_string(), 3));
    assert!(admit_freshness_vote(&mut voters, &"peer-a".to_string(), 3));
    assert!(!admit_freshness_vote(&mut voters, &"peer-c".to_string(), 3));
    assert_eq!(voters, vec!["peer-a".to_string(), "peer-c".to_string()]);
    assert!(admit_freshness_vote(&mut voters, &"peer-b".to_string(), 3));
    assert_eq!(voters, vec!["peer-a".to_string(), "peer-b".to_string(), "peer-c".to_string()]);
    assert!(!admit_freshness_vote(&mut voters, &"peer-d".to_string(), 3));
    assert_eq!(voters.len(), 3);
}

fn card(name: &str, world: &str) -> WorldDiscoveryCardV1 {
    WorldDiscoveryCardV1 {
        world_id: world.to_string(),
        name: name.to_string(),
        description: String::new(),
        tags: Vec::new(),
        approximate_region: None,
        minecraft_version: "1.21.8".to_string(),
        loader_id: "fabric".to_string(),
        loader_version: "0.17.2".to_string(),
        compatibility_fingerprint: "fp".to_string(),
        visibility: "public".to_string(),
        membership_policy: "open".to_string(),
        join_action: "request_join".to_string(),
        announcer_peer_id: "peer".to_string(),
        issued_unix_ms: 1,
        expires_unix_ms: 2,
    }
}

#[test]
fn search_results_are_ordered_by_lowercased_name_then_world_and_cut_to_the_limit() {
    let cards = vec![card("beta", "02"), card("Alpha", "09"), card("alpha", "01"), card("Gamma", "03")];
    let ordered = order_search_results(cards, 10, 100);
    let keys: Vec<(&str, &str)> = ordered.iter().map(|c| (c.name.as_str(), c.world_id.as_str())).collect();
    assert_eq!(keys, vec![("alpha", "01"), ("Alpha", "09"), ("beta", "02"), ("Gamma", "03")]);
    let cut = order_search_results(vec![card("b", "1"), card("a", "2"), card("c", "3")], 2, 100);
    assert_eq!(cut.iter().map(|c| c.name.as_str()).collect::<Vec<_>>(), vec!["a", "b"]);
    let at_least_one = order_search_results(vec![card("b", "1"), card("a", "2")], 0, 100);
    assert_eq!(at_least_one.len(), 1);
    let capped = order_search_results(vec![card("b", "1"), card("a", "2"), card("c", "3")], 50, 2);
    assert_eq!(capped.len(), 2);
}

#[test]
fn search_state_reports_providers_then_refusals_then_results() {
    assert_eq!(search_state(0, true, 0, 0, 0), SearchState::NetworkUnavailable);
    assert_eq!(search_state(0, false, 0, 3, 0), SearchState::ProviderUnavailable);
    assert_eq!(search_state(2, false, 0, 0, 1), SearchState::Partial);
    assert_eq!(search_state(2, false, 3, 1, 0), SearchState::Partial);
    assert_eq!(search_state(2, true, 0, 0, 0), SearchState::Empty);
    assert_eq!(search_state(2, false, 1, 0, 0), SearchState::Complete);
    assert_eq!(search_state_label(SearchState::Complete), "ok");
    assert_eq!(search_state_label(SearchState::NetworkUnavailable), "network_unavailable");
}

#[test]
fn resolve_state_prefers_found_then_stale_then_invalid() {
    assert_eq!(resolve_state(true, true, true, 0, true), ResolveState::Found);
    assert_eq!(resolve_state(false, true, true, 3, false), ResolveState::Stale);
    assert_eq!(resolve_state(false, false, true, 3, false), ResolveState::Invalid);
    assert_eq!(resolve_state(false, false, false, 0, true), ResolveState::NetworkUnavailable);
    assert_eq!(resolve_state(false, false, false, 0, false), ResolveState::ProviderUnavailable);
    assert_eq!(resolve_state(false, false, false, 2, true), ResolveState::NotFound);
    assert_eq!(resolve_state_label(ResolveState::NotFound), "not_found");
    assert_eq!(resolve_state_label(ResolveState::Stale), "stale");
}

#[test]
fn friend_presence_is_online_only_for_a_verified_answer_with_the_stored_key() {
    assert_eq!(answered_presence_state(PresenceCheck::Verified, true), PresenceState::Online);
    assert_eq!(answered_presence_state(PresenceCheck::Verified, false), PresenceState::Invalid);
    assert_eq!(answered_presence_state(PresenceCheck::Expired, true), PresenceState::Stale);
    assert_eq!(answered_presence_state(PresenceCheck::Rejected, true), PresenceState::Invalid);
    assert_eq!(unanswered_presence_state(0, true), PresenceState::NetworkUnavailable);
    assert_eq!(unanswered_presence_state(0, false), PresenceState::Offline);
    assert_eq!(unanswered_presence_state(2, true), PresenceState::Offline);
    assert_eq!(presence_state_label(PresenceState::NetworkUnavailable), "network_unavailable");
    assert_eq!(presence_state_label(PresenceState::Online), "online");
}

#[test]
fn a_friend_is_found_by_its_peer_id() {
    let store = vec![friend("12D3KooWa", "aa", "a", 1), friend("12D3KooWb", "bb", "b", 2)];
    assert_eq!(find_friend(&store, &"12D3KooWb".to_string()), Some(1));
    assert_eq!(find_friend(&store, &"12D3KooWz".to_string()), None);
}

fn world_member(peer: &str, key: &str, banned: bool) -> swarm_cli::authorization::MemberEntry {
    swarm_cli::authorization::MemberEntry {
        peer_id: peer.to_string(),
        public_key: key.to_string(),
        key_peer_id: peer.to_string(),
        authority_eligible: true,
        banned,
    }
}

#[test]
fn only_an_unbanned_entry_with_the_local_key_makes_the_device_an_active_member() {
    let members = vec![world_member("me", "other", false), world_member("me", "k", true), world_member("p", "k", false)];
    assert!(!is_active_member(&members, &"me".to_string(), &"k".to_string()));
    let members = vec![world_member("me", "k", true), world_member("me", "k", false)];
    assert!(is_active_member(&members, &"me".to_string(), &"k".to_string()));
}

#[test]
fn worlds_are_announced_only_by_their_current_authority_and_never_when_private() {
    assert_eq!(world_publication(false, false, WorldVisibility::Public, Some(true)), Publication::Hidden);
    assert_eq!(world_publication(true, false, WorldVisibility::Private, Some(true)), Publication::Hidden);
    assert_eq!(world_publication(false, true, WorldVisibility::Unlisted, Some(true)), Publication::Provided);
    assert_eq!(world_publication(true, false, WorldVisibility::Public, None), Publication::Provided);
    assert_eq!(world_publication(true, false, WorldVisibility::Public, Some(false)), Publication::Provided);
    assert_eq!(world_publication(true, true, WorldVisibility::Unlisted, Some(true)), Publication::Announced);
}

fn shares_world(members: &[swarm_cli::authorization::MemberEntry]) -> bool {
    is_active_member(members, &"local".to_string(), &"local-key".to_string())
        && is_active_member(members, &"friend".to_string(), &"friend-key".to_string())
}

#[test]
fn banned_or_removed_friend_is_not_reported_as_shared_world() {
    let initial = vec![world_member("friend", "friend-key", false), world_member("local", "local-key", false)];
    assert!(shares_world(&initial));
    let banned = vec![world_member("friend", "friend-key", true), world_member("local", "local-key", false)];
    assert!(!shares_world(&banned));
    let removed = vec![world_member("local", "local-key", false)];
    assert!(!shares_world(&removed));
}

fn generation_state(
    membership: (u64, &str),
    promise_target: Option<(u64, u64)>,
    authority: &str,
    epoch: (u64, u64),
    config: (u64, &str),
) -> swarm_cli::discovery::LocalWorldState {
    swarm_cli::discovery::LocalWorldState {
        membership: Some((membership.0, membership.1.into())),
        promise_target,
        epoch: Some((authority.into(), epoch.0, epoch.1)),
        config: Some((authority.into(), config.0, config.1.into())),
        head: None,
        pending_proposal_hash: None,
        listed_in_membership: true,
        listed_in_pending: false,
    }
}

fn generation_challenge(
    membership: (u64, &str),
    authority: &str,
    epoch: (u64, u64),
    config: (u64, &str),
) -> swarm_cli::discovery::FreshnessChallenge {
    swarm_cli::discovery::FreshnessChallenge {
        membership_sequence: membership.0,
        membership_hash: membership.1.into(),
        authority_peer_id: authority.into(),
        authority_epoch: epoch.0,
        fencing_token: epoch.1,
        config_sequence: config.0,
        config_hash: config.1.into(),
        canonical_head: None,
        pending_membership_proposal_hash: None,
    }
}

#[test]
fn durable_recovery_promise_fences_stale_freshness_and_current_majority_recovers() {
    // All three devices hold the first generation, led by `a`.
    let stale = generation_challenge((1, "membership1"), "a", (1, 1), (1, "config1"));
    let a_state = generation_state((1, "membership1"), None, "a", (1, 1), (1, "config1"));
    assert!(local_state_matches_challenge(&a_state, &stale));
    // `b` and `c` durably promise the recovery ballot for the next generation.
    let promised = generation_state((1, "membership1"), Some((2, 2)), "a", (1, 1), (1, "config1"));
    assert!(!local_state_matches_challenge(&promised, &stale));
    assert!(!local_state_matches_challenge(&promised, &stale));
    // The majority recovers: `b` and `c` accept the new epoch, membership and
    // configuration, and the promise is cleared.
    let current = generation_challenge((2, "membership2"), "b", (2, 2), (2, "config2"));
    let recovered = generation_state((2, "membership2"), None, "b", (2, 2), (2, "config2"));
    assert!(local_state_matches_challenge(&recovered, &current));
    assert!(local_state_matches_challenge(&recovered, &current));
    assert!(!local_state_matches_challenge(&a_state, &current));
    assert!(!local_state_matches_challenge(&recovered, &stale));
}
