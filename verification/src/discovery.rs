//! World and friend discovery: the report shapes handed to the user, the
//! search filter built from user input, the rule that decides whether an
//! announcement answers a search, and the fail-closed sequence and expiry
//! arithmetic of announcements.
use vstd::prelude::*;
use crate::text::{
    chars_of, contains_spec, decimal_spec, decimal_string, eq_ignore_ascii_case, eq_ignore_ascii_case_spec, find_chars,
    insert_by, lemma_filter_sorted, lemma_insert_by_sorted, lemma_lex_total, lemma_lex_transitive, lemma_sort_by_multiset,
    lemma_sort_by_sorted, lex_le, lex_le_exec, sort_by, sort_texts, sorted_by, text_le, texts_of, to_lowercase,
    total_preorder, trim, trim_spec, unicode_lowercase,
};
use crate::authorization::MemberEntry;
use crate::provider_runtime::utf8_length;
use vstd::utf8::encode_utf8;

verus! {

pub const WORLD_ANNOUNCEMENT_TTL_MS: u64 = 5 * 60 * 1_000;

pub const FRIEND_PRESENCE_TTL_MS: u64 = 30 * 1_000;

#[derive(Debug, Clone, PartialEq, Eq)]
pub struct FriendContactV1 {
    pub peer_id: String,
    pub public_key_hex: String,
    pub label: String,
    pub accepted_unix_ms: u64,
}

pub struct SharedWorldV1 {
    pub world_id: String,
    pub name: String,
}

pub struct FriendCardV1 {
    pub peer_id: String,
    pub public_key_hex: String,
    pub label: String,
    pub accepted_unix_ms: u64,
    /// `unknown` until a live presence probe is performed.
    pub presence: String,
    pub shared_worlds: Vec<SharedWorldV1>,
}

pub struct FriendPresenceReportV1 {
    pub peer_id: String,
    /// online, offline, network_unavailable, stale, or invalid.
    pub state: String,
    pub observed_unix_ms: Option<u64>,
    pub expires_unix_ms: Option<u64>,
    pub detail: Option<String>,
}

pub struct WorldDiscoveryCardV1 {
    pub world_id: String,
    pub name: String,
    pub description: String,
    pub tags: Vec<String>,
    pub approximate_region: Option<String>,
    pub minecraft_version: String,
    pub loader_id: String,
    pub loader_version: String,
    pub compatibility_fingerprint: String,
    pub visibility: String,
    pub membership_policy: String,
    /// request_join, request_approval, or invite_required. This is
    /// descriptive; discovery itself never changes canonical membership.
    pub join_action: String,
    pub announcer_peer_id: String,
    pub issued_unix_ms: u64,
    pub expires_unix_ms: u64,
}

pub struct PublicWorldSearchReportV1 {
    /// ok, empty, provider_unavailable, network_unavailable, or partial.
    pub state: String,
    pub results: Vec<WorldDiscoveryCardV1>,
    pub providers_seen: usize,
    pub rejected_invalid: usize,
    pub rejected_stale: usize,
    pub detail: Option<String>,
}

pub struct ResolveWorldReportV1 {
    /// found, not_found, provider_unavailable, network_unavailable, stale,
    /// or invalid.
    pub state: String,
    pub world: Option<WorldDiscoveryCardV1>,
    pub detail: Option<String>,
}

pub struct DiscoverySearchInputV1 {
    pub query: Option<String>,
    pub minecraft_version: Option<String>,
    pub loader_id: Option<String>,
    pub loader_version: Option<String>,
    pub tags: Vec<String>,
    pub approximate_region: Option<String>,
    pub limit: u16,
}

/// The number of results a search asks for when the input names none.
pub fn default_search_limit() -> (r: u16)
    ensures
        r == 32,
{
    32
}

impl Default for DiscoverySearchInputV1 {
    /// A search for Fabric worlds of any version, with the default limit.
    fn default() -> (r: Self)
        ensures
            r.query is None,
            r.minecraft_version is None,
            r.loader_id matches Some(l) && l@ == "fabric"@,
            r.loader_version is None,
            r.tags@.len() == 0,
            r.approximate_region is None,
            r.limit == 32,
    {
        DiscoverySearchInputV1 {
            query: None,
            minecraft_version: None,
            loader_id: Some(String::from_str("fabric")),
            loader_version: None,
            tags: Vec::new(),
            approximate_region: None,
            limit: default_search_limit(),
        }
    }
}

/// The search filter that providers evaluate.
pub struct DiscoveryFilter {
    pub query: Option<String>,
    pub minecraft_version: Option<String>,
    pub loader_id: Option<String>,
    pub loader_version: Option<String>,
    pub tags: Vec<String>,
    pub approximate_region: Option<String>,
    pub limit: u16,
}

pub open spec fn opt_view(value: Option<String>) -> Option<Seq<char>> {
    match value {
        Some(s) => Some(s@),
        None => None,
    }
}

pub open spec fn strings_view(values: Seq<String>) -> Seq<Seq<char>> {
    values.map_values(|s: String| s@)
}

/// A value trimmed of surrounding white space, or `None` where nothing is
/// left of it.
pub open spec fn clean_spec(value: Option<Seq<char>>) -> Option<Seq<char>> {
    match value {
        Some(s) => if trim_spec(s).len() > 0 { Some(trim_spec(s)) } else { None },
        None => None,
    }
}

pub fn clean_optional(value: Option<String>) -> (r: Option<String>)
    ensures
        opt_view(r) == clean_spec(opt_view(value)),
{
    match value {
        Some(s) => {
            let t = trim(s.as_str());
            if t.as_str().unicode_len() > 0 {
                Some(t)
            } else {
                None
            }
        },
        None => None,
    }
}

/// The trimmed tags that are not empty, in their order.
pub open spec fn clean_tags(tags: Seq<Seq<char>>) -> Seq<Seq<char>>
    decreases tags.len(),
{
    if tags.len() == 0 {
        Seq::empty()
    } else {
        let earlier = clean_tags(tags.drop_last());
        let t = trim_spec(tags.last());
        if t.len() > 0 { earlier.push(t) } else { earlier }
    }
}

/// `limit` clamped into `1..=max`.
pub open spec fn clamp_spec(limit: u16, max: u16) -> u16 {
    if limit < 1 { 1 } else if limit > max { max } else { limit }
}

/// The filter for a search input: every text field cleaned, empty tags
/// dropped, and the limit clamped into `1..=max_results`.
pub fn search_filter(input: DiscoverySearchInputV1, max_results: u16) -> (r: DiscoveryFilter)
    requires
        max_results >= 1,
    ensures
        opt_view(r.query) == clean_spec(opt_view(input.query)),
        opt_view(r.minecraft_version) == clean_spec(opt_view(input.minecraft_version)),
        opt_view(r.loader_id) == clean_spec(opt_view(input.loader_id)),
        opt_view(r.loader_version) == clean_spec(opt_view(input.loader_version)),
        opt_view(r.approximate_region) == clean_spec(opt_view(input.approximate_region)),
        strings_view(r.tags@) == clean_tags(strings_view(input.tags@)),
        r.limit == clamp_spec(input.limit, max_results),
{
    let mut tags: Vec<String> = Vec::new();
    let ghost input_tags = strings_view(input.tags@);
    let mut i: usize = 0;
    while i < input.tags.len()
        invariant
            i <= input.tags@.len(),
            input_tags == strings_view(input.tags@),
            strings_view(tags@) == clean_tags(input_tags.subrange(0, i as int)),
        decreases input.tags@.len() - i,
    {
        let t = trim(input.tags[i].as_str());
        assert(input_tags.subrange(0, i + 1).drop_last() == input_tags.subrange(0, i as int));
        if t.as_str().unicode_len() > 0 {
            tags.push(t);
        }
        assert(strings_view(tags@) == clean_tags(input_tags.subrange(0, i + 1)));
        i = i + 1;
    }
    assert(input_tags.subrange(0, input_tags.len() as int) == input_tags);
    let limit = if input.limit < 1 {
        1
    } else if input.limit > max_results {
        max_results
    } else {
        input.limit
    };
    DiscoveryFilter {
        query: clean_optional(input.query),
        minecraft_version: clean_optional(input.minecraft_version),
        loader_id: clean_optional(input.loader_id),
        loader_version: clean_optional(input.loader_version),
        tags,
        approximate_region: clean_optional(input.approximate_region),
        limit,
    }
}

/// What a search reads of a signed world announcement.
pub struct AnnouncementFacts {
    pub name: String,
    pub description: String,
    pub tags: Vec<String>,
    pub approximate_region: Option<String>,
    pub minecraft_version: String,
    pub loader_id: String,
    pub loader_version: String,
}

/// The trimmed value of an optional filter field, where it is not empty.
pub open spec fn expected(value: Option<String>) -> Option<Seq<char>> {
    clean_spec(opt_view(value))
}

/// An exact-match field: equal up to ASCII case, where the filter sets it.
pub open spec fn field_ok(actual: Seq<char>, wanted: Option<String>) -> bool {
    match expected(wanted) {
        Some(e) => eq_ignore_ascii_case_spec(actual, e),
        None => true,
    }
}

pub open spec fn region_ok(region: Option<String>, wanted: Option<String>) -> bool {
    match expected(wanted) {
        Some(e) => region matches Some(r) && eq_ignore_ascii_case_spec(r@, e),
        None => true,
    }
}

/// Each non-empty filter tag names one of the announcement's tags, up to
/// ASCII case.
pub open spec fn tags_ok(tags: Seq<String>, wanted: Seq<String>) -> bool {
    forall|i: int|
        0 <= i < wanted.len() && trim_spec((#[trigger] wanted[i])@).len() > 0 ==> exists|j: int|
            0 <= j < tags.len() && eq_ignore_ascii_case_spec((#[trigger] tags[j])@, trim_spec(wanted[i]@))
}

/// The lower-cased query occurs in the lower-cased name, description or
/// one of the tags.
pub open spec fn query_found(facts: AnnouncementFacts, query: Seq<char>) -> bool {
    let q = unicode_lowercase(query);
    ||| contains_spec(unicode_lowercase(facts.name@), q)
    ||| contains_spec(unicode_lowercase(facts.description@), q)
    ||| exists|j: int| 0 <= j < facts.tags@.len() && contains_spec(unicode_lowercase((#[trigger] facts.tags@[j])@), q)
}

pub open spec fn query_ok(facts: AnnouncementFacts, wanted: Option<String>) -> bool {
    match expected(wanted) {
        Some(q) => query_found(facts, q),
        None => true,
    }
}

/// Whether an announcement answers a search filter.
pub open spec fn announcement_matches_spec(facts: AnnouncementFacts, filter: DiscoveryFilter) -> bool {
    &&& field_ok(facts.minecraft_version@, filter.minecraft_version)
    &&& field_ok(facts.loader_id@, filter.loader_id)
    &&& field_ok(facts.loader_version@, filter.loader_version)
    &&& region_ok(facts.approximate_region, filter.approximate_region)
    &&& tags_ok(facts.tags@, filter.tags@)
    &&& query_ok(facts, filter.query)
}

/// A search text is looked for, without regard to case, in an
/// announcement's name, its description and each of its tags: an
/// announcement that passes the other filters matches exactly when there
/// is no search text or the text occurs in one of those.
pub proof fn lemma_query_searches_name_description_and_tags(facts: AnnouncementFacts, filter: DiscoveryFilter)
    ensures
        ({
            let others = field_ok(facts.minecraft_version@, filter.minecraft_version) && field_ok(
                facts.loader_id@,
                filter.loader_id,
            ) && field_ok(facts.loader_version@, filter.loader_version) && region_ok(
                facts.approximate_region,
                filter.approximate_region,
            ) && tags_ok(facts.tags@, filter.tags@);
            let found = match expected(filter.query) {
                None => true,
                Some(q) => {
                    ||| contains_spec(unicode_lowercase(facts.name@), unicode_lowercase(q))
                    ||| contains_spec(unicode_lowercase(facts.description@), unicode_lowercase(q))
                    ||| exists|j: int|
                        0 <= j < facts.tags@.len() && contains_spec(
                            unicode_lowercase((#[trigger] facts.tags@[j])@),
                            unicode_lowercase(q),
                        )
                },
            };
            announcement_matches_spec(facts, filter) <==> others && found
        }),
{
}

fn expected_chars(value: &Option<String>) -> (r: Option<Vec<char>>)
    ensures
        match r {
            Some(v) => expected(*value) == Some(v@),
            None => expected(*value) is None,
        },
{
    match value {
        Some(s) => {
            let t = trim(s.as_str());
            let chars = chars_of(t.as_str());
            if chars.len() > 0 {
                Some(chars)
            } else {
                None
            }
        },
        None => None,
    }
}

fn field_matches(actual: &String, wanted: &Option<String>) -> (r: bool)
    ensures
        r == field_ok(actual@, *wanted),
{
    match expected_chars(wanted) {
        Some(e) => {
            let a = chars_of(actual.as_str());
            eq_ignore_ascii_case(a.as_slice(), e.as_slice())
        },
        None => true,
    }
}

fn any_tag_equal(tags: &Vec<String>, wanted: &Vec<char>) -> (r: bool)
    ensures
        r == exists|j: int| 0 <= j < tags@.len() && eq_ignore_ascii_case_spec((#[trigger] tags@[j])@, wanted@),
{
    let mut j: usize = 0;
    while j < tags.len()
        invariant
            j <= tags@.len(),
            forall|k: int| 0 <= k < j ==> !eq_ignore_ascii_case_spec((#[trigger] tags@[k])@, wanted@),
        decreases tags@.len() - j,
    {
        let candidate = chars_of(tags[j].as_str());
        if eq_ignore_ascii_case(candidate.as_slice(), wanted.as_slice()) {
            return true;
        }
        j = j + 1;
    }
    false
}

fn lower_contains(text: &String, lowered_query: &Vec<char>) -> (r: bool)
    ensures
        r == contains_spec(unicode_lowercase(text@), lowered_query@),
{
    let lowered = to_lowercase(text.as_str());
    let chars = chars_of(lowered.as_str());
    find_chars(chars.as_slice(), lowered_query.as_slice(), 0).is_some()
}

fn query_matches(facts: &AnnouncementFacts, query: &Vec<char>) -> (r: bool)
    ensures
        r == query_found(*facts, query@),
{
    let query_text = crate::text::string_from_chars(query.as_slice());
    let lowered = to_lowercase(query_text.as_str());
    let q = chars_of(lowered.as_str());
    if lower_contains(&facts.name, &q) || lower_contains(&facts.description, &q) {
        return true;
    }
    let mut j: usize = 0;
    while j < facts.tags.len()
        invariant
            j <= facts.tags@.len(),
            q@ == unicode_lowercase(query@),
            forall|k: int| 0 <= k < j ==> !contains_spec(unicode_lowercase((#[trigger] facts.tags@[k])@), q@),
        decreases facts.tags@.len() - j,
    {
        if lower_contains(&facts.tags[j], &q) {
            return true;
        }
        j = j + 1;
    }
    false
}

/// Whether an announcement answers a search filter: the version and loader
/// fields and the region match up to ASCII case where the filter sets them,
/// every filter tag is among the announcement's tags, and the query occurs,
/// lower-cased, in the name, the description or a tag.
pub fn announcement_matches(facts: &AnnouncementFacts, filter: &DiscoveryFilter) -> (r: bool)
    ensures
        r == announcement_matches_spec(*facts, *filter),
{
    if !field_matches(&facts.minecraft_version, &filter.minecraft_version) {
        return false;
    }
    if !field_matches(&facts.loader_id, &filter.loader_id) {
        return false;
    }
    if !field_matches(&facts.loader_version, &filter.loader_version) {
        return false;
    }
    match expected_chars(&filter.approximate_region) {
        Some(e) => {
            match &facts.approximate_region {
                Some(region) => {
                    let r = chars_of(region.as_str());
                    if !eq_ignore_ascii_case(r.as_slice(), e.as_slice()) {
                        return false;
                    }
                },
                None => {
                    return false;
                },
            }
        },
        None => {},
    }
    let mut i: usize = 0;
    while i < filter.tags.len()
        invariant
            i <= filter.tags@.len(),
            forall|k: int|
                0 <= k < i && trim_spec((#[trigger] filter.tags@[k])@).len() > 0 ==> exists|j: int|
                    0 <= j < facts.tags@.len() && eq_ignore_ascii_case_spec(
                        (#[trigger] facts.tags@[j])@,
                        trim_spec(filter.tags@[k]@),
                    ),
        decreases filter.tags@.len() - i,
    {
        let t = trim(filter.tags[i].as_str());
        let wanted = chars_of(t.as_str());
        if wanted.len() > 0 {
            if !any_tag_equal(&facts.tags, &wanted) {
                return false;
            }
        }
        i = i + 1;
    }
    match expected_chars(&filter.query) {
        Some(q) => query_matches(facts, &q),
        None => true,
    }
}

/// How a world is listed.
#[derive(Debug, Clone, Copy, PartialEq, Eq, Structural)]
pub enum WorldVisibility {
    Private,
    Unlisted,
    Public,
}

/// Who may join a world.
#[derive(Debug, Clone, Copy, PartialEq, Eq, Structural)]
pub enum MembershipPolicy {
    Open,
    ApprovalRequired,
    InviteOnly,
}

pub open spec fn visibility_label_spec(visibility: WorldVisibility) -> Seq<char> {
    match visibility {
        WorldVisibility::Private => "private"@,
        WorldVisibility::Unlisted => "unlisted"@,
        WorldVisibility::Public => "public"@,
    }
}

/// The label a discovery card shows for a visibility.
pub fn visibility_label(visibility: WorldVisibility) -> (r: String)
    ensures
        r@ == visibility_label_spec(visibility),
{
    match visibility {
        WorldVisibility::Private => String::from_str("private"),
        WorldVisibility::Unlisted => String::from_str("unlisted"),
        WorldVisibility::Public => String::from_str("public"),
    }
}

pub open spec fn membership_labels_spec(policy: MembershipPolicy) -> (Seq<char>, Seq<char>) {
    match policy {
        MembershipPolicy::Open => ("open"@, "request_join"@),
        MembershipPolicy::ApprovalRequired => ("approval_required"@, "request_approval"@),
        MembershipPolicy::InviteOnly => ("invite_only"@, "invite_required"@),
    }
}

/// The membership-policy label and the join action a card shows.
pub fn membership_labels(policy: MembershipPolicy) -> (r: (String, String))
    ensures
        (r.0@, r.1@) == membership_labels_spec(policy),
{
    match policy {
        MembershipPolicy::Open => (String::from_str("open"), String::from_str("request_join")),
        MembershipPolicy::ApprovalRequired => (
            String::from_str("approval_required"),
            String::from_str("request_approval"),
        ),
        MembershipPolicy::InviteOnly => (String::from_str("invite_only"), String::from_str("invite_required")),
    }
}

#[derive(Debug)]
pub enum DiscoveryError {
    /// No announcement sequence number is left above the previous one.
    SequenceExhausted,
    /// An issue time plus a lifetime overflows; the label names the record.
    ExpiryOverflow { label: String },
}

impl DiscoveryError {
    pub fn message(&self) -> (r: String)
        ensures
            self is SequenceExhausted ==> r@ == "discovery announcement sequence exhausted"@,
            self matches DiscoveryError::ExpiryOverflow { label } ==> r@ == label@ + " expiry overflow"@,
    {
        match self {
            DiscoveryError::SequenceExhausted => String::from_str("discovery announcement sequence exhausted"),
            DiscoveryError::ExpiryOverflow { label } => {
                let mut text = label.clone();
                text.append(" expiry overflow");
                text
            },
        }
    }
}

/// The sequence number of the next announcement: the current time where it
/// is past the previous number, else one more than the previous number; it
/// fails closed rather than wrap.
pub fn next_discovery_sequence(previous: u64, now: u64) -> (r: Result<u64, DiscoveryError>)
    ensures
        now > previous ==> (r matches Ok(v) && v == now),
        now <= previous && previous < u64::MAX ==> (r matches Ok(v) && v == previous + 1),
        now <= previous && previous == u64::MAX ==> r matches Err(DiscoveryError::SequenceExhausted),
        r matches Ok(v) ==> v > previous,
{
    if now > previous {
        Ok(now)
    } else if previous < u64::MAX {
        Ok(previous + 1)
    } else {
        Err(DiscoveryError::SequenceExhausted)
    }
}

/// `issued + ttl`, or an error naming `label` where the sum overflows.
pub fn checked_discovery_expiry(issued: u64, ttl: u64, label: &str) -> (r: Result<u64, DiscoveryError>)
    ensures
        issued + ttl <= u64::MAX ==> (r matches Ok(v) && v == issued + ttl),
        issued + ttl > u64::MAX ==> (r matches Err(DiscoveryError::ExpiryOverflow { label: l }) && l@ == label@),
{
    match issued.checked_add(ttl) {
        Some(v) => Ok(v),
        None => Err(DiscoveryError::ExpiryOverflow { label: label.to_owned() }),
    }
}


// ---------------------------------------------------------------------------
// Freshness challenges
// ---------------------------------------------------------------------------

/// The canonical snapshot head a freshness challenge names.
pub struct DiscoveryHead {
    pub snapshot_number: u64,
    pub manifest_hash: String,
    pub epoch: u64,
    pub sequence: u64,
}

pub open spec fn head_view(h: Option<DiscoveryHead>) -> Option<(u64, Seq<char>, u64, u64)> {
    match h {
        Some(v) => Some((v.snapshot_number, v.manifest_hash@, v.epoch, v.sequence)),
        None => None,
    }
}

/// What a freshness challenge claims is the world's current state.
pub struct FreshnessChallenge {
    pub membership_sequence: u64,
    pub membership_hash: String,
    pub authority_peer_id: String,
    pub authority_epoch: u64,
    pub fencing_token: u64,
    pub config_sequence: u64,
    pub config_hash: String,
    pub canonical_head: Option<DiscoveryHead>,
    pub pending_membership_proposal_hash: Option<String>,
}

/// What this device holds of the world, each part where it could be read:
/// the membership record's sequence and hash; the target generation of its
/// durable recovery promise; the accepted epoch's authority, number and
/// fencing token; the signed configuration's authority, sequence and hash;
/// the canonical head; the prepared membership proposal's hash; and whether
/// this device is listed (its own key, unbanned) in the membership or in
/// the prepared proposal.
pub struct LocalWorldState {
    pub membership: Option<(u64, String)>,
    pub promise_target: Option<(u64, u64)>,
    pub epoch: Option<(String, u64, u64)>,
    pub config: Option<(String, u64, String)>,
    pub head: Option<DiscoveryHead>,
    pub pending_proposal_hash: Option<String>,
    pub listed_in_membership: bool,
    pub listed_in_pending: bool,
}

/// This device can vouch for a challenge: its membership, accepted epoch,
/// configuration, canonical head and prepared proposal are exactly the ones
/// the challenge names; no durable recovery promise of a later generation
/// exists here; and this device is a member of the world now or in the
/// prepared configuration.
pub open spec fn vouches(s: LocalWorldState, c: FreshnessChallenge) -> bool {
    &&& s.membership matches Some((seq, hash)) && seq == c.membership_sequence && hash@ == c.membership_hash@
    &&& !(s.promise_target matches Some((e, f)) && (e > c.authority_epoch || (e == c.authority_epoch && f
        > c.fencing_token)))
    &&& s.epoch matches Some((peer, e, f)) && peer@ == c.authority_peer_id@ && e == c.authority_epoch && f
        == c.fencing_token
    &&& s.config matches Some((peer, seq, hash)) && peer@ == c.authority_peer_id@ && seq == c.config_sequence
        && hash@ == c.config_hash@
    &&& head_view(s.head) == head_view(c.canonical_head)
    &&& opt_view(s.pending_proposal_hash) == opt_view(c.pending_membership_proposal_hash)
    &&& s.listed_in_membership || (s.pending_proposal_hash is Some && s.listed_in_pending)
}

fn same_head(a: &Option<DiscoveryHead>, b: &Option<DiscoveryHead>) -> (r: bool)
    ensures
        r == (head_view(*a) == head_view(*b)),
{
    match (a, b) {
        (None, None) => true,
        (Some(x), Some(y)) => x.snapshot_number == y.snapshot_number && x.manifest_hash == y.manifest_hash && x.epoch
            == y.epoch && x.sequence == y.sequence,
        _ => false,
    }
}

fn same_text_opt(a: &Option<String>, b: &Option<String>) -> (r: bool)
    ensures
        r == (opt_view(*a) == opt_view(*b)),
{
    match (a, b) {
        (None, None) => true,
        (Some(x), Some(y)) => *x == *y,
        _ => false,
    }
}

/// Whether this device's state matches a freshness challenge, so that it
/// may vote that the announcement is current.
pub fn local_state_matches_challenge(state: &LocalWorldState, challenge: &FreshnessChallenge) -> (r: bool)
    ensures
        r == vouches(*state, *challenge),
{
    match &state.membership {
        Some((seq, hash)) => {
            if *seq != challenge.membership_sequence || !(*hash == challenge.membership_hash) {
                return false;
            }
        },
        None => return false,
    }
    match state.promise_target {
        Some((e, f)) => {
            if e > challenge.authority_epoch || (e == challenge.authority_epoch && f > challenge.fencing_token) {
                return false;
            }
        },
        None => {},
    }
    match &state.epoch {
        Some((peer, e, f)) => {
            if !(*peer == challenge.authority_peer_id) || *e != challenge.authority_epoch || *f
                != challenge.fencing_token {
                return false;
            }
        },
        None => return false,
    }
    match &state.config {
        Some((peer, seq, hash)) => {
            if !(*peer == challenge.authority_peer_id) || *seq != challenge.config_sequence || !(*hash
                == challenge.config_hash) {
                return false;
            }
        },
        None => return false,
    }
    if !same_head(&state.head, &challenge.canonical_head) {
        return false;
    }
    if !same_text_opt(&state.pending_proposal_hash, &challenge.pending_membership_proposal_hash) {
        return false;
    }
    state.listed_in_membership || (state.pending_proposal_hash.is_some() && state.listed_in_pending)
}

/// A durable recovery promise fences stale freshness: once this device has
/// promised a later authority generation than the one a challenge names,
/// it never vouches for that challenge, whatever else matches.
pub proof fn lemma_promise_fences_stale_freshness(s: LocalWorldState, c: FreshnessChallenge)
    requires
        s.promise_target matches Some((e, f)) && (e > c.authority_epoch || (e == c.authority_epoch && f
            > c.fencing_token)),
    ensures
        !vouches(s, c),
{
}


// ---------------------------------------------------------------------------
// Answering discovery requests
// ---------------------------------------------------------------------------

/// A freshness request is sent by the verifier it names, and its window is
/// well formed, no longer than `max_lifetime_ms`, and not over.
pub fn challenge_window_ok(
    requester: &String,
    verifier: &String,
    issued_unix_ms: u64,
    expires_unix_ms: u64,
    now_unix_ms: u64,
    max_lifetime_ms: u64,
) -> (r: bool)
    ensures
        r == (requester@ == verifier@ && expires_unix_ms > issued_unix_ms && expires_unix_ms - issued_unix_ms
            <= max_lifetime_ms && expires_unix_ms >= now_unix_ms),
{
    *requester == *verifier && expires_unix_ms > issued_unix_ms && expires_unix_ms - issued_unix_ms <= max_lifetime_ms
        && expires_unix_ms >= now_unix_ms
}

/// An announcement this device holds, with its visibility and expiry.
pub struct HeldAnnouncement {
    pub facts: AnnouncementFacts,
    pub visibility: WorldVisibility,
    pub expires_unix_ms: u64,
}

/// A held announcement belongs in a public listing: public, not expired,
/// and matching the filter.
pub open spec fn listed(a: HeldAnnouncement, filter: DiscoveryFilter, now: u64) -> bool {
    a.visibility == WorldVisibility::Public && a.expires_unix_ms >= now && announcement_matches_spec(a.facts, filter)
}

/// The positions, in order, of the held announcements that belong in a
/// public listing.
pub open spec fn listed_positions(held: Seq<HeldAnnouncement>, filter: DiscoveryFilter, now: u64) -> Seq<int>
    decreases held.len(),
{
    if held.len() == 0 {
        Seq::empty()
    } else {
        let earlier = listed_positions(held.drop_last(), filter, now);
        if listed(held.last(), filter, now) {
            earlier.push(held.len() - 1)
        } else {
            earlier
        }
    }
}

proof fn lemma_listed_positions_len(held: Seq<HeldAnnouncement>, filter: DiscoveryFilter, now: u64)
    ensures
        listed_positions(held, filter, now).len() <= held.len(),
    decreases held.len(),
{
    if held.len() > 0 {
        lemma_listed_positions_len(held.drop_last(), filter, now);
    }
}

/// The positions that a public listing draws from are exactly the held
/// announcements that are public, not yet expired and answer the filter,
/// each once, in the order they are held.
pub proof fn lemma_listed_positions_are_live_public_matches(
    held: Seq<HeldAnnouncement>,
    filter: DiscoveryFilter,
    now: u64,
)
    ensures
        forall|k: int|
            0 <= k < listed_positions(held, filter, now).len() ==> {
                let p = #[trigger] listed_positions(held, filter, now)[k];
                &&& 0 <= p < held.len()
                &&& held[p].visibility == WorldVisibility::Public
                &&& held[p].expires_unix_ms >= now
                &&& announcement_matches_spec(held[p].facts, filter)
            },
        forall|k: int, l: int|
            0 <= k < l < listed_positions(held, filter, now).len() ==> #[trigger] listed_positions(held, filter, now)[k]
                < #[trigger] listed_positions(held, filter, now)[l],
        forall|i: int|
            0 <= i < held.len() && (#[trigger] held[i]).visibility == WorldVisibility::Public && held[i].expires_unix_ms
                >= now && announcement_matches_spec(held[i].facts, filter) ==> listed_positions(held, filter, now).contains(
                i,
            ),
    decreases held.len(),
{
    if held.len() > 0 {
        let front = held.drop_last();
        lemma_listed_positions_are_live_public_matches(front, filter, now);
        let earlier = listed_positions(front, filter, now);
        let lp = listed_positions(held, filter, now);
        assert forall|k: int| 0 <= k < earlier.len() implies 0 <= #[trigger] earlier[k] < front.len() && held[earlier[k]]
            == front[earlier[k]] by {}
        assert forall|i: int|
            0 <= i < held.len() && (#[trigger] held[i]).visibility == WorldVisibility::Public && held[i].expires_unix_ms
                >= now && announcement_matches_spec(held[i].facts, filter) implies lp.contains(i) by {
            if i < held.len() - 1 {
                assert(front[i] == held[i]);
                let k = choose|k: int| 0 <= k < earlier.len() && earlier[k] == i;
                assert(lp[k] == i);
            } else {
                assert(held.last() == held[i]);
                assert(lp[lp.len() - 1] == i);
            }
        }
        if listed(held.last(), filter, now) {
            assert(held[held.len() - 1] == held.last());
        }
    }
}

/// The answer to a public discovery request: the positions of the first
/// held announcements that belong in the listing, at most the filter's
/// limit clamped into `1..=max_results`.
pub fn public_listing(held: &[HeldAnnouncement], filter: &DiscoveryFilter, now: u64, max_results: u16) -> (r: Vec<
    usize,
>)
    requires
        max_results >= 1,
    ensures
        r@.len() == (if listed_positions(held@, *filter, now).len() < clamp_spec(filter.limit, max_results) {
            listed_positions(held@, *filter, now).len() as int
        } else {
            clamp_spec(filter.limit, max_results) as int
        }),
        forall|k: int| 0 <= k < r@.len() ==> r@[k] as int == listed_positions(held@, *filter, now)[k],
{
    let limit: usize = if filter.limit < 1 {
        1
    } else if filter.limit > max_results {
        max_results as usize
    } else {
        filter.limit as usize
    };
    let mut out: Vec<usize> = Vec::new();
    let mut i: usize = 0;
    while i < held.len() && out.len() < limit
        invariant
            i <= held@.len(),
            limit == clamp_spec(filter.limit, max_results),
            out@.len() <= limit,
            out@.len() == listed_positions(held@.subrange(0, i as int), *filter, now).len(),
            forall|k: int| 0 <= k < out@.len() ==> out@[k] as int == listed_positions(held@.subrange(0, i as int), *filter, now)[k],
        decreases held@.len() - i,
    {
        proof {
            assert(held@.subrange(0, i + 1).drop_last() =~= held@.subrange(0, i as int));
            assert(held@.subrange(0, i + 1).last() == held@[i as int]);
        }
        let a = &held[i];
        if a.visibility == WorldVisibility::Public && a.expires_unix_ms >= now && announcement_matches(&a.facts, filter) {
            out.push(i);
        }
        i = i + 1;
    }
    proof {
        lemma_listed_prefix(held@, *filter, now, i as int);
        lemma_listed_positions_len(held@.subrange(0, i as int), *filter, now);
        if i == held@.len() {
            assert(held@.subrange(0, i as int) =~= held@);
        }
    }
    out
}

/// The listed positions of a prefix are a prefix of the listed positions.
proof fn lemma_listed_prefix(held: Seq<HeldAnnouncement>, filter: DiscoveryFilter, now: u64, n: int)
    requires
        0 <= n <= held.len(),
    ensures
        listed_positions(held.subrange(0, n), filter, now).len() <= listed_positions(held, filter, now).len(),
        forall|k: int|
            0 <= k < listed_positions(held.subrange(0, n), filter, now).len() ==> listed_positions(
                held.subrange(0, n),
                filter,
                now,
            )[k] == listed_positions(held, filter, now)[k],
    decreases held.len() - n,
{
    if n < held.len() {
        lemma_listed_prefix(held, filter, now, n + 1);
        let p = held.subrange(0, n + 1);
        assert(p.drop_last() =~= held.subrange(0, n));
    } else {
        assert(held.subrange(0, n) =~= held);
    }
}

/// A world can be resolved by id unless it is private or its announcement
/// has expired.
pub fn resolvable(visibility: WorldVisibility, expires_unix_ms: u64, now_unix_ms: u64) -> (r: bool)
    ensures
        r == (expires_unix_ms >= now_unix_ms && visibility != WorldVisibility::Private),
{
    expires_unix_ms >= now_unix_ms && visibility != WorldVisibility::Private
}


// ---------------------------------------------------------------------------
// Friend store
// ---------------------------------------------------------------------------

pub const FRIENDS_FILE_VERSION: u16 = 1;

pub const MAX_FRIEND_LABEL_BYTES: usize = 96;

/// A stored friend as plain values.
pub struct FriendContactView {
    pub peer_id: Seq<char>,
    pub public_key_hex: Seq<char>,
    pub label: Seq<char>,
    pub accepted_unix_ms: u64,
}

impl View for FriendContactV1 {
    type V = FriendContactView;

    open spec fn view(&self) -> FriendContactView {
        FriendContactView {
            peer_id: self.peer_id@,
            public_key_hex: self.public_key_hex@,
            label: self.label@,
            accepted_unix_ms: self.accepted_unix_ms,
        }
    }
}

pub open spec fn contacts(friends: Seq<FriendContactV1>) -> Seq<FriendContactView> {
    friends.map_values(|f: FriendContactV1| f@)
}

/// Friends are kept in the order of their peer IDs.
pub open spec fn friend_le() -> spec_fn(FriendContactView, FriendContactView) -> bool {
    |a: FriendContactView, b: FriendContactView| lex_le(a.peer_id, b.peer_id)
}

/// Two entries name the same identity: the same peer ID with the same key.
pub open spec fn same_identity(a: FriendContactView, b: FriendContactView) -> bool {
    a.peer_id == b.peer_id && a.public_key_hex == b.public_key_hex
}

/// `friends` without an entry that repeats the identity of the entry kept
/// just before it.
pub open spec fn dedup_identities(friends: Seq<FriendContactView>) -> Seq<FriendContactView>
    decreases friends.len(),
{
    if friends.len() == 0 {
        friends
    } else {
        let kept = dedup_identities(friends.drop_last());
        if kept.len() > 0 && same_identity(kept.last(), friends.last()) {
            kept
        } else {
            kept.push(friends.last())
        }
    }
}

/// The first entry at or after `from` for `peer`.
pub open spec fn first_friend(friends: Seq<FriendContactView>, peer: Seq<char>, from: int) -> Option<int>
    decreases friends.len() - from,
{
    if from < 0 || from >= friends.len() {
        None
    } else if friends[from].peer_id == peer {
        Some(from)
    } else {
        first_friend(friends, peer, from + 1)
    }
}

proof fn lemma_first_friend_bounds(friends: Seq<FriendContactView>, peer: Seq<char>, from: int)
    ensures
        first_friend(friends, peer, from) matches Some(i) ==> from <= i < friends.len() && friends[i].peer_id == peer
            && forall|k: int| from <= k < i ==> friends[k].peer_id != peer,
        first_friend(friends, peer, from) is None && 0 <= from ==> forall|k: int|
            from <= k < friends.len() ==> friends[k].peer_id != peer,
    decreases friends.len() - from,
{
    if 0 <= from < friends.len() && friends[from].peer_id != peer {
        lemma_first_friend_bounds(friends, peer, from + 1);
    }
}

#[derive(Debug, Clone, Copy, PartialEq, Eq, Structural)]
pub enum FriendError {
    /// The stored friend list has another format version.
    UnsupportedVersion(u16),
    /// The label, trimmed, is longer than `MAX_FRIEND_LABEL_BYTES` bytes.
    LabelTooLong,
    /// The peer ID is already stored with another public key.
    IdentityCollision,
}

impl FriendError {
    pub fn message(&self) -> (r: String)
        ensures
            self matches FriendError::UnsupportedVersion(v) ==> r@ == "unsupported friend store version "@
                + decimal_spec(v as nat),
            *self == FriendError::LabelTooLong ==> r@ == "friend label is too long"@,
            *self == FriendError::IdentityCollision ==> r@
                == "friend identity collision: the peer ID is already stored with another public key"@,
    {
        match self {
            FriendError::UnsupportedVersion(v) => {
                let mut text = String::from_str("unsupported friend store version ");
                let number = decimal_string(*v as u64);
                text.append(number.as_str());
                text
            },
            FriendError::LabelTooLong => String::from_str("friend label is too long"),
            FriendError::IdentityCollision => String::from_str(
                "friend identity collision: the peer ID is already stored with another public key",
            ),
        }
    }
}

fn copy_contact(c: &FriendContactV1) -> (r: FriendContactV1)
    ensures
        r@ == c@,
{
    FriendContactV1 {
        peer_id: c.peer_id.clone(),
        public_key_hex: c.public_key_hex.clone(),
        label: c.label.clone(),
        accepted_unix_ms: c.accepted_unix_ms,
    }
}

/// One step of the stable sort by peer ID: `x` goes after the last entry
/// whose peer ID is not above its own.
fn insert_friend(friends: &mut Vec<FriendContactV1>, x: FriendContactV1)
    ensures
        contacts(final(friends)@) == insert_by(contacts(old(friends)@), x@, friend_le()),
{
    let ghost old_view = contacts(friends@);
    let ghost xv = x@;
    let key = chars_of(x.peer_id.as_str());
    let mut j: usize = friends.len();
    assert(old_view.subrange(0, old_view.len() as int) =~= old_view);
    assert(insert_by(old_view, xv, friend_le()) + old_view.subrange(old_view.len() as int, old_view.len() as int)
        =~= insert_by(old_view, xv, friend_le()));
    loop
        invariant
            j <= friends@.len(),
            contacts(friends@) == old_view,
            key@ == xv.peer_id,
            insert_by(old_view, xv, friend_le()) == insert_by(old_view.subrange(0, j as int), xv, friend_le())
                + old_view.subrange(j as int, old_view.len() as int),
        ensures
            j <= friends@.len(),
            contacts(friends@) == old_view,
            insert_by(old_view, xv, friend_le()) == insert_by(old_view.subrange(0, j as int), xv, friend_le())
                + old_view.subrange(j as int, old_view.len() as int),
            j == 0 || lex_le(old_view[j - 1].peer_id, xv.peer_id),
        decreases j,
    {
        if j == 0 {
            break;
        }
        let other = chars_of(friends[j - 1].peer_id.as_str());
        assert(other@ == old_view[j - 1].peer_id);
        if lex_le_exec(&other, &key) {
            break;
        }
        proof {
            let pre = old_view.subrange(0, j as int);
            assert(pre.last() == old_view[j - 1]);
            assert(pre.drop_last() =~= old_view.subrange(0, j - 1));
            assert(insert_by(pre, xv, friend_le()) == insert_by(old_view.subrange(0, j - 1), xv, friend_le()).push(
                old_view[j - 1],
            ));
            assert(insert_by(old_view.subrange(0, j - 1), xv, friend_le()).push(old_view[j - 1])
                + old_view.subrange(j as int, old_view.len() as int) =~= insert_by(
                old_view.subrange(0, j - 1),
                xv,
                friend_le(),
            ) + old_view.subrange(j - 1, old_view.len() as int));
        }
        j = j - 1;
    }
    proof {
        let pre = old_view.subrange(0, j as int);
        if j > 0 {
            assert(pre.last() == old_view[j - 1]);
        }
        assert(insert_by(pre, xv, friend_le()) =~= pre.push(xv));
    }
    friends.insert(j, x);
    assert(contacts(friends@) =~= old_view.subrange(0, j as int).push(xv) + old_view.subrange(
        j as int,
        old_view.len() as int,
    ));
}

/// The friends in the order of a stable sort by peer ID.
fn sort_friends(friends: Vec<FriendContactV1>) -> (r: Vec<FriendContactV1>)
    ensures
        contacts(r@) == sort_by(contacts(friends@), friend_le()),
{
    let ghost input = contacts(friends@);
    let mut sorted: Vec<FriendContactV1> = Vec::new();
    let mut rest = friends;
    let mut taken: usize = 0;
    let count = rest.len();
    assert(input.len() == count);
    while rest.len() > 0
        invariant
            taken + rest@.len() == input.len(),
            input.len() <= usize::MAX,
            contacts(rest@) =~= input.subrange(taken as int, input.len() as int),
            contacts(sorted@) == sort_by(input.subrange(0, taken as int), friend_le()),
        decreases rest@.len(),
    {
        let ghost before = rest@;
        let x = rest.remove(0);
        proof {
            assert(contacts(rest@) =~= contacts(before).drop_first());
            assert(input.subrange(0, taken + 1).drop_last() =~= input.subrange(0, taken as int));
            assert(input.subrange(0, taken + 1).last() == input[taken as int]);
            assert(contacts(before)[0] == input[taken as int]);
        }
        insert_friend(&mut sorted, x);
        taken = taken + 1;
    }
    assert(input.subrange(0, input.len() as int) =~= input);
    sorted
}

/// A stored friend list of the current version, sorted by peer ID with a
/// repeated identity kept once; another version is refused.
pub fn load_friend_store(version: u16, friends: Vec<FriendContactV1>) -> (r: Result<Vec<FriendContactV1>, FriendError>)
    ensures
        version != FRIENDS_FILE_VERSION ==> r == Err::<Vec<FriendContactV1>, FriendError>(
            FriendError::UnsupportedVersion(version),
        ),
        version == FRIENDS_FILE_VERSION ==> (r matches Ok(v) && contacts(v@) == dedup_identities(
            sort_by(contacts(friends@), friend_le()),
        )),
{
    if version != FRIENDS_FILE_VERSION {
        return Err(FriendError::UnsupportedVersion(version));
    }
    let sorted = sort_friends(friends);
    let ghost all = contacts(sorted@);
    let mut out: Vec<FriendContactV1> = Vec::new();
    let mut i: usize = 0;
    while i < sorted.len()
        invariant
            i <= sorted@.len(),
            all == contacts(sorted@),
            contacts(out@) == dedup_identities(all.subrange(0, i as int)),
        decreases sorted@.len() - i,
    {
        proof {
            let pre = all.subrange(0, i + 1);
            assert(pre.drop_last() =~= all.subrange(0, i as int));
            assert(pre.last() == all[i as int]);
        }
        let keep = if out.len() == 0 {
            true
        } else {
            let last = out.len() - 1;
            !(out[last].peer_id == sorted[i].peer_id && out[last].public_key_hex == sorted[i].public_key_hex)
        };
        if keep {
            out.push(copy_contact(&sorted[i]));
            assert(contacts(out@) =~= contacts(out@).drop_last().push(all[i as int]));
        }
        i = i + 1;
    }
    assert(all.subrange(0, all.len() as int) =~= all);
    Ok(out)
}

/// What adding a friend does to the store: the trimmed label must fit in
/// `MAX_FRIEND_LABEL_BYTES` bytes; a known peer ID with the same key gets the
/// new label, and with another key is refused; an unknown peer ID is added,
/// accepted at `now`, keeping the store in peer-ID order. The store and the
/// contact, or the error.
pub open spec fn add_friend_spec(
    friends: Seq<FriendContactView>,
    peer: Seq<char>,
    key: Seq<char>,
    label: Seq<char>,
    now: u64,
) -> Result<(Seq<FriendContactView>, FriendContactView), FriendError> {
    let label = trim_spec(label);
    if encode_utf8(label).len() > MAX_FRIEND_LABEL_BYTES {
        Err(FriendError::LabelTooLong)
    } else {
        match first_friend(friends, peer, 0) {
            Some(i) => if friends[i].public_key_hex != key {
                Err(FriendError::IdentityCollision)
            } else {
                let updated = FriendContactView { label, ..friends[i] };
                Ok((friends.update(i, updated), updated))
            },
            None => {
                let contact = FriendContactView { peer_id: peer, public_key_hex: key, label, accepted_unix_ms: now };
                Ok((sort_by(friends.push(contact), friend_le()), contact))
            },
        }
    }
}

/// Adds a friend to the store, or relabels it; `now_unix_ms` is the time of
/// acceptance of a new friend. The store is unchanged on an error.
pub fn add_friend(
    friends: &mut Vec<FriendContactV1>,
    peer_id: &String,
    public_key_hex: &String,
    label: &str,
    now_unix_ms: u64,
) -> (r: Result<FriendContactV1, FriendError>)
    ensures
        match add_friend_spec(contacts(old(friends)@), peer_id@, public_key_hex@, label@, now_unix_ms) {
            Ok((store, contact)) => r matches Ok(c) && c@ == contact && contacts(final(friends)@) == store,
            Err(e) => r matches Err(x) && x == e && final(friends)@ == old(friends)@,
        },
{
    let ghost before = contacts(friends@);
    let trimmed = trim(label);
    let label_chars = chars_of(trimmed.as_str());
    if utf8_length(&label_chars) > MAX_FRIEND_LABEL_BYTES as u128 {
        return Err(FriendError::LabelTooLong);
    }
    proof {
        lemma_first_friend_bounds(before, peer_id@, 0);
    }
    let mut i: usize = 0;
    while i < friends.len()
        invariant
            i <= friends@.len(),
            friends@ == old(friends)@,
            before == contacts(old(friends)@),
            contacts(friends@) == before,
            trimmed@ == trim_spec(label@),
            encode_utf8(trimmed@).len() <= MAX_FRIEND_LABEL_BYTES,
            first_friend(before, peer_id@, 0) == first_friend(before, peer_id@, i as int),
        decreases friends@.len() - i,
    {
        if friends[i].peer_id == *peer_id {
            assert(first_friend(before, peer_id@, i as int) == Some(i as int));
            if !(friends[i].public_key_hex == *public_key_hex) {
                return Err(FriendError::IdentityCollision);
            }
            let updated = FriendContactV1 {
                peer_id: friends[i].peer_id.clone(),
                public_key_hex: friends[i].public_key_hex.clone(),
                label: trimmed,
                accepted_unix_ms: friends[i].accepted_unix_ms,
            };
            let result = copy_contact(&updated);
            friends.set(i, updated);
            assert(contacts(friends@) =~= before.update(i as int, result@));
            return Ok(result);
        }
        i = i + 1;
    }
    let contact = FriendContactV1 {
        peer_id: peer_id.clone(),
        public_key_hex: public_key_hex.clone(),
        label: trimmed,
        accepted_unix_ms: now_unix_ms,
    };
    let result = copy_contact(&contact);
    let mut all = Vec::new();
    all.append(friends);
    all.push(contact);
    assert(contacts(all@) =~= before.push(result@));
    let sorted = sort_friends(all);
    *friends = sorted;
    Ok(result)
}

/// The entries for other peers than `peer`, in order.
pub open spec fn friends_without(friends: Seq<FriendContactView>, peer: Seq<char>) -> Seq<FriendContactView> {
    friends.filter(|f: FriendContactView| f.peer_id != peer)
}

/// Removes every entry for `peer_id`, keeping the others in order; whether
/// any was there.
pub fn remove_friend(friends: &mut Vec<FriendContactV1>, peer_id: &String) -> (r: bool)
    ensures
        contacts(final(friends)@) == friends_without(contacts(old(friends)@), peer_id@),
        r == exists|i: int| 0 <= i < old(friends)@.len() && (#[trigger] old(friends)@[i]).peer_id@ == peer_id@,
{
    let ghost before = contacts(friends@);
    let mut kept: Vec<FriendContactV1> = Vec::new();
    let mut removed = false;
    let mut i: usize = 0;
    while i < friends.len()
        invariant
            i <= friends@.len(),
            contacts(friends@) == before,
            contacts(kept@) == friends_without(before.subrange(0, i as int), peer_id@),
            removed == exists|k: int| 0 <= k < i && (#[trigger] friends@[k]).peer_id@ == peer_id@,
        decreases friends@.len() - i,
    {
        proof {
            reveal(Seq::filter);
            assert(before.subrange(0, i + 1).drop_last() =~= before.subrange(0, i as int));
            assert(before.subrange(0, i + 1).last() == before[i as int]);
        }
        if friends[i].peer_id == *peer_id {
            removed = true;
        } else {
            kept.push(copy_contact(&friends[i]));
            assert(contacts(kept@) =~= contacts(kept@).drop_last().push(before[i as int]));
        }
        i = i + 1;
    }
    assert(before.subrange(0, before.len() as int) =~= before);
    *friends = kept;
    removed
}

proof fn lemma_friend_le_total_preorder()
    ensures
        total_preorder(friend_le()),
{
    assert forall|a: FriendContactView, b: FriendContactView| #[trigger] friend_le()(a, b) || friend_le()(b, a) by {
        lemma_lex_total(a.peer_id, b.peer_id);
    }
    assert forall|a: FriendContactView, b: FriendContactView, c: FriendContactView|
        #[trigger] friend_le()(a, b) && #[trigger] friend_le()(b, c) implies friend_le()(a, c) by {
        lemma_lex_transitive(a.peer_id, b.peer_id, c.peer_id);
    }
}

proof fn lemma_dedup_identities_sorted(s: Seq<FriendContactView>)
    requires
        sorted_by(s, friend_le()),
    ensures
        sorted_by(dedup_identities(s), friend_le()),
        forall|k: int| 0 <= k < dedup_identities(s).len() ==> s.contains(#[trigger] dedup_identities(s)[k]),
    decreases s.len(),
{
    if s.len() > 0 {
        let front = s.drop_last();
        assert forall|i: int, j: int| 0 <= i < j < front.len() implies friend_le()(
            #[trigger] front[i],
            #[trigger] front[j],
        ) by {
            assert(front[i] == s[i] && front[j] == s[j]);
        }
        lemma_dedup_identities_sorted(front);
        let kept = dedup_identities(front);
        let r = dedup_identities(s);
        assert forall|k: int| 0 <= k < kept.len() implies s.contains(#[trigger] kept[k]) by {
            let m = choose|m: int| 0 <= m < front.len() && front[m] == kept[k];
            assert(s[m] == kept[k]);
        }
        if !(kept.len() > 0 && same_identity(kept.last(), s.last())) {
            assert(r == kept.push(s.last()));
            assert forall|i: int, j: int| 0 <= i < j < r.len() implies friend_le()(#[trigger] r[i], #[trigger] r[j]) by {
                assert(r[i] == kept[i]);
                if j == r.len() - 1 {
                    let m = choose|m: int| 0 <= m < front.len() && front[m] == kept[i];
                    assert(front[m] == s[m]);
                    assert(friend_le()(s[m], s[s.len() - 1]));
                } else {
                    assert(r[j] == kept[j]);
                }
            }
            assert forall|k: int| 0 <= k < r.len() implies s.contains(#[trigger] r[k]) by {
                if k == r.len() - 1 {
                    assert(s[s.len() - 1] == r[k]);
                } else {
                    assert(r[k] == kept[k]);
                }
            }
        }
    }
}

/// A loaded friend list is in peer-ID order.
pub proof fn lemma_loaded_friends_are_ordered(friends: Seq<FriendContactView>)
    ensures
        sorted_by(dedup_identities(sort_by(friends, friend_le())), friend_le()),
{
    lemma_friend_le_total_preorder();
    lemma_sort_by_sorted(friends, friend_le());
    lemma_dedup_identities_sorted(sort_by(friends, friend_le()));
}

/// Adding a friend to a store in peer-ID order leaves it in that order and
/// holds the contact under the given peer ID and key, with the trimmed label.
pub proof fn lemma_added_friend_is_stored_in_order(
    friends: Seq<FriendContactView>,
    peer: Seq<char>,
    key: Seq<char>,
    label: Seq<char>,
    now: u64,
)
    requires
        sorted_by(friends, friend_le()),
        add_friend_spec(friends, peer, key, label, now) is Ok,
    ensures
        add_friend_spec(friends, peer, key, label, now) matches Ok((store, contact)) && sorted_by(store, friend_le())
            && store.contains(contact) && contact.peer_id == peer && contact.public_key_hex == key && contact.label
            == trim_spec(label),
{
    lemma_friend_le_total_preorder();
    lemma_first_friend_bounds(friends, peer, 0);
    match first_friend(friends, peer, 0) {
        Some(i) => {
            let updated = FriendContactView { label: trim_spec(label), ..friends[i] };
            let store = friends.update(i, updated);
            assert(store[i] == updated);
            assert forall|a: int, b: int| 0 <= a < b < store.len() implies friend_le()(
                #[trigger] store[a],
                #[trigger] store[b],
            ) by {
                assert(friend_le()(friends[a], friends[b]));
            }
        },
        None => {
            let contact = FriendContactView { peer_id: peer, public_key_hex: key, label: trim_spec(label), accepted_unix_ms: now };
            let all = friends.push(contact);
            lemma_sort_by_sorted(all, friend_le());
            lemma_sort_by_multiset(all, friend_le());
            broadcast use vstd::seq_lib::group_to_multiset_ensures;
            assert(all[all.len() - 1] == contact);
            assert(all.contains(contact));
            assert(all.to_multiset().count(contact) > 0);
            assert(sort_by(all, friend_le()).to_multiset().count(contact) > 0);
        },
    }
}

/// Removing a friend leaves no entry for its peer ID, and a store in peer-ID
/// order stays in that order.
pub proof fn lemma_removed_friend_is_gone(friends: Seq<FriendContactView>, peer: Seq<char>)
    ensures
        forall|k: int| 0 <= k < friends_without(friends, peer).len() ==> (#[trigger] friends_without(friends, peer)[k]).peer_id
            != peer,
        sorted_by(friends, friend_le()) ==> sorted_by(friends_without(friends, peer), friend_le()),
{
    broadcast use vstd::seq_lib::group_filter_ensures;
    if sorted_by(friends, friend_le()) {
        lemma_filter_sorted(friends, |f: FriendContactView| f.peer_id != peer, friend_le());
    }
}

// ---------------------------------------------------------------------------
// Freshness votes
// ---------------------------------------------------------------------------

/// Takes a verified freshness vote from `voter` into the votes held for a
/// candidate world: one vote per voter, at most `max_votes`, kept in voter
/// order. Whether it was taken.
pub fn admit_freshness_vote(voters: &mut Vec<String>, voter: &String, max_votes: usize) -> (r: bool)
    ensures
        r == (old(voters)@.len() < max_votes && !texts_of(old(voters)@).contains(voter@)),
        r ==> texts_of(final(voters)@) == sort_by(texts_of(old(voters)@).push(voter@), text_le()),
        !r ==> final(voters)@ == old(voters)@,
{
    if voters.len() >= max_votes {
        return false;
    }
    let ghost before = texts_of(voters@);
    let mut i: usize = 0;
    while i < voters.len()
        invariant
            i <= voters@.len(),
            before == texts_of(voters@),
            forall|k: int| 0 <= k < i ==> before[k] != voter@,
        decreases voters@.len() - i,
    {
        if voters[i] == *voter {
            assert(before[i as int] == voter@);
            return false;
        }
        i = i + 1;
    }
    let mut all: Vec<String> = Vec::new();
    all.append(voters);
    all.push(voter.clone());
    assert(texts_of(all@) =~= before.push(voter@));
    *voters = sort_texts(all);
    true
}

// ---------------------------------------------------------------------------
// Search results
// ---------------------------------------------------------------------------

/// Search results are ordered by their lowercased names, then by world id;
/// `a` may come first when it is not above `b` in that order.
pub open spec fn card_le() -> spec_fn(WorldDiscoveryCardV1, WorldDiscoveryCardV1) -> bool {
    |a: WorldDiscoveryCardV1, b: WorldDiscoveryCardV1|
        {
            let la = unicode_lowercase(a.name@);
            let lb = unicode_lowercase(b.name@);
            (lex_le(la, lb) && la != lb) || (la == lb && lex_le(a.world_id@, b.world_id@))
        }
}

fn card_not_above(a: &WorldDiscoveryCardV1, b: &WorldDiscoveryCardV1) -> (r: bool)
    ensures
        r == card_le()(*a, *b),
{
    let la = to_lowercase(a.name.as_str());
    let lb = to_lowercase(b.name.as_str());
    if la == lb {
        lex_le_exec(&chars_of(a.world_id.as_str()), &chars_of(b.world_id.as_str()))
    } else {
        lex_le_exec(&chars_of(la.as_str()), &chars_of(lb.as_str()))
    }
}

fn insert_card(cards: &mut Vec<WorldDiscoveryCardV1>, x: WorldDiscoveryCardV1)
    ensures
        final(cards)@ == insert_by(old(cards)@, x, card_le()),
{
    let ghost old_view = cards@;
    let mut j: usize = cards.len();
    assert(old_view.subrange(0, old_view.len() as int) =~= old_view);
    assert(insert_by(old_view, x, card_le()) + old_view.subrange(old_view.len() as int, old_view.len() as int)
        =~= insert_by(old_view, x, card_le()));
    loop
        invariant
            j <= cards@.len(),
            cards@ == old_view,
            insert_by(old_view, x, card_le()) == insert_by(old_view.subrange(0, j as int), x, card_le())
                + old_view.subrange(j as int, old_view.len() as int),
        ensures
            j <= cards@.len(),
            cards@ == old_view,
            insert_by(old_view, x, card_le()) == insert_by(old_view.subrange(0, j as int), x, card_le())
                + old_view.subrange(j as int, old_view.len() as int),
            j == 0 || card_le()(old_view[j - 1], x),
        decreases j,
    {
        if j == 0 {
            break;
        }
        if card_not_above(&cards[j - 1], &x) {
            break;
        }
        proof {
            let pre = old_view.subrange(0, j as int);
            assert(pre.last() == old_view[j - 1]);
            assert(pre.drop_last() =~= old_view.subrange(0, j - 1));
            assert(insert_by(pre, x, card_le()) == insert_by(old_view.subrange(0, j - 1), x, card_le()).push(
                old_view[j - 1],
            ));
            assert(insert_by(old_view.subrange(0, j - 1), x, card_le()).push(old_view[j - 1])
                + old_view.subrange(j as int, old_view.len() as int) =~= insert_by(
                old_view.subrange(0, j - 1),
                x,
                card_le(),
            ) + old_view.subrange(j - 1, old_view.len() as int));
        }
        j = j - 1;
    }
    proof {
        let pre = old_view.subrange(0, j as int);
        if j > 0 {
            assert(pre.last() == old_view[j - 1]);
        }
        assert(insert_by(pre, x, card_le()) =~= pre.push(x));
    }
    cards.insert(j, x);
    assert(cards@ =~= old_view.subrange(0, j as int).push(x) + old_view.subrange(j as int, old_view.len() as int));
}

proof fn lemma_card_le_total_preorder()
    ensures
        crate::text::total_preorder(card_le()),
{
    assert forall|a: WorldDiscoveryCardV1, b: WorldDiscoveryCardV1| #[trigger] card_le()(a, b) || card_le()(b, a) by {
        lemma_lex_total(unicode_lowercase(a.name@), unicode_lowercase(b.name@));
        lemma_lex_total(a.world_id@, b.world_id@);
    }
    assert forall|a: WorldDiscoveryCardV1, b: WorldDiscoveryCardV1, c: WorldDiscoveryCardV1|
        #[trigger] card_le()(a, b) && #[trigger] card_le()(b, c) implies card_le()(a, c) by {
        let la = unicode_lowercase(a.name@);
        let lb = unicode_lowercase(b.name@);
        let lc = unicode_lowercase(c.name@);
        if lex_le(la, lb) && lex_le(lb, lc) {
            lemma_lex_transitive(la, lb, lc);
            if la == lc {
                crate::text::lemma_lex_antisymmetric(la, lb);
            }
        }
        if la == lb && lb == lc {
            lemma_lex_transitive(a.world_id@, b.world_id@, c.world_id@);
        }
    }
}

/// Search results are shown ordered by name without regard to case, and
/// by world id between equal names; they are the given cards, rearranged.
pub proof fn lemma_search_results_ordered_by_name_then_id(cards: Seq<WorldDiscoveryCardV1>)
    ensures
        sort_by(cards, card_le()).to_multiset() =~= cards.to_multiset(),
        forall|i: int, j: int|
            0 <= i < j < sort_by(cards, card_le()).len() ==> {
                let a = #[trigger] sort_by(cards, card_le())[i];
                let b = #[trigger] sort_by(cards, card_le())[j];
                let la = unicode_lowercase(a.name@);
                let lb = unicode_lowercase(b.name@);
                ||| lex_le(la, lb) && la != lb
                ||| la == lb && lex_le(a.world_id@, b.world_id@)
            },
{
    lemma_card_le_total_preorder();
    lemma_sort_by_sorted(cards, card_le());
    lemma_sort_by_multiset(cards, card_le());
    let sorted = sort_by(cards, card_le());
    assert forall|i: int, j: int| 0 <= i < j < sorted.len() implies {
        let a = #[trigger] sorted[i];
        let b = #[trigger] sorted[j];
        let la = unicode_lowercase(a.name@);
        let lb = unicode_lowercase(b.name@);
        ||| lex_le(la, lb) && la != lb
        ||| la == lb && lex_le(a.world_id@, b.world_id@)
    } by {
        assert(card_le()(sorted[i], sorted[j]));
    }
}

/// The fresh search results in the order shown to the user, cut to the
/// search's limit clamped into `1..=max_results`.
pub fn order_search_results(cards: Vec<WorldDiscoveryCardV1>, limit: u16, max_results: u16) -> (r: Vec<
    WorldDiscoveryCardV1,
>)
    requires
        max_results >= 1,
    ensures
        ({
            let sorted = sort_by(cards@, card_le());
            let n = clamp_spec(limit, max_results) as int;
            r@ == if n < sorted.len() {
                sorted.subrange(0, n)
            } else {
                sorted
            }
        }),
{
    let ghost input = cards@;
    let mut sorted: Vec<WorldDiscoveryCardV1> = Vec::new();
    let mut rest = cards;
    let mut taken: usize = 0;
    let count = rest.len();
    assert(input.len() == count);
    while rest.len() > 0
        invariant
            taken + rest@.len() == input.len(),
            input.len() <= usize::MAX,
            rest@ =~= input.subrange(taken as int, input.len() as int),
            sorted@ == sort_by(input.subrange(0, taken as int), card_le()),
        decreases rest@.len(),
    {
        let ghost before = rest@;
        let x = rest.remove(0);
        proof {
            assert(input.subrange(0, taken + 1).drop_last() =~= input.subrange(0, taken as int));
            assert(input.subrange(0, taken + 1).last() == input[taken as int]);
        }
        insert_card(&mut sorted, x);
        taken = taken + 1;
    }
    assert(input.subrange(0, input.len() as int) =~= input);
    let n: u16 = if limit < 1 {
        1
    } else if limit > max_results {
        max_results
    } else {
        limit
    };
    sorted.truncate(n as usize);
    sorted
}

/// How a public search went.
#[derive(Debug, Clone, Copy, PartialEq, Eq, Structural)]
pub enum SearchState {
    /// Results, and no answer refused.
    Complete,
    Empty,
    ProviderUnavailable,
    NetworkUnavailable,
    Partial,
}

/// No provider seen is a network failure where the network reported one,
/// else a missing provider; otherwise any rejected answer makes the search
/// partial, and no results make it empty.
pub fn search_state(providers_seen: usize, network_error: bool, results: usize, rejected_invalid: usize, rejected_stale: usize) -> (r:
    SearchState)
    ensures
        r == (if providers_seen == 0 {
            if network_error {
                SearchState::NetworkUnavailable
            } else {
                SearchState::ProviderUnavailable
            }
        } else if rejected_invalid > 0 || rejected_stale > 0 {
            SearchState::Partial
        } else if results == 0 {
            SearchState::Empty
        } else {
            SearchState::Complete
        }),
{
    if providers_seen == 0 {
        if network_error {
            SearchState::NetworkUnavailable
        } else {
            SearchState::ProviderUnavailable
        }
    } else if results == 0 {
        if rejected_invalid > 0 || rejected_stale > 0 {
            SearchState::Partial
        } else {
            SearchState::Empty
        }
    } else if rejected_invalid > 0 || rejected_stale > 0 {
        SearchState::Partial
    } else {
        SearchState::Complete
    }
}

/// The report's name for a search state.
pub fn search_state_label(state: SearchState) -> (r: String)
    ensures
        state == SearchState::Complete ==> r@ == "ok"@,
        state == SearchState::Empty ==> r@ == "empty"@,
        state == SearchState::ProviderUnavailable ==> r@ == "provider_unavailable"@,
        state == SearchState::NetworkUnavailable ==> r@ == "network_unavailable"@,
        state == SearchState::Partial ==> r@ == "partial"@,
{
    match state {
        SearchState::Complete => String::from_str("ok"),
        SearchState::Empty => String::from_str("empty"),
        SearchState::ProviderUnavailable => String::from_str("provider_unavailable"),
        SearchState::NetworkUnavailable => String::from_str("network_unavailable"),
        SearchState::Partial => String::from_str("partial"),
    }
}

/// How resolving one world went.
#[derive(Debug, Clone, Copy, PartialEq, Eq, Structural)]
pub enum ResolveState {
    Found,
    NotFound,
    ProviderUnavailable,
    NetworkUnavailable,
    Stale,
    Invalid,
}

/// A proved fresh announcement is found; otherwise a stale answer outranks
/// an invalid one, and with neither the search reports missing providers,
/// or that the world was not found.
pub fn resolve_state(found: bool, stale: bool, invalid: bool, providers_seen: usize, network_error: bool) -> (r:
    ResolveState)
    ensures
        r == (if found {
            ResolveState::Found
        } else if stale {
            ResolveState::Stale
        } else if invalid {
            ResolveState::Invalid
        } else if providers_seen == 0 {
            if network_error {
                ResolveState::NetworkUnavailable
            } else {
                ResolveState::ProviderUnavailable
            }
        } else {
            ResolveState::NotFound
        }),
{
    if found {
        ResolveState::Found
    } else if stale {
        ResolveState::Stale
    } else if invalid {
        ResolveState::Invalid
    } else if providers_seen == 0 {
        if network_error {
            ResolveState::NetworkUnavailable
        } else {
            ResolveState::ProviderUnavailable
        }
    } else {
        ResolveState::NotFound
    }
}

/// The report's name for a resolve state.
pub fn resolve_state_label(state: ResolveState) -> (r: String)
    ensures
        state == ResolveState::Found ==> r@ == "found"@,
        state == ResolveState::NotFound ==> r@ == "not_found"@,
        state == ResolveState::ProviderUnavailable ==> r@ == "provider_unavailable"@,
        state == ResolveState::NetworkUnavailable ==> r@ == "network_unavailable"@,
        state == ResolveState::Stale ==> r@ == "stale"@,
        state == ResolveState::Invalid ==> r@ == "invalid"@,
{
    match state {
        ResolveState::Found => String::from_str("found"),
        ResolveState::NotFound => String::from_str("not_found"),
        ResolveState::ProviderUnavailable => String::from_str("provider_unavailable"),
        ResolveState::NetworkUnavailable => String::from_str("network_unavailable"),
        ResolveState::Stale => String::from_str("stale"),
        ResolveState::Invalid => String::from_str("invalid"),
    }
}

// ---------------------------------------------------------------------------
// Friend presence
// ---------------------------------------------------------------------------

/// The position of the stored friend with `peer`'s id, the first one.
pub fn find_friend(friends: &[FriendContactV1], peer: &String) -> (r: Option<usize>)
    ensures
        match first_friend(contacts(friends@), peer@, 0) {
            Some(i) => r matches Some(k) && k as int == i && i < friends@.len(),
            None => r is None,
        },
{
    let ghost all = contacts(friends@);
    proof {
        lemma_first_friend_bounds(all, peer@, 0);
    }
    let mut i: usize = 0;
    while i < friends.len()
        invariant
            i <= friends@.len(),
            all == contacts(friends@),
            first_friend(all, peer@, 0) == first_friend(all, peer@, i as int),
        decreases friends@.len() - i,
    {
        if friends[i].peer_id == *peer {
            assert(all[i as int].peer_id == peer@);
            return Some(i);
        }
        i = i + 1;
    }
    None
}

/// What the check of a signed presence record found.
#[derive(Debug, Clone, Copy, PartialEq, Eq, Structural)]
pub enum PresenceCheck {
    /// Authentic, for this requester and nonce, and not expired.
    Verified,
    /// Authentic but expired.
    Expired,
    /// Anything else wrong with it.
    Rejected,
}

/// A friend's presence as reported to the user.
#[derive(Debug, Clone, Copy, PartialEq, Eq, Structural)]
pub enum PresenceState {
    Online,
    Offline,
    NetworkUnavailable,
    Stale,
    Invalid,
}

/// A presence answer makes the friend online only when it checks out and
/// carries the stored key; an expired one is stale, anything else invalid.
pub fn answered_presence_state(check: PresenceCheck, key_matches: bool) -> (r: PresenceState)
    ensures
        r == (match check {
            PresenceCheck::Verified => if key_matches {
                PresenceState::Online
            } else {
                PresenceState::Invalid
            },
            PresenceCheck::Expired => PresenceState::Stale,
            PresenceCheck::Rejected => PresenceState::Invalid,
        }),
{
    match check {
        PresenceCheck::Verified => {
            if key_matches {
                PresenceState::Online
            } else {
                PresenceState::Invalid
            }
        },
        PresenceCheck::Expired => PresenceState::Stale,
        PresenceCheck::Rejected => PresenceState::Invalid,
    }
}

/// Without an answer the friend is offline, unless no provider was found
/// and the network reported an error.
pub fn unanswered_presence_state(providers_seen: usize, network_error: bool) -> (r: PresenceState)
    ensures
        r == (if providers_seen == 0 && network_error {
            PresenceState::NetworkUnavailable
        } else {
            PresenceState::Offline
        }),
{
    if providers_seen == 0 && network_error {
        PresenceState::NetworkUnavailable
    } else {
        PresenceState::Offline
    }
}

/// The report's name for a presence state.
pub fn presence_state_label(state: PresenceState) -> (r: String)
    ensures
        state == PresenceState::Online ==> r@ == "online"@,
        state == PresenceState::Offline ==> r@ == "offline"@,
        state == PresenceState::NetworkUnavailable ==> r@ == "network_unavailable"@,
        state == PresenceState::Stale ==> r@ == "stale"@,
        state == PresenceState::Invalid ==> r@ == "invalid"@,
{
    match state {
        PresenceState::Online => String::from_str("online"),
        PresenceState::Offline => String::from_str("offline"),
        PresenceState::NetworkUnavailable => String::from_str("network_unavailable"),
        PresenceState::Stale => String::from_str("stale"),
        PresenceState::Invalid => String::from_str("invalid"),
    }
}

// ---------------------------------------------------------------------------
// Publications
// ---------------------------------------------------------------------------

/// `members` lists this device, with its key, unbanned.
pub open spec fn lists_active_member(members: Seq<MemberEntry>, peer: Seq<char>, key: Seq<char>) -> bool {
    exists|i: int|
        0 <= i < members.len() && (#[trigger] members[i]).peer_id@ == peer && members[i].public_key@ == key
            && !members[i].banned
}

/// Whether `members` lists this device, with its key, unbanned.
pub fn is_active_member(members: &[MemberEntry], peer: &String, key: &String) -> (r: bool)
    ensures
        r == lists_active_member(members@, peer@, key@),
{
    let mut i: usize = 0;
    while i < members.len()
        invariant
            i <= members@.len(),
            forall|k: int|
                0 <= k < i ==> !((#[trigger] members@[k]).peer_id@ == peer@ && members@[k].public_key@ == key@
                    && !members@[k].banned),
        decreases members@.len() - i,
    {
        if members[i].peer_id == *peer && members[i].public_key == *key && !members[i].banned {
            return true;
        }
        i = i + 1;
    }
    false
}

/// What this device publishes for one of its worlds.
#[derive(Debug, Clone, Copy, PartialEq, Eq, Structural)]
pub enum Publication {
    /// Nothing.
    Hidden,
    /// It provides the world under its exact key, as a locator only.
    Provided,
    /// It also signs and announces the world, as its authority.
    Announced,
}

/// A world is published by a current or promised member, unless it is
/// private; it is announced only by a current member that is the authority
/// of the world's epoch. `local_is_epoch_authority` is `None` where the
/// epoch record cannot be read.
pub fn world_publication(
    local_current: bool,
    local_pending: bool,
    visibility: WorldVisibility,
    local_is_epoch_authority: Option<bool>,
) -> (r: Publication)
    ensures
        r == (if !local_current && !local_pending || visibility == WorldVisibility::Private {
            Publication::Hidden
        } else if local_current && local_is_epoch_authority == Some(true) {
            Publication::Announced
        } else {
            Publication::Provided
        }),
{
    if !local_current && !local_pending {
        return Publication::Hidden;
    }
    match visibility {
        WorldVisibility::Private => {
            return Publication::Hidden;
        },
        _ => {},
    }
    match local_is_epoch_authority {
        None => Publication::Provided,
        Some(is_authority) => {
            if !local_current || !is_authority {
                Publication::Provided
            } else {
                Publication::Announced
            }
        },
    }
}

} // verus!
