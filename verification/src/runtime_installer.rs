//! Runtime preparation: the status model of the managed Minecraft/Fabric
//! runtime, the repair plan derived from it, and the small parsers and
//! source checks used while resolving artifacts.
use vstd::prelude::*;
use crate::text::{
    chars_of, eq_ignore_ascii_case, eq_ignore_ascii_case_spec, find_chars, find_from, first_piece,
    first_sep, parse_u32, parse_u32_spec, push_char, split_chars, split_spec, string_from_chars, sub_vec,
    trim_chars, trim_spec, views, is_white_space, is_whitespace, trim_start_index,
};

verus! {

#[derive(Debug, Clone, Copy, PartialEq, Eq, Structural)]
pub enum RuntimeComponentKind {
    Java,
    MinecraftServer,
    FabricLoader,
    FabricApi,
    SwarmcraftFabric,
    ServerDirectories,
    Eula,
    ServerMods,
}

#[derive(Debug, Clone, Copy, PartialEq, Eq, Structural)]
pub enum RuntimeComponentState {
    Ready,
    Missing,
    Incompatible,
    Corrupt,
    Required,
    Unavailable,
}

pub struct RuntimeComponentStatus {
    pub kind: RuntimeComponentKind,
    pub state: RuntimeComponentState,
    pub version: Option<String>,
    pub path: Option<String>,
    pub managed: bool,
    pub detail: Option<String>,
}

pub struct RuntimeStatus {
    pub world_id: String,
    pub minecraft_version: String,
    pub fabric_loader_version: String,
    pub required_java_major: u32,
    pub ready: bool,
    pub eula_accepted: bool,
    pub launch_configured: bool,
    pub manual_configuration: bool,
    pub components: Vec<RuntimeComponentStatus>,
}

#[derive(Debug, Clone, Copy, PartialEq, Eq, Structural)]
pub enum RuntimePhase {
    Checking,
    DownloadingJava,
    DownloadingServer,
    InstallingFabric,
    InstallingFabricApi,
    InstallingSwarmcraftMod,
    PreparingDirectories,
    WaitingForEula,
    Verifying,
    Ready,
    Failed,
}

pub struct RuntimeProgress {
    pub phase: RuntimePhase,
    pub message: String,
}

pub struct RuntimePlanAction {
    pub phase: RuntimePhase,
    pub component: Option<RuntimeComponentKind>,
    pub description: String,
    pub requires_network: bool,
    pub requires_eula_acceptance: bool,
}

pub struct RuntimePlan {
    pub world_id: String,
    pub ready: bool,
    pub actions: Vec<RuntimePlanAction>,
}

pub struct RuntimeInstallOptions {
    pub accept_eula: bool,
    pub game_endpoint: Option<String>,
}

pub struct RuntimeInstallReport {
    pub status: RuntimeStatus,
    pub completed_phases: Vec<RuntimePhase>,
    pub launch_config_saved: bool,
}

/// Every platform component is ready; the EULA is judged separately.
pub open spec fn platform_components_ready_spec(components: Seq<RuntimeComponentStatus>) -> bool {
    forall|i: int|
        0 <= i < components.len() ==> (#[trigger] components[i]).kind == RuntimeComponentKind::Eula
            || components[i].state == RuntimeComponentState::Ready
}

/// Whether every component other than the EULA is ready.
pub fn platform_components_ready(status: &RuntimeStatus) -> (r: bool)
    ensures
        r == platform_components_ready_spec(status.components@),
{
    let mut i: usize = 0;
    while i < status.components.len()
        invariant
            i <= status.components@.len(),
            forall|j: int|
                0 <= j < i ==> (#[trigger] status.components@[j]).kind == RuntimeComponentKind::Eula
                    || status.components@[j].state == RuntimeComponentState::Ready,
        decreases status.components@.len() - i,
    {
        let component = &status.components[i];
        if !(component.kind == RuntimeComponentKind::Eula || component.state == RuntimeComponentState::Ready) {
            return false;
        }
        i = i + 1;
    }
    true
}

/// The installation phase that repairs a component, whether it needs the
/// network, and whether it waits for the user to accept the EULA.
pub open spec fn repair_step(kind: RuntimeComponentKind) -> (RuntimePhase, bool, bool) {
    match kind {
        RuntimeComponentKind::Java => (RuntimePhase::DownloadingJava, true, false),
        RuntimeComponentKind::MinecraftServer => (RuntimePhase::DownloadingServer, true, false),
        RuntimeComponentKind::FabricLoader => (RuntimePhase::InstallingFabric, true, false),
        RuntimeComponentKind::FabricApi => (RuntimePhase::InstallingFabricApi, true, false),
        RuntimeComponentKind::SwarmcraftFabric => (RuntimePhase::InstallingSwarmcraftMod, true, false),
        RuntimeComponentKind::ServerDirectories => (RuntimePhase::PreparingDirectories, false, false),
        RuntimeComponentKind::Eula => (RuntimePhase::WaitingForEula, false, true),
        RuntimeComponentKind::ServerMods => (RuntimePhase::Verifying, false, false),
    }
}

/// The name of a component kind as `{:?}` prints it.
pub open spec fn kind_name(kind: RuntimeComponentKind) -> Seq<char> {
    match kind {
        RuntimeComponentKind::Java => seq!['J', 'a', 'v', 'a'],
        RuntimeComponentKind::MinecraftServer => seq!['M', 'i', 'n', 'e', 'c', 'r', 'a', 'f', 't', 'S', 'e', 'r', 'v', 'e', 'r'],
        RuntimeComponentKind::FabricLoader => seq!['F', 'a', 'b', 'r', 'i', 'c', 'L', 'o', 'a', 'd', 'e', 'r'],
        RuntimeComponentKind::FabricApi => seq!['F', 'a', 'b', 'r', 'i', 'c', 'A', 'p', 'i'],
        RuntimeComponentKind::SwarmcraftFabric => seq!['S', 'w', 'a', 'r', 'm', 'c', 'r', 'a', 'f', 't', 'F', 'a', 'b', 'r', 'i', 'c'],
        RuntimeComponentKind::ServerDirectories => seq!['S', 'e', 'r', 'v', 'e', 'r', 'D', 'i', 'r', 'e', 'c', 't', 'o', 'r', 'i', 'e', 's'],
        RuntimeComponentKind::Eula => seq!['E', 'u', 'l', 'a'],
        RuntimeComponentKind::ServerMods => seq!['S', 'e', 'r', 'v', 'e', 'r', 'M', 'o', 'd', 's'],
    }
}

/// The default description of a repair action: "prepare " and the kind.
pub open spec fn default_description(kind: RuntimeComponentKind) -> Seq<char> {
    seq!['p', 'r', 'e', 'p', 'a', 'r', 'e', ' '] + kind_name(kind)
}

fn kind_name_exec(kind: RuntimeComponentKind) -> (r: Vec<char>)
    ensures
        r@ == kind_name(kind),
{
    match kind {
        RuntimeComponentKind::Java => vec!['J', 'a', 'v', 'a'],
        RuntimeComponentKind::MinecraftServer => vec!['M', 'i', 'n', 'e', 'c', 'r', 'a', 'f', 't', 'S', 'e', 'r', 'v', 'e', 'r'],
        RuntimeComponentKind::FabricLoader => vec!['F', 'a', 'b', 'r', 'i', 'c', 'L', 'o', 'a', 'd', 'e', 'r'],
        RuntimeComponentKind::FabricApi => vec!['F', 'a', 'b', 'r', 'i', 'c', 'A', 'p', 'i'],
        RuntimeComponentKind::SwarmcraftFabric => vec!['S', 'w', 'a', 'r', 'm', 'c', 'r', 'a', 'f', 't', 'F', 'a', 'b', 'r', 'i', 'c'],
        RuntimeComponentKind::ServerDirectories => vec!['S', 'e', 'r', 'v', 'e', 'r', 'D', 'i', 'r', 'e', 'c', 't', 'o', 'r', 'i', 'e', 's'],
        RuntimeComponentKind::Eula => vec!['E', 'u', 'l', 'a'],
        RuntimeComponentKind::ServerMods => vec!['S', 'e', 'r', 'v', 'e', 'r', 'M', 'o', 'd', 's'],
    }
}

/// The repair action for one component that is not ready.
pub open spec fn action_matches(action: RuntimePlanAction, component: RuntimeComponentStatus) -> bool {
    let step = repair_step(component.kind);
    &&& action.phase == step.0
    &&& action.component == Some(component.kind)
    &&& action.requires_network == step.1
    &&& action.requires_eula_acceptance == step.2
    &&& action.description@ == match component.detail {
        Some(d) => d@,
        None => default_description(component.kind),
    }
}

/// The components that are not ready, in order.
pub open spec fn unready(components: Seq<RuntimeComponentStatus>) -> Seq<RuntimeComponentStatus>
    decreases components.len(),
{
    if components.len() == 0 {
        seq![]
    } else {
        unready(components.drop_last()) + if components.last().state != RuntimeComponentState::Ready {
            seq![components.last()]
        } else {
            seq![]
        }
    }
}

/// The repair actions for a runtime status: one per component that is not
/// ready, in component order.
pub fn plan_actions(status: &RuntimeStatus) -> (r: Vec<RuntimePlanAction>)
    ensures
        r@.len() == unready(status.components@).len(),
        forall|i: int| 0 <= i < r@.len() ==> action_matches(#[trigger] r@[i], unready(status.components@)[i]),
{
    let mut actions: Vec<RuntimePlanAction> = Vec::new();
    let mut i: usize = 0;
    let ghost comps = status.components@;
    while i < status.components.len()
        invariant
            comps == status.components@,
            i <= comps.len(),
            actions@.len() == unready(comps.subrange(0, i as int)).len(),
            forall|k: int| 0 <= k < actions@.len() ==> action_matches(#[trigger] actions@[k], unready(comps.subrange(0, i as int))[k]),
        decreases comps.len() - i,
    {
        let component = &status.components[i];
        proof {
            assert(comps.subrange(0, i + 1).drop_last() == comps.subrange(0, i as int));
        }
        if component.state != RuntimeComponentState::Ready {
            let (phase, network, eula) = match component.kind {
                RuntimeComponentKind::Java => (RuntimePhase::DownloadingJava, true, false),
                RuntimeComponentKind::MinecraftServer => (RuntimePhase::DownloadingServer, true, false),
                RuntimeComponentKind::FabricLoader => (RuntimePhase::InstallingFabric, true, false),
                RuntimeComponentKind::FabricApi => (RuntimePhase::InstallingFabricApi, true, false),
                RuntimeComponentKind::SwarmcraftFabric => (RuntimePhase::InstallingSwarmcraftMod, true, false),
                RuntimeComponentKind::ServerDirectories => (RuntimePhase::PreparingDirectories, false, false),
                RuntimeComponentKind::Eula => (RuntimePhase::WaitingForEula, false, true),
                RuntimeComponentKind::ServerMods => (RuntimePhase::Verifying, false, false),
            };
            let description = match &component.detail {
                Some(detail) => detail.clone(),
                None => {
                    let mut text = String::from_str("prepare ");
                    proof {
                        reveal_strlit("prepare ");
                    }
                    let name = kind_name_exec(component.kind);
                    let mut k: usize = 0;
                    let ghost base = text@;
                    while k < name.len()
                        invariant
                            k <= name@.len(),
                            text@ == base + name@.subrange(0, k as int),
                        decreases name@.len() - k,
                    {
                        push_char(&mut text, name[k]);
                        assert(name@.subrange(0, k + 1) == name@.subrange(0, k as int).push(name@[k as int]));
                        k = k + 1;
                    }
                    assert(name@.subrange(0, name@.len() as int) == name@);
                    assert(base == seq!['p', 'r', 'e', 'p', 'a', 'r', 'e', ' ']);
                    assert(text@ == default_description(component.kind));
                    text
                },
            };
            let action = RuntimePlanAction {
                phase,
                component: Some(component.kind),
                description,
                requires_network: network,
                requires_eula_acceptance: eula,
            };
            assert(action_matches(action, comps[i as int]));
            actions.push(action);
        }
        proof {
            assert(comps.subrange(0, i + 1).last() == comps[i as int]);
        }
        i = i + 1;
    }
    assert(comps.subrange(0, comps.len() as int) == comps);
    actions
}

/// The repair plan for a world whose runtime status has been inspected.
pub fn plan_for_status(world_id: String, status: &RuntimeStatus) -> (r: RuntimePlan)
    ensures
        r.world_id == world_id,
        r.ready == status.ready,
        status.ready ==> r.actions@.len() == 0,
        !status.ready ==> r.actions@.len() == unready(status.components@).len()
            && forall|i: int| 0 <= i < r.actions@.len() ==> action_matches(#[trigger] r.actions@[i], unready(status.components@)[i]),
{
    if status.ready {
        return RuntimePlan { world_id, ready: true, actions: Vec::new() };
    }
    RuntimePlan { world_id, ready: false, actions: plan_actions(status) }
}


/// `"1."`.
pub open spec fn legacy_prefix() -> Seq<char> {
    seq!['1', '.']
}

/// The Java feature version in `java -version` output: the number at the
/// start of the first quoted string, after a legacy `1.` prefix if present.
pub open spec fn parse_java_major_spec(text: Seq<char>) -> Option<u32> {
    let pieces = split_spec(text, '"');
    if pieces.len() < 2 {
        None
    } else {
        let quoted = pieces[1];
        if quoted.len() >= 2 && quoted.subrange(0, 2) == legacy_prefix() {
            parse_u32_spec(first_piece(quoted.subrange(2, quoted.len() as int), seq!['.']))
        } else {
            parse_u32_spec(first_piece(quoted, seq!['.', '-']))
        }
    }
}

/// Reads the Java feature version from `java -version` output.
pub fn parse_java_major(text: &str) -> (r: Option<u32>)
    ensures
        r == parse_java_major_spec(text@),
{
    let chars = chars_of(text);
    let pieces = split_chars(chars.as_slice(), '"');
    if pieces.len() < 2 {
        return None;
    }
    let quoted = &pieces[1];
    proof {
        assert(views(pieces@)[1] == quoted@);
    }
    if quoted.len() >= 2 && quoted[0] == '1' && quoted[1] == '.' {
        assert(quoted@.subrange(0, 2) =~= legacy_prefix());
        let rest = sub_vec(quoted.as_slice(), 2, quoted.len());
        let dot: Vec<char> = vec!['.'];
        assert(dot@ == seq!['.']);
        let cut = first_sep(rest.as_slice(), dot.as_slice(), 0);
        let number = sub_vec(rest.as_slice(), 0, cut);
        assert(number@ == first_piece(quoted@.subrange(2, quoted@.len() as int), seq!['.']));
        return parse_u32(number.as_slice());
    }
    proof {
        if quoted@.len() >= 2 {
            assert(quoted@.subrange(0, 2)[0] == quoted@[0]);
            assert(quoted@.subrange(0, 2)[1] == quoted@[1]);
        }
    }
    let seps: Vec<char> = vec!['.', '-'];
    assert(seps@ == seq!['.', '-']);
    let cut = first_sep(quoted.as_slice(), seps.as_slice(), 0);
    let number = sub_vec(quoted.as_slice(), 0, cut);
    parse_u32(number.as_slice())
}

/// The numeric components of a dotted version, skipping those that do not parse.
pub open spec fn numeric_parts(pieces: Seq<Seq<char>>) -> Seq<u32>
    decreases pieces.len(),
{
    if pieces.len() == 0 {
        seq![]
    } else {
        numeric_parts(pieces.drop_last()) + match parse_u32_spec(pieces.last()) {
            Some(v) => seq![v],
            None => seq![],
        }
    }
}

/// Component `i` of a version, or 0 when it is absent.
pub open spec fn part_or_zero(parts: Seq<u32>, i: int) -> u32 {
    if 0 <= i < parts.len() {
        parts[i]
    } else {
        0
    }
}

/// Component `i` of a version is present and equals `v`.
pub open spec fn part_is(parts: Seq<u32>, i: int, v: u32) -> bool {
    0 <= i < parts.len() && parts[i] == v
}

/// The Java feature version a Minecraft version needs when no runtime lock
/// records it: 25 from 26.x, 21 from 1.20.5, 17 from 1.18, 16 for 1.17, else 8.
pub open spec fn heuristic_java_major_spec(minecraft: Seq<char>) -> u32 {
    let parts = numeric_parts(split_spec(minecraft, '.'));
    if part_or_zero(parts, 0) >= 26 {
        25
    } else if part_is(parts, 0, 1) && (part_or_zero(parts, 1) >= 21 || (part_is(parts, 1, 20)
        && part_or_zero(parts, 2) >= 5)) {
        21
    } else if part_is(parts, 0, 1) && part_or_zero(parts, 1) >= 18 {
        17
    } else if part_is(parts, 0, 1) && part_is(parts, 1, 17) {
        16
    } else {
        8
    }
}

/// Guesses the Java feature version required by a Minecraft version.
pub fn heuristic_java_major(minecraft: &str) -> (r: u32)
    ensures
        r == heuristic_java_major_spec(minecraft@),
{
    let chars = chars_of(minecraft);
    let pieces = split_chars(chars.as_slice(), '.');
    let ghost ps = views(pieces@);
    let mut parts: Vec<u32> = Vec::new();
    let mut i: usize = 0;
    while i < pieces.len()
        invariant
            ps == views(pieces@),
            i <= pieces@.len(),
            parts@ == numeric_parts(ps.subrange(0, i as int)),
        decreases pieces@.len() - i,
    {
        proof {
            assert(ps.subrange(0, i + 1).drop_last() == ps.subrange(0, i as int));
            assert(ps.subrange(0, i + 1).last() == pieces@[i as int]@);
        }
        match parse_u32(pieces[i].as_slice()) {
            Some(v) => {
                parts.push(v);
            },
            None => {},
        }
        i = i + 1;
    }
    assert(ps.subrange(0, pieces@.len() as int) == ps);
    let first: u32 = if parts.len() > 0 { parts[0] } else { 0 };
    let second: u32 = if parts.len() > 1 { parts[1] } else { 0 };
    let third: u32 = if parts.len() > 2 { parts[2] } else { 0 };
    let first_is_one = parts.len() > 0 && parts[0] == 1;
    if first >= 26 {
        25
    } else if first_is_one && (second >= 21 || (parts.len() > 1 && parts[1] == 20 && third >= 5)) {
        21
    } else if first_is_one && second >= 18 {
        17
    } else if first_is_one && parts.len() > 1 && parts[1] == 17 {
        16
    } else {
        8
    }
}

/// `<tag>` and `</tag>`.
pub open spec fn open_tag(tag: Seq<char>) -> Seq<char> {
    seq!['<'] + tag + seq!['>']
}

pub open spec fn close_tag(tag: Seq<char>) -> Seq<char> {
    seq!['<', '/'] + tag + seq!['>']
}

pub proof fn lemma_find_from_bounds(s: Seq<char>, pattern: Seq<char>, from: int)
    requires
        0 <= from,
    ensures
        find_from(s, pattern, from) matches Some(i) ==> from <= i && i + pattern.len() <= s.len(),
    decreases s.len() + 1 - from,
{
    if !(from < 0 || from + pattern.len() > s.len()) && !crate::text::occurs_at(s, pattern, from) {
        lemma_find_from_bounds(s, pattern, from + 1);
    }
}

/// The trimmed contents of each `<tag>...</tag>` element, scanning from `from`.
pub open spec fn xml_values_from(xml: Seq<char>, tag: Seq<char>, from: int) -> Seq<Seq<char>>
    decreases xml.len() + 1 - from,
{
    if from < 0 {
        seq![]
    } else {
        match find_from(xml, open_tag(tag), from) {
            None => seq![],
            Some(start) => {
                let value_start = start + open_tag(tag).len();
                match find_from(xml, close_tag(tag), value_start) {
                    None => seq![],
                    Some(end) => {
                        proof {
                            lemma_find_from_bounds(xml, open_tag(tag), from);
                            lemma_find_from_bounds(xml, close_tag(tag), value_start);
                        }
                        seq![trim_spec(xml.subrange(value_start, end))] + xml_values_from(
                            xml,
                            tag,
                            end + close_tag(tag).len(),
                        )
                    },
                }
            },
        }
    }
}

/// The trimmed text of every `<tag>` element of a flat XML document, in order.
pub fn xml_values(xml: &str, tag: &str) -> (r: Vec<String>)
    ensures
        r@.len() == xml_values_from(xml@, tag@, 0).len(),
        forall|i: int| 0 <= i < r@.len() ==> (#[trigger] r@[i])@ == xml_values_from(xml@, tag@, 0)[i],
{
    let text = chars_of(xml);
    let name = chars_of(tag);
    let mut open: Vec<char> = vec!['<'];
    let mut close: Vec<char> = vec!['<', '/'];
    let mut k: usize = 0;
    while k < name.len()
        invariant
            k <= name@.len(),
            open@ == seq!['<'] + name@.subrange(0, k as int),
            close@ == seq!['<', '/'] + name@.subrange(0, k as int),
        decreases name@.len() - k,
    {
        open.push(name[k]);
        close.push(name[k]);
        assert(name@.subrange(0, k + 1) == name@.subrange(0, k as int).push(name@[k as int]));
        k = k + 1;
    }
    open.push('>');
    close.push('>');
    assert(name@.subrange(0, name@.len() as int) == name@);
    assert(open@ == open_tag(tag@));
    assert(close@ == close_tag(tag@));
    let mut values: Vec<String> = Vec::new();
    let mut from: usize = 0;
    loop
        invariant
            text@ == xml@,
            open@ == open_tag(tag@),
            close@ == close_tag(tag@),
            from <= text@.len(),
            values@.len() + xml_values_from(xml@, tag@, from as int).len() == xml_values_from(xml@, tag@, 0).len(),
            forall|i: int| 0 <= i < values@.len() ==> (#[trigger] values@[i])@ == xml_values_from(xml@, tag@, 0)[i],
            forall|i: int| 0 <= i < xml_values_from(xml@, tag@, from as int).len() ==>
                xml_values_from(xml@, tag@, from as int)[i] == xml_values_from(xml@, tag@, 0)[values@.len() + i],
        decreases text@.len() + 1 - from,
    {
        proof {
            lemma_find_from_bounds(xml@, open_tag(tag@), from as int);
        }
        let start = match find_chars(text.as_slice(), open.as_slice(), from) {
            Some(s) => s,
            None => {
                assert(xml_values_from(xml@, tag@, from as int) == Seq::<Seq<char>>::empty());
                return values;
            },
        };
        let n = text.len();
        assert(start + open@.len() <= n);
        let value_start = start + open.len();
        proof {
            lemma_find_from_bounds(xml@, close_tag(tag@), value_start as int);
        }
        let end = match find_chars(text.as_slice(), close.as_slice(), value_start) {
            Some(e) => e,
            None => {
                assert(xml_values_from(xml@, tag@, from as int) == Seq::<Seq<char>>::empty());
                return values;
            },
        };
        let raw = sub_vec(text.as_slice(), value_start, end);
        let trimmed = trim_chars(raw.as_slice());
        let value = string_from_chars(trimmed.as_slice());
        let ghost rest = xml_values_from(xml@, tag@, from as int);
        let ghost next = xml_values_from(xml@, tag@, end + close@.len());
        assert(rest == seq![value@] + next);
        assert(rest[0] == xml_values_from(xml@, tag@, 0)[values@.len() as int + 0]);
        values.push(value);
        from = end + close.len();
        proof {
            assert forall|i: int| 0 <= i < next.len() implies next[i] == xml_values_from(xml@, tag@, 0)[values@.len() + i] by {
                assert(next[i] == rest[i + 1]);
            }
        }
    }
}

/// Why a download source was refused.
#[derive(Debug, Clone, Copy, PartialEq, Eq, Structural)]
pub enum SourceError {
    /// Runtime downloads must use HTTPS.
    NotHttps,
    /// The download host is not one of the trusted hosts.
    UntrustedHost,
}

/// `"https://"`.
pub open spec fn https_prefix() -> Seq<char> {
    seq!['h', 't', 't', 'p', 's', ':', '/', '/']
}

/// The host of an `https://` URL: the authority up to the first `/`, `?` or
/// `#`, without a `:port`.
pub open spec fn url_host(rest: Seq<char>) -> Seq<char> {
    first_piece(first_piece(rest, seq!['/', '?', '#']), seq![':'])
}

/// `url` uses HTTPS and its host equals one of `hosts` up to ASCII case.
pub open spec fn trusted_https_spec(url: Seq<char>, hosts: Seq<Seq<char>>) -> Result<(), SourceError> {
    if url.len() < 8 || url.subrange(0, 8) != https_prefix() {
        Err(SourceError::NotHttps)
    } else {
        let host = url_host(url.subrange(8, url.len() as int));
        if exists|i: int| 0 <= i < hosts.len() && eq_ignore_ascii_case_spec(host, #[trigger] hosts[i]) {
            Ok(())
        } else {
            Err(SourceError::UntrustedHost)
        }
    }
}

/// The views of a slice of string slices.
pub open spec fn str_views(hosts: Seq<&str>) -> Seq<Seq<char>> {
    hosts.map_values(|h: &str| h@)
}

/// Accepts a runtime download URL only over HTTPS from a trusted host.
pub fn trusted_https(url: &str, hosts: &[&str]) -> (r: Result<(), SourceError>)
    ensures
        r == trusted_https_spec(url@, str_views(hosts@)),
{
    let chars = chars_of(url);
    let prefix: Vec<char> = vec!['h', 't', 't', 'p', 's', ':', '/', '/'];
    assert(prefix@ == https_prefix());
    if chars.len() < 8 || !crate::text::occurs_at_exec(chars.as_slice(), prefix.as_slice(), 0) {
        return Err(SourceError::NotHttps);
    }
    let rest = sub_vec(chars.as_slice(), 8, chars.len());
    let seps: Vec<char> = vec!['/', '?', '#'];
    assert(seps@ == seq!['/', '?', '#']);
    let cut = first_sep(rest.as_slice(), seps.as_slice(), 0);
    let authority = sub_vec(rest.as_slice(), 0, cut);
    let colon: Vec<char> = vec![':'];
    assert(colon@ == seq![':']);
    let cut2 = first_sep(authority.as_slice(), colon.as_slice(), 0);
    let host = sub_vec(authority.as_slice(), 0, cut2);
    assert(host@ == url_host(url@.subrange(8, url@.len() as int)));
    assert(url@.subrange(0, 8) == https_prefix());
    let mut i: usize = 0;
    while i < hosts.len()
        invariant
            i <= hosts@.len(),
            url@.len() >= 8 && url@.subrange(0, 8) == https_prefix(),
            host@ == url_host(url@.subrange(8, url@.len() as int)),
            forall|j: int| 0 <= j < i ==> !eq_ignore_ascii_case_spec(host@, #[trigger] str_views(hosts@)[j]),
        decreases hosts@.len() - i,
    {
        let allowed = chars_of(hosts[i]);
        if eq_ignore_ascii_case(host.as_slice(), allowed.as_slice()) {
            assert(eq_ignore_ascii_case_spec(host@, str_views(hosts@)[i as int]));
            return Ok(());
        }
        i = i + 1;
    }
    Err(SourceError::UntrustedHost)
}

/// `char::is_ascii_hexdigit`.
pub open spec fn is_hex_digit(c: char) -> bool {
    ('0' <= c && c <= '9') || ('a' <= c && c <= 'f') || ('A' <= c && c <= 'F')
}

/// The hexadecimal digits of `s`, in order.
pub open spec fn hex_digits_of(s: Seq<char>) -> Seq<char>
    decreases s.len(),
{
    if s.len() == 0 {
        seq![]
    } else {
        hex_digits_of(s.drop_last()) + if is_hex_digit(s.last()) {
            seq![s.last()]
        } else {
            seq![]
        }
    }
}

/// The first line, from line `i` on, whose hexadecimal digits make a SHA-1
/// (40) or SHA-256 (64) digest: those digits.
pub open spec fn first_digest_from(lines: Seq<Seq<char>>, i: int) -> Option<Seq<char>>
    decreases lines.len() - i,
{
    if i < 0 || i >= lines.len() {
        None
    } else if hex_digits_of(lines[i]).len() == 40 || hex_digits_of(lines[i]).len() == 64 {
        Some(hex_digits_of(lines[i]))
    } else {
        first_digest_from(lines, i + 1)
    }
}

fn hex_digits(line: &[char]) -> (r: Vec<char>)
    ensures
        r@ == hex_digits_of(line@),
{
    let mut out: Vec<char> = Vec::new();
    let mut i: usize = 0;
    while i < line.len()
        invariant
            i <= line@.len(),
            out@ == hex_digits_of(line@.subrange(0, i as int)),
        decreases line@.len() - i,
    {
        let c = line[i];
        proof {
            assert(line@.subrange(0, i + 1).drop_last() == line@.subrange(0, i as int));
            assert(line@.subrange(0, i + 1).last() == c);
        }
        if ('0' <= c && c <= '9') || ('a' <= c && c <= 'f') || ('A' <= c && c <= 'F') {
            out.push(c);
        }
        i = i + 1;
    }
    assert(line@.subrange(0, line@.len() as int) == line@);
    out
}

/// The digest in a hash utility's output: the hexadecimal digits of the
/// first line that has exactly 40 or 64 of them.
pub fn parse_hash_output(text: &str) -> (r: Option<String>)
    ensures
        r matches Some(s) ==> first_digest_from(split_spec(text@, '\n'), 0) == Some(s@),
        r is None ==> first_digest_from(split_spec(text@, '\n'), 0) is None,
{
    let chars = chars_of(text);
    let lines = split_chars(chars.as_slice(), '\n');
    let ghost ls = views(lines@);
    let mut i: usize = 0;
    while i < lines.len()
        invariant
            ls == views(lines@),
            ls == split_spec(text@, '\n'),
            i <= lines@.len(),
            first_digest_from(ls, 0) == first_digest_from(ls, i as int),
        decreases lines@.len() - i,
    {
        let digits = hex_digits(lines[i].as_slice());
        assert(ls[i as int] == lines@[i as int]@);
        if digits.len() == 40 || digits.len() == 64 {
            return Some(string_from_chars(digits.as_slice()));
        }
        i = i + 1;
    }
    None
}

/// Two digests are equal after trimming and up to ASCII case.
pub fn eq_hash(left: &str, right: &str) -> (r: bool)
    ensures
        r == eq_ignore_ascii_case_spec(trim_spec(left@), trim_spec(right@)),
{
    let l = chars_of(left);
    let r = chars_of(right);
    let lt = trim_chars(l.as_slice());
    let rt = trim_chars(r.as_slice());
    eq_ignore_ascii_case(lt.as_slice(), rt.as_slice())
}

// ---------------------------------------------------------------------------
// Progress and artifact resolution
// ---------------------------------------------------------------------------

/// Records that `phase` was reached and reports it to the progress log.
pub fn emit(progress: &mut Vec<RuntimeProgress>, completed: &mut Vec<RuntimePhase>, phase: RuntimePhase, message: String)
    ensures
        final(completed)@ == old(completed)@.push(phase),
        final(progress)@.len() == old(progress)@.len() + 1,
        final(progress)@.drop_last() == old(progress)@,
        final(progress)@.last().phase == phase,
        final(progress)@.last().message@ == message@,
{
    completed.push(phase);
    progress.push(RuntimeProgress { phase, message });
    assert(progress@.drop_last() =~= old(progress)@);
}

/// Where a managed artifact comes from.
pub enum ArtifactSource {
    Download(String),
    /// A local file, by path.
    Local(String),
}

pub struct ResolvedArtifact {
    pub version: String,
    pub source: ArtifactSource,
    pub sha1: Option<String>,
    pub sha256: Option<String>,
}

/// How a source is shown to the user: a download by its URL, a local file
/// as `local:` and its path.
pub fn artifact_source_label(source: &ArtifactSource) -> (r: String)
    ensures
        source matches ArtifactSource::Download(url) ==> r@ == url@,
        source matches ArtifactSource::Local(path) ==> r@ == "local:"@ + path@,
{
    match source {
        ArtifactSource::Download(url) => url.clone(),
        ArtifactSource::Local(path) => {
            let mut label = String::from_str("local:");
            label.append(path.as_str());
            label
        },
    }
}

pub open spec fn ends_with(s: Seq<char>, suffix: Seq<char>) -> bool {
    s.len() >= suffix.len() && s.subrange(s.len() - suffix.len(), s.len() as int) == suffix
}

/// The index of the last version that ends with `+<minecraft>`.
pub open spec fn last_matching(versions: Seq<Seq<char>>, suffix: Seq<char>, end: int) -> Option<int>
    decreases end,
{
    if end <= 0 || end > versions.len() {
        None
    } else if ends_with(versions[end - 1], suffix) {
        Some(end - 1)
    } else {
        last_matching(versions, suffix, end - 1)
    }
}

fn ends_with_exec(s: &Vec<char>, suffix: &Vec<char>) -> (r: bool)
    ensures
        r == ends_with(s@, suffix@),
{
    if s.len() < suffix.len() {
        return false;
    }
    let n = s.len();
    let offset = n - suffix.len();
    let mut i: usize = 0;
    while i < suffix.len()
        invariant
            n == s@.len(),
            offset + suffix@.len() == s@.len(),
            i <= suffix@.len(),
            forall|k: int| 0 <= k < i ==> s@[offset + k] == suffix@[k],
        decreases suffix@.len() - i,
    {
        if s[offset + i] != suffix[i] {
            assert(s@.subrange(offset as int, s@.len() as int)[i as int] != suffix@[i as int]);
            return false;
        }
        i = i + 1;
    }
    assert(s@.subrange(offset as int, s@.len() as int) =~= suffix@);
    true
}

/// The newest published Fabric API version built for `minecraft`: the last
/// listed version that ends with `+<minecraft>`.
pub fn select_fabric_api_version(versions: &Vec<String>, minecraft: &str) -> (r: Option<String>)
    ensures
        match last_matching(texts_view(versions@), "+"@ + minecraft@, versions@.len() as int) {
            Some(i) => r matches Some(v) && v@ == versions@[i]@,
            None => r is None,
        },
{
    let mut suffix_text = String::from_str("+");
    suffix_text.append(minecraft);
    let suffix = chars_of(suffix_text.as_str());
    let ghost vs = texts_view(versions@);
    let mut end: usize = versions.len();
    while end > 0
        invariant
            end <= versions@.len(),
            vs == texts_view(versions@),
            suffix@ == "+"@ + minecraft@,
            last_matching(vs, suffix@, versions@.len() as int) == last_matching(vs, suffix@, end as int),
        decreases end,
    {
        let candidate = chars_of(versions[end - 1].as_str());
        assert(vs[end - 1] == versions@[end - 1]@);
        if ends_with_exec(&candidate, &suffix) {
            return Some(versions[end - 1].clone());
        }
        end = end - 1;
    }
    None
}

pub open spec fn texts_view(values: Seq<String>) -> Seq<Seq<char>> {
    values.map_values(|s: String| s@)
}

/// The first white-space-separated word of `s`, as
/// `split_whitespace().next()` gives it.
pub open spec fn first_word(s: Seq<char>) -> Option<Seq<char>> {
    let start = trim_start_index(s, 0);
    if start >= s.len() {
        None
    } else {
        Some(s.subrange(start, word_end(s, start)))
    }
}

pub open spec fn word_end(s: Seq<char>, i: int) -> int
    decreases s.len() - i,
{
    if i < 0 || i >= s.len() || is_white_space(s[i]) {
        i
    } else {
        word_end(s, i + 1)
    }
}

proof fn lemma_trim_start_index_bounds(s: Seq<char>, i: int)
    requires
        0 <= i <= s.len(),
    ensures
        i <= trim_start_index(s, i) <= s.len(),
    decreases s.len() - i,
{
    if i < s.len() && is_white_space(s[i]) {
        lemma_trim_start_index_bounds(s, i + 1);
    }
}

proof fn lemma_word_end_bounds(s: Seq<char>, i: int)
    requires
        0 <= i <= s.len(),
    ensures
        i <= word_end(s, i) <= s.len(),
    decreases s.len() - i,
{
    if i < s.len() && !is_white_space(s[i]) {
        lemma_word_end_bounds(s, i + 1);
    }
}

/// The first word of a text, where it has one.
pub fn first_word_of(text: &str) -> (r: Option<String>)
    ensures
        match first_word(text@) {
            Some(w) => r matches Some(v) && v@ == w,
            None => r is None,
        },
{
    let chars = chars_of(text);
    let mut start: usize = 0;
    while start < chars.len() && is_whitespace(chars[start])
        invariant
            start <= chars@.len(),
            chars@ == text@,
            trim_start_index(chars@, 0) == trim_start_index(chars@, start as int),
        decreases chars@.len() - start,
    {
        start = start + 1;
    }
    if start >= chars.len() {
        return None;
    }
    let mut end = start;
    while end < chars.len() && !is_whitespace(chars[end])
        invariant
            start <= end <= chars@.len(),
            chars@ == text@,
            word_end(chars@, start as int) == word_end(chars@, end as int),
        decreases chars@.len() - end,
    {
        end = end + 1;
    }
    Some(crate::text::substring(chars.as_slice(), start, end))
}

/// The base URL of a Fabric API release on the Fabric Maven.
pub open spec fn fabric_api_url(version: Seq<char>) -> Seq<char> {
    "https://maven.fabricmc.net/net/fabricmc/fabric-api/fabric-api/"@ + version + "/fabric-api-"@ + version
        + ".jar"@
}

#[derive(Debug, Clone, Copy, PartialEq, Eq, Structural)]
pub enum ResolveError {
    /// No published Fabric API matches the Minecraft version.
    NoMatchingFabricApi,
    /// The checksum file holds no digest.
    EmptyChecksum,
}

/// The download URL of a Fabric API release.
pub fn fabric_api_download_url(version: &String) -> (r: String)
    ensures
        r@ == fabric_api_url(version@),
{
    let mut url = String::from_str("https://maven.fabricmc.net/net/fabricmc/fabric-api/fabric-api/");
    url.append(version.as_str());
    url.append("/fabric-api-");
    url.append(version.as_str());
    url.append(".jar");
    url
}

/// The Fabric API release for `minecraft`, from the versions the Maven
/// metadata lists and the text of the release's `.sha1` file.
pub fn resolve_fabric_api(versions: &Vec<String>, minecraft: &str, sha1_text: &str) -> (r: Result<
    ResolvedArtifact,
    ResolveError,
>)
    ensures
        match last_matching(texts_view(versions@), "+"@ + minecraft@, versions@.len() as int) {
            None => r == Err::<ResolvedArtifact, ResolveError>(ResolveError::NoMatchingFabricApi),
            Some(i) => match first_word(sha1_text@) {
                None => r == Err::<ResolvedArtifact, ResolveError>(ResolveError::EmptyChecksum),
                Some(w) => r matches Ok(a) && a.version@ == versions@[i]@ && (a.source matches ArtifactSource::Download(
                    url,
                ) && url@ == fabric_api_url(versions@[i]@)) && (a.sha1 matches Some(d) && d@ == w) && a.sha256 is None,
            },
        },
{
    let version = match select_fabric_api_version(versions, minecraft) {
        Some(v) => v,
        None => {
            return Err(ResolveError::NoMatchingFabricApi);
        },
    };
    let sha1 = match first_word_of(sha1_text) {
        Some(w) => w,
        None => {
            return Err(ResolveError::EmptyChecksum);
        },
    };
    let url = fabric_api_download_url(&version);
    Ok(ResolvedArtifact { version, source: ArtifactSource::Download(url), sha1: Some(sha1), sha256: None })
}

/// The operating-system name the Adoptium API uses for Rust's
/// `std::env::consts::OS`.
pub fn adoptium_os(os: &str) -> (r: String)
    ensures
        os@ == "windows"@ ==> r@ == "windows"@,
        os@ == "macos"@ ==> r@ == "mac"@,
        os@ != "windows"@ && os@ != "macos"@ ==> r@ == "linux"@,
{
    proof {
        reveal_strlit("windows");
        reveal_strlit("macos");
    }
    let name = string_from_chars(chars_of(os).as_slice());
    if name == String::from_str("windows") {
        String::from_str("windows")
    } else if name == String::from_str("macos") {
        String::from_str("mac")
    } else {
        String::from_str("linux")
    }
}

/// The architecture name the Adoptium API uses for Rust's
/// `std::env::consts::ARCH`, where managed Java is configured for it.
pub fn adoptium_arch(arch: &str) -> (r: Option<String>)
    ensures
        arch@ == "x86_64"@ ==> (r matches Some(a) && a@ == "x64"@),
        arch@ == "aarch64"@ ==> (r matches Some(a) && a@ == "aarch64"@),
        arch@ == "x86"@ ==> (r matches Some(a) && a@ == "x86"@),
        arch@ != "x86_64"@ && arch@ != "aarch64"@ && arch@ != "x86"@ ==> r is None,
{
    proof {
        reveal_strlit("x86_64");
        reveal_strlit("aarch64");
        reveal_strlit("x86");
    }
    let name = string_from_chars(chars_of(arch).as_slice());
    if name == String::from_str("x86_64") {
        Some(String::from_str("x64"))
    } else if name == String::from_str("aarch64") {
        Some(String::from_str("aarch64"))
    } else if name == String::from_str("x86") {
        Some(String::from_str("x86"))
    } else {
        None
    }
}


// ---------------------------------------------------------------------------
// The status of a world's runtime
// ---------------------------------------------------------------------------

/// What the runtime lock records of the world it was written for.
pub struct LockIdentity {
    pub schema_version: u16,
    pub world_id: String,
    pub minecraft_version: String,
    pub fabric_loader_version: String,
}

/// The lock was written, in the current layout, for this world and its
/// Minecraft and loader versions.
pub open spec fn lock_compatible_spec(lock: Option<LockIdentity>, world_id: Seq<char>, minecraft: Seq<char>, loader: Seq<
    char,
>) -> bool {
    lock matches Some(l) && l.schema_version == crate::runtime_layout::RUNTIME_LOCK_SCHEMA_VERSION && l.world_id@
        == world_id && l.minecraft_version@ == minecraft && l.fabric_loader_version@ == loader
}

/// Whether the installed runtime lock belongs to this world's profile.
pub fn lock_compatible(lock: Option<&LockIdentity>, world_id: &String, minecraft: &String, loader: &String) -> (r: bool)
    ensures
        r == lock_compatible_spec(
            match lock {
                Some(l) => Some(*l),
                None => None,
            },
            world_id@,
            minecraft@,
            loader@,
        ),
{
    match lock {
        Some(l) => l.schema_version == crate::runtime_layout::RUNTIME_LOCK_SCHEMA_VERSION && l.world_id == *world_id
            && l.minecraft_version == *minecraft && l.fabric_loader_version == *loader,
        None => false,
    }
}

fn some_text(text: &str) -> (r: Option<String>)
    ensures
        r matches Some(v) && v@ == text@,
{
    Some(text.to_string())
}

/// The Java feature version a world needs: the one its runtime lock
/// records, else the one its Minecraft version suggests.
pub fn required_java_major(lock_major: Option<u32>, minecraft: &str) -> (r: u32)
    ensures
        r == match lock_major {
            Some(major) => major,
            None => heuristic_java_major_spec(minecraft@),
        },
{
    match lock_major {
        Some(major) => major,
        None => heuristic_java_major(minecraft),
    }
}

/// The Java runtime's state: ready where the probed major version is the
/// required one (and, with a lock, the lock is compatible); incompatible
/// where another version answered; missing where the probe failed.
pub open spec fn java_state(required: u32, probe: Option<u32>, has_lock: bool, lock_ok: bool) -> RuntimeComponentState {
    match probe {
        Some(major) => if major == required && (!has_lock || lock_ok) {
            RuntimeComponentState::Ready
        } else {
            RuntimeComponentState::Incompatible
        },
        None => RuntimeComponentState::Missing,
    }
}

/// The Java component: the lock's Java where there is a lock, else the
/// configured one, else `java` on the search path; `probe` is the major
/// version it reported.
pub fn java_component(
    required: u32,
    probe: Option<u32>,
    lock_java: Option<(String, bool)>,
    configured_java: Option<String>,
    lock_ok: bool,
) -> (r: RuntimeComponentStatus)
    ensures
        r.kind == RuntimeComponentKind::Java,
        r.state == java_state(required, probe, lock_java is Some, lock_ok),
        crate::discovery::opt_view(r.version) == match probe {
            Some(major) => Some(crate::text::decimal_spec(major as nat)),
            None => None::<Seq<char>>,
        },
        crate::discovery::opt_view(r.path) == Some(
            match lock_java {
                Some((path, _)) => path@,
                None => match configured_java {
                    Some(path) => path@,
                    None => "java"@,
                },
            },
        ),
        r.managed == (lock_java matches Some((_, managed)) && managed),
        crate::discovery::opt_view(r.detail) == if java_state(required, probe, lock_java is Some, lock_ok)
            == RuntimeComponentState::Ready {
            None::<Seq<char>>
        } else {
            Some("Minecraft requires Java "@ + crate::text::decimal_spec(required as nat))
        },
{
    let has_lock = lock_java.is_some();
    let (path, managed) = match lock_java {
        Some((path, managed)) => (path, managed),
        None => match configured_java {
            Some(path) => (path, false),
            None => (String::from_str("java"), false),
        },
    };
    let state = match probe {
        Some(major) => if major == required && (!has_lock || lock_ok) {
            RuntimeComponentState::Ready
        } else {
            RuntimeComponentState::Incompatible
        },
        None => RuntimeComponentState::Missing,
    };
    let version = match probe {
        Some(major) => Some(crate::text::decimal_string(major as u64)),
        None => None,
    };
    let detail = if state == RuntimeComponentState::Ready {
        None
    } else {
        let mut text = String::from_str("Minecraft requires Java ");
        text.append(crate::text::decimal_string(required as u64).as_str());
        Some(text)
    };
    RuntimeComponentStatus { kind: RuntimeComponentKind::Java, state, version, path: Some(path), managed, detail }
}

/// A managed artifact's state: missing without a lock record; incompatible
/// where the lock belongs to another profile; else ready exactly when the
/// installed file and its staged copy (where there is one) still hash to the
/// recorded SHA-256, corrupt otherwise.
pub open spec fn artifact_state(has_record: bool, lock_ok: bool, source_ok: bool, staged_ok: bool) -> RuntimeComponentState {
    if !has_record {
        RuntimeComponentState::Missing
    } else if !lock_ok {
        RuntimeComponentState::Incompatible
    } else if source_ok && staged_ok {
        RuntimeComponentState::Ready
    } else {
        RuntimeComponentState::Corrupt
    }
}

/// The status of a managed artifact: `record` is the lock's version and path
/// for it; `source_ok` and `staged_ok` say whether the installed file and
/// its staged copy match the recorded hash (`staged_ok` holds where there
/// is no staged copy).
pub fn artifact_component(
    kind: RuntimeComponentKind,
    record: Option<(String, String)>,
    lock_ok: bool,
    source_ok: bool,
    staged_ok: bool,
) -> (r: RuntimeComponentStatus)
    ensures
        r.kind == kind,
        r.managed,
        r.state == artifact_state(record is Some, lock_ok, source_ok, staged_ok),
        match record {
            None => r.version is None && r.path is None && r.detail is None,
            Some((version, path)) => {
                &&& crate::discovery::opt_view(r.version) == Some(version@)
                &&& crate::discovery::opt_view(r.path) == Some(path@)
                &&& crate::discovery::opt_view(r.detail) == if !lock_ok {
                    Some("installed artifact belongs to a different world runtime profile"@)
                } else if source_ok && staged_ok {
                    None::<Seq<char>>
                } else {
                    Some("artifact is missing or its recorded SHA-256 no longer matches"@)
                }
            },
        },
{
    match record {
        None => RuntimeComponentStatus {
            kind,
            state: RuntimeComponentState::Missing,
            version: None,
            path: None,
            managed: true,
            detail: None,
        },
        Some((version, path)) => {
            if !lock_ok {
                return RuntimeComponentStatus {
                    kind,
                    state: RuntimeComponentState::Incompatible,
                    version: Some(version),
                    path: Some(path),
                    managed: true,
                    detail: some_text("installed artifact belongs to a different world runtime profile"),
                };
            }
            let ok = source_ok && staged_ok;
            RuntimeComponentStatus {
                kind,
                state: if ok {
                    RuntimeComponentState::Ready
                } else {
                    RuntimeComponentState::Corrupt
                },
                version: Some(version),
                path: Some(path),
                managed: true,
                detail: if ok {
                    None
                } else {
                    some_text("artifact is missing or its recorded SHA-256 no longer matches")
                },
            }
        },
    }
}

/// The SwarmCraft adapter: where the world requires another adapter version
/// than this application provides, it is incompatible whatever is
/// installed; otherwise its artifact status (`installed`) stands.
pub fn swarmcraft_component(expected: String, provided: &str, installed: RuntimeComponentStatus) -> (r:
    RuntimeComponentStatus)
    ensures
        expected@ != provided@ ==> {
            &&& r.kind == RuntimeComponentKind::SwarmcraftFabric
            &&& r.state == RuntimeComponentState::Incompatible
            &&& crate::discovery::opt_view(r.version) == Some(expected@)
            &&& r.path is None
            &&& r.managed
            &&& crate::discovery::opt_view(r.detail) == Some(
                "world requires adapter "@ + expected@ + ", application provides "@ + provided@,
            )
        },
        expected@ == provided@ ==> r == installed,
{
    let provided_text = provided.to_string();
    if expected == provided_text {
        return installed;
    }
    let mut detail = String::from_str("world requires adapter ");
    detail.append(expected.as_str());
    detail.append(", application provides ");
    detail.append(provided);
    RuntimeComponentStatus {
        kind: RuntimeComponentKind::SwarmcraftFabric,
        state: RuntimeComponentState::Incompatible,
        version: Some(expected),
        path: None,
        managed: true,
        detail: Some(detail),
    }
}

/// The server directories: ready where all of them exist.
pub fn directories_component(ready: bool, root: String) -> (r: RuntimeComponentStatus)
    ensures
        r.kind == RuntimeComponentKind::ServerDirectories,
        r.state == (if ready {
            RuntimeComponentState::Ready
        } else {
            RuntimeComponentState::Missing
        }),
        r.version is None && r.detail is None && r.managed,
        crate::discovery::opt_view(r.path) == Some(root@),
{
    RuntimeComponentStatus {
        kind: RuntimeComponentKind::ServerDirectories,
        state: if ready {
            RuntimeComponentState::Ready
        } else {
            RuntimeComponentState::Missing
        },
        version: None,
        path: Some(root),
        managed: true,
        detail: None,
    }
}

/// The EULA: ready only once accepted explicitly.
pub fn eula_component(accepted: bool) -> (r: RuntimeComponentStatus)
    ensures
        r.kind == RuntimeComponentKind::Eula,
        r.state == (if accepted {
            RuntimeComponentState::Ready
        } else {
            RuntimeComponentState::Required
        }),
        r.version is None && r.path is None && r.managed,
        crate::discovery::opt_view(r.detail) == if accepted {
            None::<Seq<char>>
        } else {
            Some("explicit Minecraft server EULA acceptance is required before launch"@)
        },
{
    RuntimeComponentStatus {
        kind: RuntimeComponentKind::Eula,
        state: if accepted {
            RuntimeComponentState::Ready
        } else {
            RuntimeComponentState::Required
        },
        version: None,
        path: None,
        managed: true,
        detail: if accepted {
            None
        } else {
            some_text("explicit Minecraft server EULA acceptance is required before launch")
        },
    }
}

/// Ids that the runtime installer provides itself, or that only mark legacy
/// compatibility.
pub open spec fn installer_provided(id: Seq<char>) -> bool {
    id == "swarmcraft.legacy-compatibility"@ || id == "fabric-api"@ || id == "fabric_api"@ || id == "swarmcraft"@
        || id == "swarmcraft-fabric"@
}

/// `"<id> <version>"` of every required server mod that the installer does
/// not provide, in order.
pub open spec fn external_mods(required: Seq<(String, String)>) -> Seq<Seq<char>>
    decreases required.len(),
{
    if required.len() == 0 {
        Seq::empty()
    } else {
        let earlier = external_mods(required.drop_last());
        let (id, version) = required.last();
        if installer_provided(id@) {
            earlier
        } else {
            earlier.push(id@ + " "@ + version@)
        }
    }
}

/// The texts joined with `", "`.
pub open spec fn comma_list(items: Seq<Seq<char>>) -> Seq<char>
    decreases items.len(),
{
    if items.len() == 0 {
        Seq::empty()
    } else if items.len() == 1 {
        items[0]
    } else {
        comma_list(items.drop_last()) + ", "@ + items.last()
    }
}

fn is_installer_provided(id: &String) -> (r: bool)
    ensures
        r == installer_provided(id@),
{
    *id == String::from_str("swarmcraft.legacy-compatibility") || *id == String::from_str("fabric-api") || *id
        == String::from_str("fabric_api") || *id == String::from_str("swarmcraft") || *id == String::from_str(
        "swarmcraft-fabric",
    )
}

/// The server-mod component: unavailable until the world's signed
/// configuration is here (`required` is `None`); ready where every required
/// server mod is provided by the installer; else unavailable, naming the
/// user server mods that must be supplied.
pub fn server_mods_component(required: Option<&Vec<(String, String)>>, mods_dir: String) -> (r: RuntimeComponentStatus)
    ensures
        r.kind == RuntimeComponentKind::ServerMods,
        !r.managed && r.version is None,
        crate::discovery::opt_view(r.path) == Some(mods_dir@),
        match required {
            None => r.state == RuntimeComponentState::Unavailable && crate::discovery::opt_view(r.detail) == Some(
                "canonical runtime compatibility manifest is not synchronized yet"@,
            ),
            Some(list) => if external_mods(list@).len() == 0 {
                r.state == RuntimeComponentState::Ready && r.detail is None
            } else {
                r.state == RuntimeComponentState::Unavailable && crate::discovery::opt_view(r.detail) == Some(
                    "required user server mods need the server-mod manager and are not auto-downloaded: "@
                        + comma_list(external_mods(list@)),
                )
            },
        },
{
    let list = match required {
        None => {
            return RuntimeComponentStatus {
                kind: RuntimeComponentKind::ServerMods,
                state: RuntimeComponentState::Unavailable,
                version: None,
                path: Some(mods_dir),
                managed: false,
                detail: some_text("canonical runtime compatibility manifest is not synchronized yet"),
            };
        },
        Some(list) => list,
    };
    let mut joined = String::new();
    let mut count: usize = 0;
    let mut i: usize = 0;
    assert(list@.subrange(0, 0) =~= Seq::<(String, String)>::empty());
    while i < list.len()
        invariant
            i <= list@.len(),
            count == external_mods(list@.subrange(0, i as int)).len(),
            count <= i,
            joined@ == comma_list(external_mods(list@.subrange(0, i as int))),
        decreases list@.len() - i,
    {
        let ghost before = external_mods(list@.subrange(0, i as int));
        proof {
            assert(list@.subrange(0, i + 1).drop_last() =~= list@.subrange(0, i as int));
            assert(list@.subrange(0, i + 1).last() == list@[i as int]);
        }
        let (id, version) = &list[i];
        if !is_installer_provided(id) {
            if count > 0 {
                joined.append(", ");
            }
            joined.append(id.as_str());
            joined.append(" ");
            joined.append(version.as_str());
            proof {
                let item = id@ + " "@ + version@;
                let after = before.push(item);
                assert(after.drop_last() =~= before);
                if count == 0 {
                    assert(Seq::<char>::empty() + id@ + " "@ + version@ =~= item);
                    assert(comma_list(after) == after[0]);
                } else {
                    assert(comma_list(before) + ", "@ + id@ + " "@ + version@ =~= comma_list(before) + ", "@ + item);
                }
            }
            count = count + 1;
        }
        i = i + 1;
    }
    assert(list@.subrange(0, list@.len() as int) =~= list@);
    if count == 0 {
        RuntimeComponentStatus {
            kind: RuntimeComponentKind::ServerMods,
            state: RuntimeComponentState::Ready,
            version: None,
            path: Some(mods_dir),
            managed: false,
            detail: None,
        }
    } else {
        let mut detail = String::from_str(
            "required user server mods need the server-mod manager and are not auto-downloaded: ",
        );
        detail.append(joined.as_str());
        RuntimeComponentStatus {
            kind: RuntimeComponentKind::ServerMods,
            state: RuntimeComponentState::Unavailable,
            version: None,
            path: Some(mods_dir),
            managed: false,
            detail: Some(detail),
        }
    }
}

/// Every component is ready.
pub open spec fn all_ready(components: Seq<RuntimeComponentStatus>) -> bool {
    forall|i: int| 0 <= i < components.len() ==> (#[trigger] components[i]).state == RuntimeComponentState::Ready
}

/// The runtime status of a world from its component statuses: ready exactly
/// when every component is; configured for launch where a launch
/// configuration exists, and manually configured where it exists without a
/// runtime lock.
pub fn runtime_status_of(
    world_id: String,
    minecraft_version: String,
    fabric_loader_version: String,
    required_java_major: u32,
    components: Vec<RuntimeComponentStatus>,
    eula_accepted: bool,
    launch_configured: bool,
    has_lock: bool,
) -> (r: RuntimeStatus)
    ensures
        r.world_id@ == world_id@,
        r.minecraft_version@ == minecraft_version@,
        r.fabric_loader_version@ == fabric_loader_version@,
        r.required_java_major == required_java_major,
        r.ready == all_ready(components@),
        r.eula_accepted == eula_accepted,
        r.launch_configured == launch_configured,
        r.manual_configuration == (launch_configured && !has_lock),
        r.components@ == components@,
{
    let mut ready = true;
    let mut i: usize = 0;
    while i < components.len()
        invariant
            i <= components@.len(),
            ready == (forall|j: int| 0 <= j < i ==> (#[trigger] components@[j]).state == RuntimeComponentState::Ready),
        decreases components@.len() - i,
    {
        if components[i].state != RuntimeComponentState::Ready {
            ready = false;
        }
        i = i + 1;
    }
    RuntimeStatus {
        world_id,
        minecraft_version,
        fabric_loader_version,
        required_java_major,
        ready,
        eula_accepted,
        launch_configured,
        manual_configuration: launch_configured && !has_lock,
        components,
    }
}


// ---------------------------------------------------------------------------
// Installation
// ---------------------------------------------------------------------------

/// What runtime preparation does for a world, decided before anything is
/// downloaded.
#[derive(Debug, Clone, Copy, PartialEq, Eq, Structural)]
pub enum InstallPlan {
    /// The platform components are in place and nothing is forced: only
    /// the launch configuration is saved, where the EULA is accepted now but
    /// was not before, and the runtime is verified again.
    Prepared { save_launch_config: bool },
    /// The runtime is installed. `managed_java` where the system Java does
    /// not report the required major version; the launch configuration is
    /// saved where the EULA is accepted, else preparation waits for it.
    Install { managed_java: bool, save_launch_config: bool },
}

pub open spec fn install_plan_spec(
    force: bool,
    accept_eula: bool,
    platform_ready: bool,
    eula_accepted: bool,
    system_java_major: Option<u32>,
    required_java_major: u32,
) -> InstallPlan {
    if !force && platform_ready {
        InstallPlan::Prepared { save_launch_config: accept_eula && !eula_accepted }
    } else {
        InstallPlan::Install {
            managed_java: system_java_major != Some(required_java_major),
            save_launch_config: accept_eula,
        }
    }
}

/// The plan for preparing the runtime whose inspected status is `initial`;
/// `system_java_major` is what `java` on the search path reports, where it
/// runs and reports a version.
pub fn install_step(
    force: bool,
    accept_eula: bool,
    initial: &RuntimeStatus,
    system_java_major: Option<u32>,
    required_java_major: u32,
) -> (r: InstallPlan)
    ensures
        r == install_plan_spec(
            force,
            accept_eula,
            platform_components_ready_spec(initial.components@),
            initial.eula_accepted,
            system_java_major,
            required_java_major,
        ),
{
    if !force && platform_components_ready(initial) {
        InstallPlan::Prepared { save_launch_config: accept_eula && !initial.eula_accepted }
    } else {
        let managed_java = match system_java_major {
            Some(major) => major != required_java_major,
            None => true,
        };
        InstallPlan::Install { managed_java, save_launch_config: accept_eula }
    }
}

/// The phases a plan goes through, in order, up to the verification of the
/// result.
pub open spec fn install_phases_spec(plan: InstallPlan) -> Seq<RuntimePhase> {
    match plan {
        InstallPlan::Prepared { .. } => seq![RuntimePhase::Checking, RuntimePhase::Verifying],
        InstallPlan::Install { managed_java, save_launch_config } => seq![
            RuntimePhase::Checking,
            RuntimePhase::PreparingDirectories,
        ] + (if managed_java {
            seq![RuntimePhase::DownloadingJava]
        } else {
            seq![]
        }) + seq![
            RuntimePhase::DownloadingServer,
            RuntimePhase::InstallingFabric,
            RuntimePhase::InstallingFabricApi,
            RuntimePhase::InstallingSwarmcraftMod,
        ] + (if save_launch_config {
            seq![]
        } else {
            seq![RuntimePhase::WaitingForEula]
        }) + seq![RuntimePhase::Verifying],
    }
}

/// The phases a plan goes through, in order, up to the verification of the
/// result.
pub fn install_phases(plan: InstallPlan) -> (r: Vec<RuntimePhase>)
    ensures
        r@ == install_phases_spec(plan),
{
    let mut phases: Vec<RuntimePhase> = Vec::new();
    phases.push(RuntimePhase::Checking);
    match plan {
        InstallPlan::Prepared { .. } => {
            phases.push(RuntimePhase::Verifying);
            assert(phases@ =~= install_phases_spec(plan));
        },
        InstallPlan::Install { managed_java, save_launch_config } => {
            phases.push(RuntimePhase::PreparingDirectories);
            if managed_java {
                phases.push(RuntimePhase::DownloadingJava);
            }
            phases.push(RuntimePhase::DownloadingServer);
            phases.push(RuntimePhase::InstallingFabric);
            phases.push(RuntimePhase::InstallingFabricApi);
            phases.push(RuntimePhase::InstallingSwarmcraftMod);
            if !save_launch_config {
                phases.push(RuntimePhase::WaitingForEula);
            }
            phases.push(RuntimePhase::Verifying);
            assert(phases@ =~= install_phases_spec(plan));
        },
    }
    phases
}

/// The phase that closes preparation once the runtime has been verified
/// again: ready where it is; else, on the prepared path, waiting for the
/// EULA where it is still not accepted; else none.
pub fn final_install_phase(plan: InstallPlan, status_ready: bool, eula_accepted: bool) -> (r: Option<RuntimePhase>)
    ensures
        r == (if status_ready {
            Some(RuntimePhase::Ready)
        } else if plan is Prepared && !eula_accepted {
            Some(RuntimePhase::WaitingForEula)
        } else {
            None
        }),
{
    if status_ready {
        Some(RuntimePhase::Ready)
    } else {
        match plan {
            InstallPlan::Prepared { .. } => {
                if !eula_accepted {
                    Some(RuntimePhase::WaitingForEula)
                } else {
                    None
                }
            },
            InstallPlan::Install { .. } => None,
        }
    }
}

/// A managed Java already in place is kept, unless forced, where it
/// reports the required major version.
pub fn reuse_managed_java(exists: bool, force: bool, probed_major: Option<u32>, required_java_major: u32) -> (r: bool)
    ensures
        r == (exists && !force && probed_major == Some(required_java_major)),
{
    exists && !force && match probed_major {
        Some(major) => major == required_java_major,
        None => false,
    }
}

}
