//! The authority permit: a small heartbeat file that the running authority
//! rewrites while it holds a generation, and the watch that decides from
//! successive reads of it whether that authority is still alive.
use vstd::prelude::*;
use crate::text::{chars_of, decimal_spec, decimal_string, hex_spec, hex_string, parse_u64, parse_u64_spec,
    split_words, texts_of, views, words, lemma_decimal_digits, lemma_parse_decimal, lemma_words_of_three};

verus! {

/// How often the authority rewrites its permit, in nanoseconds.
pub const PERMIT_HEARTBEAT_INTERVAL_NANOS: u64 = 1_000_000_000;

/// How long a permit stays live after its heartbeat last changed, in nanoseconds.
pub const PERMIT_TIMEOUT_NANOS: u64 = 6_000_000_000;

/// How long a starting authority may take to write its first heartbeat, in nanoseconds.
pub const PERMIT_START_TIMEOUT_NANOS: u64 = 15_000_000_000;

/// The authority generation that a permit names.
#[derive(Debug, Clone, Copy, PartialEq, Eq, Structural)]
pub struct PermitGeneration {
    pub epoch: u64,
    pub fencing_token: u64,
}

/// Where the permit of a world lives, below the data root: one path component
/// per element.
pub open spec fn permit_path_spec(world_id: Seq<u8>) -> Seq<Seq<char>> {
    seq!["control"@, hex_spec(world_id), "authority.permit"@]
}

/// The path of the permit of `world_id`, below the data root.
pub fn permit_path(world_id: &[u8]) -> (r: Vec<String>)
    ensures
        texts_of(r@) == permit_path_spec(world_id@),
{
    let control = String::from_str("control");
    let world = hex_string(world_id);
    let file = String::from_str("authority.permit");
    proof {
        reveal_strlit("control");
        reveal_strlit("authority.permit");
    }
    let r = vec![control, world, file];
    assert(texts_of(r@) =~= permit_path_spec(world_id@));
    r
}

/// The text of a permit: epoch, fencing token and heartbeat, separated by
/// single spaces and ended by a newline.
pub open spec fn permit_text_spec(generation: PermitGeneration, heartbeat: u64) -> Seq<char> {
    decimal_spec(generation.epoch as nat) + " "@ + decimal_spec(generation.fencing_token as nat) + " "@
        + decimal_spec(heartbeat as nat) + "\n"@
}

/// The text that refreshing the permit writes.
pub fn permit_text(generation: PermitGeneration, heartbeat: u64) -> (r: String)
    ensures
        r@ == permit_text_spec(generation, heartbeat),
{
    let mut out = decimal_string(generation.epoch);
    out.append(" ");
    let token = decimal_string(generation.fencing_token);
    out.append(token.as_str());
    out.append(" ");
    let beat = decimal_string(heartbeat);
    out.append(beat.as_str());
    out.append("\n");
    out
}

/// What a permit's text says: exactly three white-space-separated unsigned
/// integers, the epoch, the fencing token and the heartbeat.
pub open spec fn parse_permit_spec(text: Seq<char>) -> Option<(PermitGeneration, u64)> {
    let w = words(text);
    if w.len() == 3 && parse_u64_spec(w[0]) is Some && parse_u64_spec(w[1]) is Some && parse_u64_spec(
        w[2],
    ) is Some {
        Some(
            (
                PermitGeneration {
                    epoch: parse_u64_spec(w[0])->0,
                    fencing_token: parse_u64_spec(w[1])->0,
                },
                parse_u64_spec(w[2])->0,
            ),
        )
    } else {
        None
    }
}

/// Reads a permit's text.
pub fn parse_permit(text: &str) -> (r: Option<(PermitGeneration, u64)>)
    ensures
        r == parse_permit_spec(text@),
{
    let chars = chars_of(text);
    let w = split_words(chars.as_slice());
    proof {
        assert(views(w@).len() == w@.len());
    }
    if w.len() != 3 {
        return None;
    }
    proof {
        assert(views(w@)[0] == w@[0]@);
        assert(views(w@)[1] == w@[1]@);
        assert(views(w@)[2] == w@[2]@);
    }
    let epoch = match parse_u64(w[0].as_slice()) {
        Some(v) => v,
        None => return None,
    };
    let fencing_token = match parse_u64(w[1].as_slice()) {
        Some(v) => v,
        None => return None,
    };
    let heartbeat = match parse_u64(w[2].as_slice()) {
        Some(v) => v,
        None => return None,
    };
    Some((PermitGeneration { epoch, fencing_token }, heartbeat))
}

/// What a permit watch remembers.
pub struct PermitWatchView {
    pub expected: PermitGeneration,
    pub last_heartbeat: Option<u64>,
    pub last_refresh: Option<u64>,
}

/// Watches the permit of one expected generation: it is live while its
/// heartbeat has changed within the last `PERMIT_TIMEOUT_NANOS`.
pub struct PermitWatch {
    expected: PermitGeneration,
    last_heartbeat: Option<u64>,
    last_refresh: Option<u64>,
}

impl View for PermitWatch {
    type V = PermitWatchView;

    closed spec fn view(&self) -> PermitWatchView {
        PermitWatchView {
            expected: self.expected,
            last_heartbeat: self.last_heartbeat,
            last_refresh: self.last_refresh,
        }
    }
}

/// The watch has seen the heartbeat change, and not longer ago than the
/// timeout (a clock reading before the change counts as no time at all).
pub open spec fn fresh_spec(w: PermitWatchView, now: u64) -> bool {
    match w.last_refresh {
        Some(refresh) => (if now >= refresh {
            now - refresh
        } else {
            0
        }) < PERMIT_TIMEOUT_NANOS,
        None => false,
    }
}

/// One reading of the permit at time `now`: the next state of the watch and
/// whether the permit is live. A text that does not parse, or names another
/// generation, changes nothing and is not live. The first heartbeat read is
/// only remembered; a later, different one restarts the timeout.
pub open spec fn observe_spec(w: PermitWatchView, text: Seq<char>, now: u64) -> (PermitWatchView, bool) {
    match parse_permit_spec(text) {
        None => (w, false),
        Some((generation, heartbeat)) => {
            if generation != w.expected {
                (w, false)
            } else {
                let next = match w.last_heartbeat {
                    None => PermitWatchView { last_heartbeat: Some(heartbeat), ..w },
                    Some(previous) => {
                        if previous != heartbeat {
                            PermitWatchView {
                                last_heartbeat: Some(heartbeat),
                                last_refresh: Some(now),
                                ..w
                            }
                        } else {
                            w
                        }
                    },
                };
                (next, fresh_spec(next, now))
            }
        },
    }
}

impl PermitWatch {
    /// A watch that has seen nothing yet.
    pub fn new(expected: PermitGeneration) -> (r: Self)
        ensures
            r@ == (PermitWatchView { expected, last_heartbeat: None, last_refresh: None }),
    {
        PermitWatch { expected, last_heartbeat: None, last_refresh: None }
    }

    /// Takes one reading of the permit's text at time `now` (nanoseconds on
    /// a monotonic clock) and says whether the permit is live.
    pub fn observe(&mut self, text: &str, now: u64) -> (r: bool)
        ensures
            (final(self)@, r) == observe_spec(old(self)@, text@, now),
    {
        let parsed = parse_permit(text);
        let (generation, heartbeat) = match parsed {
            Some(p) => p,
            None => return false,
        };
        if generation != self.expected {
            return false;
        }
        match self.last_heartbeat {
            None => {
                self.last_heartbeat = Some(heartbeat);
            },
            Some(previous) => {
                if previous != heartbeat {
                    self.last_heartbeat = Some(heartbeat);
                    self.last_refresh = Some(now);
                }
            },
        }
        self.is_fresh(now)
    }

    /// The generation this watch expects.
    pub fn expected(&self) -> (r: PermitGeneration)
        ensures
            r == self@.expected,
    {
        self.expected
    }

    /// Whether the heartbeat changed within the timeout before `now`.
    pub fn is_fresh(&self, now: u64) -> (r: bool)
        ensures
            r == fresh_spec(self@, now),
    {
        match self.last_refresh {
            Some(refresh) => {
                let elapsed = if now >= refresh {
                    now - refresh
                } else {
                    0
                };
                elapsed < PERMIT_TIMEOUT_NANOS
            },
            None => false,
        }
    }
}

/// The watch after reading each `(text, time)` of `readings` in turn.
pub open spec fn replay(w: PermitWatchView, readings: Seq<(Seq<char>, u64)>) -> PermitWatchView
    decreases readings.len(),
{
    if readings.len() == 0 {
        w
    } else {
        let before = replay(w, readings.drop_last());
        observe_spec(before, readings.last().0, readings.last().1).0
    }
}

/// Every reading that names the expected generation carries heartbeat `h`.
pub open spec fn frozen_at(expected: PermitGeneration, readings: Seq<(Seq<char>, u64)>, h: u64) -> bool {
    forall|i: int|
        0 <= i < readings.len() ==> match #[trigger] parse_permit_spec(readings[i].0) {
            Some((g, beat)) => g == expected ==> beat == h,
            None => true,
        }
}

/// A frozen permit never becomes live: when every reading of the expected
/// generation shows the same heartbeat, a new watch never records a change,
/// so it answers "not live" to every reading and at every later time.
pub proof fn lemma_frozen_permit_never_live(
    expected: PermitGeneration,
    readings: Seq<(Seq<char>, u64)>,
    h: u64,
    now: u64,
)
    requires
        frozen_at(expected, readings, h),
    ensures
        replay(PermitWatchView { expected, last_heartbeat: None, last_refresh: None }, readings).last_refresh
            is None,
        !fresh_spec(
            replay(PermitWatchView { expected, last_heartbeat: None, last_refresh: None }, readings),
            now,
        ),
        readings.len() > 0 ==> !observe_spec(
            replay(
                PermitWatchView { expected, last_heartbeat: None, last_refresh: None },
                readings.drop_last(),
            ),
            readings.last().0,
            readings.last().1,
        ).1,
    decreases readings.len(),
{
    lemma_frozen_replay(expected, readings, h);
    if readings.len() > 0 {
        lemma_frozen_replay(expected, readings.drop_last(), h);
    }
}

proof fn lemma_frozen_replay(expected: PermitGeneration, readings: Seq<(Seq<char>, u64)>, h: u64)
    requires
        frozen_at(expected, readings, h),
    ensures
        ({
            let w = replay(PermitWatchView { expected, last_heartbeat: None, last_refresh: None }, readings);
            &&& w.expected == expected
            &&& w.last_refresh is None
            &&& (w.last_heartbeat is None || w.last_heartbeat == Some(h))
        }),
    decreases readings.len(),
{
    if readings.len() > 0 {
        let rest = readings.drop_last();
        assert forall|i: int| 0 <= i < rest.len() implies match #[trigger] parse_permit_spec(rest[i].0) {
            Some((g, beat)) => g == expected ==> beat == h,
            None => true,
        } by {
            assert(rest[i] == readings[i]);
            assert(match parse_permit_spec(readings[i].0) {
                Some((g, beat)) => g == expected ==> beat == h,
                None => true,
            });
        }
        lemma_frozen_replay(expected, rest, h);
        let last = readings.len() - 1;
        assert(readings.last() == readings[last]);
        assert(match parse_permit_spec(readings[last].0) {
            Some((g, beat)) => g == expected ==> beat == h,
            None => true,
        });
    }
}

/// Reading `j` names the expected generation with a heartbeat other than
/// the one the watch last saw before it.
pub open spec fn changed_at(expected: PermitGeneration, readings: Seq<(Seq<char>, u64)>, j: int) -> bool {
    match parse_permit_spec(readings[j].0) {
        Some((g, beat)) => g == expected && match replay(
            PermitWatchView { expected, last_heartbeat: None, last_refresh: None },
            readings.take(j),
        ).last_heartbeat {
            Some(previous) => previous != beat,
            None => false,
        },
        None => false,
    }
}

proof fn lemma_refresh_comes_from_a_change(expected: PermitGeneration, readings: Seq<(Seq<char>, u64)>)
    ensures
        ({
            let w = replay(PermitWatchView { expected, last_heartbeat: None, last_refresh: None }, readings);
            &&& w.expected == expected
            &&& w.last_refresh matches Some(t) ==> exists|j: int|
                0 <= j < readings.len() && #[trigger] changed_at(expected, readings, j) && readings[j].1 == t
        }),
    decreases readings.len(),
{
    if readings.len() > 0 {
        let rest = readings.drop_last();
        lemma_refresh_comes_from_a_change(expected, rest);
        let start = PermitWatchView { expected, last_heartbeat: None, last_refresh: None };
        let before = replay(start, rest);
        let w = replay(start, readings);
        let last = readings.len() - 1;
        assert(readings.take(last) =~= rest);
        assert(readings[last] == readings.last());
        if w.last_refresh != before.last_refresh {
            assert(changed_at(expected, readings, last));
        } else if let Some(t) = w.last_refresh {
            let j = choose|j: int| 0 <= j < rest.len() && #[trigger] changed_at(expected, rest, j) && rest[j].1 == t;
            assert(rest.take(j) =~= readings.take(j));
            assert(rest[j] == readings[j]);
            assert(changed_at(expected, readings, j));
        }
    }
}

/// A watch started afresh calls the permit live only within the timeout of
/// a reading at which the expected generation's heartbeat changed from the
/// one seen before it.
pub proof fn lemma_live_permit_has_a_recent_change(
    expected: PermitGeneration,
    readings: Seq<(Seq<char>, u64)>,
    now: u64,
)
    requires
        fresh_spec(replay(PermitWatchView { expected, last_heartbeat: None, last_refresh: None }, readings), now),
    ensures
        exists|j: int|
            0 <= j < readings.len() && #[trigger] changed_at(expected, readings, j) && (if now >= readings[j].1 {
                now - readings[j].1
            } else {
                0
            }) < PERMIT_TIMEOUT_NANOS,
{
    lemma_refresh_comes_from_a_change(expected, readings);
}

/// A reading of another generation's permit leaves the watch as it was and
/// is never live.
pub proof fn lemma_other_generation_ignored(w: PermitWatchView, text: Seq<char>, now: u64)
    requires
        parse_permit_spec(text) is Some,
        parse_permit_spec(text).unwrap().0 != w.expected,
    ensures
        observe_spec(w, text, now) == (w, false),
{
}

/// A permit reads back as written: the text that refreshing writes parses to
/// its generation and heartbeat.
pub proof fn lemma_permit_text_round_trip(generation: PermitGeneration, heartbeat: u64)
    ensures
        parse_permit_spec(permit_text_spec(generation, heartbeat)) == Some((generation, heartbeat)),
{
    let a = decimal_spec(generation.epoch as nat);
    let b = decimal_spec(generation.fencing_token as nat);
    let c = decimal_spec(heartbeat as nat);
    reveal_strlit(" ");
    reveal_strlit("\n");
    lemma_decimal_digits(generation.epoch as nat);
    lemma_decimal_digits(generation.fencing_token as nat);
    lemma_decimal_digits(heartbeat as nat);
    lemma_words_of_three(a, b, c);
    assert(permit_text_spec(generation, heartbeat) =~= a + seq![' '] + b + seq![' '] + c + seq!['\n']);
    lemma_parse_decimal(generation.epoch);
    lemma_parse_decimal(generation.fencing_token);
    lemma_parse_decimal(heartbeat);
}

/// A changed heartbeat of the expected generation makes the permit live at
/// the moment it is read, and it stays live until the timeout has passed
/// since then, and no longer.
pub proof fn lemma_changed_heartbeat_is_live_until_timeout(
    w: PermitWatchView,
    text: Seq<char>,
    now: u64,
    later: u64,
)
    requires
        parse_permit_spec(text) is Some,
        parse_permit_spec(text).unwrap().0 == w.expected,
        w.last_heartbeat is Some,
        w.last_heartbeat->0 != parse_permit_spec(text).unwrap().1,
        now <= later,
    ensures
        observe_spec(w, text, now).1,
        fresh_spec(observe_spec(w, text, now).0, later) <==> later - now < PERMIT_TIMEOUT_NANOS,
{
}

// ---------------------------------------------------------------------------
// Standby
// ---------------------------------------------------------------------------

/// The pause of a standby device that may not host yet.
pub const STANDBY_IDLE_MILLIS: u64 = 500;

/// The pause between two readings of a watched permit.
pub const STANDBY_POLL_MILLIS: u64 = 250;

/// What a standby device reads of its world before each pass.
#[derive(Debug, Clone, Copy)]
pub struct StandbyFacts {
    /// The world sleeps.
    pub sleeping: bool,
    /// This device's membership entry: whether it is banned, whether it is
    /// eligible for authority, and whether it holds this device's key;
    /// `None` where the membership does not list this device.
    pub local_entry: Option<(bool, bool, bool)>,
    /// The epoch names this device, by peer and key, as its authority.
    pub local_is_epoch_authority: bool,
    /// The number of members of the world.
    pub member_count: usize,
    /// The epoch's generation.
    pub generation: PermitGeneration,
}

/// What a standby device does after one pass.
#[derive(Debug, Clone, Copy, PartialEq, Eq, Structural)]
pub enum StandbyStep {
    /// Pause, then look again.
    Wait { millis: u64 },
    /// Start hosting the world.
    Host,
    /// Give up: the world no longer lists this device.
    NotMember,
    /// Give up: this device may not host the world.
    NotEligible,
}

pub open spec fn watch_view(w: Option<PermitWatch>) -> Option<PermitWatchView> {
    match w {
        Some(x) => Some(x@),
        None => None,
    }
}

/// One pass of a standby device: a sleeping world, or one whose epoch names
/// another authority, drops the watch and waits; a member that may not host
/// gives up; alone in its world the authority hosts at once, and otherwise
/// only once the permit of the epoch's exact generation is live, watching
/// it afresh whenever the generation changes. `permit` is the permit's text
/// where it could be read.
pub open spec fn standby_spec(
    watch: Option<PermitWatchView>,
    facts: StandbyFacts,
    permit: Option<Seq<char>>,
    now: u64,
) -> (Option<PermitWatchView>, StandbyStep) {
    if facts.sleeping {
        (None, StandbyStep::Wait { millis: STANDBY_IDLE_MILLIS })
    } else {
        match facts.local_entry {
            None => (watch, StandbyStep::NotMember),
            Some((banned, eligible, own_key)) => if banned || !eligible || !own_key {
                (watch, StandbyStep::NotEligible)
            } else if !facts.local_is_epoch_authority {
                (None, StandbyStep::Wait { millis: STANDBY_IDLE_MILLIS })
            } else if facts.member_count <= 1 {
                (watch, StandbyStep::Host)
            } else {
                let current = match watch {
                    Some(w) => if w.expected == facts.generation {
                        w
                    } else {
                        PermitWatchView { expected: facts.generation, last_heartbeat: None, last_refresh: None }
                    },
                    None => PermitWatchView { expected: facts.generation, last_heartbeat: None, last_refresh: None },
                };
                match permit {
                    Some(text) => {
                        let (next, live) = observe_spec(current, text, now);
                        if live {
                            (Some(next), StandbyStep::Host)
                        } else {
                            (Some(next), StandbyStep::Wait { millis: STANDBY_POLL_MILLIS })
                        }
                    },
                    None => (Some(current), StandbyStep::Wait { millis: STANDBY_POLL_MILLIS }),
                }
            },
        }
    }
}

/// Takes one pass of the standby loop at time `now` (nanoseconds on a
/// monotonic clock).
pub fn standby_step(watch: &mut Option<PermitWatch>, facts: &StandbyFacts, permit: Option<&str>, now: u64) -> (r:
    StandbyStep)
    ensures
        (watch_view(*final(watch)), r) == standby_spec(watch_view(*old(watch)), *facts, match permit {
            Some(t) => Some(t@),
            None => None,
        }, now),
{
    if facts.sleeping {
        *watch = None;
        return StandbyStep::Wait { millis: STANDBY_IDLE_MILLIS };
    }
    match facts.local_entry {
        None => {
            return StandbyStep::NotMember;
        },
        Some((banned, eligible, own_key)) => {
            if banned || !eligible || !own_key {
                return StandbyStep::NotEligible;
            }
        },
    }
    if !facts.local_is_epoch_authority {
        *watch = None;
        return StandbyStep::Wait { millis: STANDBY_IDLE_MILLIS };
    }
    if facts.member_count <= 1 {
        return StandbyStep::Host;
    }
    let keep = match watch {
        Some(w) => w.expected() == facts.generation,
        None => false,
    };
    if !keep {
        *watch = Some(PermitWatch::new(facts.generation));
    }
    match watch {
        Some(w) => match permit {
            Some(text) => {
                if w.observe(text, now) {
                    StandbyStep::Host
                } else {
                    StandbyStep::Wait { millis: STANDBY_POLL_MILLIS }
                }
            },
            None => StandbyStep::Wait { millis: STANDBY_POLL_MILLIS },
        },
        None => StandbyStep::Wait { millis: STANDBY_POLL_MILLIS },
    }
}

/// A standby device starts hosting only as an eligible member, holding its
/// own key, that the epoch names as authority of an awake world; with other
/// members, only on a live reading of the permit of the epoch's generation.
pub proof fn lemma_standby_hosts_only_as_live_authority(
    watch: Option<PermitWatchView>,
    facts: StandbyFacts,
    permit: Option<Seq<char>>,
    now: u64,
)
    requires
        standby_spec(watch, facts, permit, now).1 == StandbyStep::Host,
    ensures
        !facts.sleeping,
        facts.local_entry == Some((false, true, true)),
        facts.local_is_epoch_authority,
        facts.member_count > 1 ==> (permit matches Some(text) && standby_spec(watch, facts, permit, now).0 matches Some(
            w,
        ) && w.expected == facts.generation && fresh_spec(w, now)),
{
}

} // verus!
