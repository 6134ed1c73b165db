//! Invite tokens: `scinvite:` followed by the hexadecimal text of the
//! encoded invite, bounded in length, and the freshness check applied when
//! an invite is redeemed.
use vstd::prelude::*;
use crate::text::{chars_of, hex_digit, hex_spec, hex_string, string_from_chars};

verus! {

/// The longest invite token accepted, in characters.
pub const MAX_INVITE_TOKEN_CHARS: usize = 32 * 1024;

pub open spec fn invite_prefix() -> Seq<char> {
    "scinvite:"@
}

/// The value of one hexadecimal digit, in either case.
pub open spec fn hex_value(c: char) -> Option<u8> {
    if '0' <= c && c <= '9' {
        Some(((c as u32) - 48) as u8)
    } else if 'a' <= c && c <= 'f' {
        Some(((c as u32) - 87) as u8)
    } else if 'A' <= c && c <= 'F' {
        Some(((c as u32) - 55) as u8)
    } else {
        None
    }
}

/// The bytes that hexadecimal text stands for, two digits per byte, as
/// `hex::decode` reads them; `None` for an odd length or a character that
/// is not a hexadecimal digit.
pub open spec fn hex_decode_spec(s: Seq<char>) -> Option<Seq<u8>>
    decreases s.len(),
{
    if s.len() % 2 == 1 {
        None
    } else if s.len() == 0 {
        Some(Seq::empty())
    } else {
        match (hex_value(s[s.len() - 2]), hex_value(s[s.len() - 1]), hex_decode_spec(s.subrange(0, s.len() - 2))) {
            (Some(high), Some(low), Some(front)) => Some(front.push((high * 16 + low) as u8)),
            _ => None,
        }
    }
}

fn hex_value_exec(c: char) -> (r: Option<u8>)
    ensures
        r == hex_value(c),
{
    if '0' <= c && c <= '9' {
        Some(((c as u32) - 48) as u8)
    } else if 'a' <= c && c <= 'f' {
        Some(((c as u32) - 87) as u8)
    } else if 'A' <= c && c <= 'F' {
        Some(((c as u32) - 55) as u8)
    } else {
        None
    }
}

/// Decodes hexadecimal text.
pub fn hex_decode(s: &[char]) -> (r: Option<Vec<u8>>)
    ensures
        match r {
            Some(v) => hex_decode_spec(s@) == Some(v@),
            None => hex_decode_spec(s@) is None,
        },
{
    if s.len() % 2 == 1 {
        return None;
    }
    let mut out: Vec<u8> = Vec::new();
    let mut i: usize = 0;
    while i < s.len()
        invariant
            i <= s@.len(),
            i % 2 == 0,
            s@.len() % 2 == 0,
            hex_decode_spec(s@.subrange(0, i as int)) == Some(out@),
        decreases s@.len() - i,
    {
        let high = hex_value_exec(s[i]);
        let low = hex_value_exec(s[i + 1]);
        let ghost next = s@.subrange(0, i + 2);
        proof {
            assert(next.subrange(0, next.len() - 2) =~= s@.subrange(0, i as int));
            assert(next[next.len() - 2] == s@[i as int]);
            assert(next[next.len() - 1] == s@[i + 1]);
        }
        match (high, low) {
            (Some(h), Some(l)) => {
                out.push(h * 16 + l);
            },
            _ => {
                proof {
                    lemma_hex_decode_prefix_fails(s@, i as int + 2);
                }
                return None;
            },
        }
        i = i + 2;
    }
    assert(s@.subrange(0, s@.len() as int) =~= s@);
    Some(out)
}

/// Where an even-length prefix fails to decode, so does the whole text.
proof fn lemma_hex_decode_prefix_fails(s: Seq<char>, n: int)
    requires
        0 <= n <= s.len(),
        n % 2 == 0,
        s.len() % 2 == 0,
        hex_decode_spec(s.subrange(0, n)) is None,
    ensures
        hex_decode_spec(s) is None,
    decreases s.len() - n,
{
    if n < s.len() {
        let next = s.subrange(0, n + 2);
        assert(next.subrange(0, n) =~= s.subrange(0, n));
        lemma_hex_decode_prefix_fails(s, n + 2);
    } else {
        assert(s.subrange(0, n) =~= s);
    }
}

proof fn lemma_hex_digit_value(n: nat)
    requires
        n < 16,
    ensures
        hex_value(hex_digit(n)) == Some(n as u8),
{
}

/// Decoding the hexadecimal text of bytes gives the bytes back.
pub proof fn lemma_hex_round_trip(bytes: Seq<u8>)
    ensures
        hex_decode_spec(hex_spec(bytes)) == Some(bytes),
    decreases bytes.len(),
{
    if bytes.len() > 0 {
        let front = bytes.drop_last();
        let b = bytes.last();
        lemma_hex_round_trip(front);
        let text = hex_spec(bytes);
        lemma_hex_len(front);
        let high = (b as nat) / 16;
        let low = (b as nat) % 16;
        lemma_hex_digit_value(high);
        lemma_hex_digit_value(low);
        assert(text == hex_spec(front) + seq![hex_digit(high), hex_digit(low)]);
        assert(text.subrange(0, text.len() - 2) =~= hex_spec(front));
        assert(text[text.len() - 2] == hex_digit(high));
        assert(text[text.len() - 1] == hex_digit(low));
        assert((high * 16 + low) as u8 == b);
        assert(front.push(b) =~= bytes);
    }
}

proof fn lemma_hex_len(bytes: Seq<u8>)
    ensures
        hex_spec(bytes).len() == 2 * bytes.len(),
    decreases bytes.len(),
{
    if bytes.len() > 0 {
        lemma_hex_len(bytes.drop_last());
    }
}

#[derive(Debug, Clone, Copy, PartialEq, Eq, Structural)]
pub enum InviteError {
    TooLong,
    /// The token does not start with `scinvite:`.
    MissingPrefix,
    NotHex,
    Expired,
}

impl InviteError {
    pub fn message(&self) -> (r: String)
        ensures
            self is TooLong ==> r@ == "invite token exceeds the maximum supported size"@,
            self is MissingPrefix ==> r@ == "invite must start with scinvite:"@,
            self is NotHex ==> r@ == "invite payload is not valid hex"@,
            self is Expired ==> r@ == "invite expired"@,
    {
        match self {
            InviteError::TooLong => String::from_str("invite token exceeds the maximum supported size"),
            InviteError::MissingPrefix => String::from_str("invite must start with scinvite:"),
            InviteError::NotHex => String::from_str("invite payload is not valid hex"),
            InviteError::Expired => String::from_str("invite expired"),
        }
    }
}

/// The token that carries an encoded invite.
pub open spec fn token_spec(payload: Seq<u8>) -> Seq<char> {
    invite_prefix() + hex_spec(payload)
}

/// The token for an encoded invite, refused where it would be longer than
/// `MAX_INVITE_TOKEN_CHARS`.
pub fn invite_token(payload: &[u8]) -> (r: Result<String, InviteError>)
    ensures
        token_spec(payload@).len() <= MAX_INVITE_TOKEN_CHARS ==> (r matches Ok(t) && t@ == token_spec(payload@)),
        token_spec(payload@).len() > MAX_INVITE_TOKEN_CHARS ==> r == Err::<String, InviteError>(InviteError::TooLong),
{
    proof {
        lemma_hex_len(payload@);
        reveal_strlit("scinvite:");
    }
    if payload.len() > (MAX_INVITE_TOKEN_CHARS - 9) / 2 {
        return Err(InviteError::TooLong);
    }
    let mut token = String::from_str("scinvite:");
    let hex = hex_string(payload);
    token.append(hex.as_str());
    Ok(token)
}

/// The encoded invite a token carries: the token must be at most
/// `MAX_INVITE_TOKEN_CHARS` long, start with `scinvite:`, and continue with
/// hexadecimal text.
pub open spec fn payload_spec(token: Seq<char>) -> Result<Seq<u8>, InviteError> {
    if token.len() > MAX_INVITE_TOKEN_CHARS {
        Err(InviteError::TooLong)
    } else if !(token.len() >= 9 && token.subrange(0, 9) == invite_prefix()) {
        Err(InviteError::MissingPrefix)
    } else {
        match hex_decode_spec(token.subrange(9, token.len() as int)) {
            Some(bytes) => Ok(bytes),
            None => Err(InviteError::NotHex),
        }
    }
}

pub fn invite_payload(token: &str) -> (r: Result<Vec<u8>, InviteError>)
    ensures
        match payload_spec(token@) {
            Ok(bytes) => r matches Ok(v) && v@ == bytes,
            Err(e) => r == Err::<Vec<u8>, InviteError>(e),
        },
{
    let chars = chars_of(token);
    if chars.len() > MAX_INVITE_TOKEN_CHARS {
        return Err(InviteError::TooLong);
    }
    proof {
        reveal_strlit("scinvite:");
    }
    let prefix = chars_of("scinvite:");
    if chars.len() < 9 {
        return Err(InviteError::MissingPrefix);
    }
    let mut i: usize = 0;
    while i < 9
        invariant
            i <= 9,
            chars@.len() >= 9,
            chars@ == token@,
            chars@.len() <= MAX_INVITE_TOKEN_CHARS,
            prefix@ == invite_prefix(),
            prefix@.len() == 9,
            forall|k: int| 0 <= k < i ==> chars@[k] == prefix@[k],
        decreases 9 - i,
    {
        if chars[i] != prefix[i] {
            assert(chars@.subrange(0, 9)[i as int] != invite_prefix()[i as int]);
            return Err(InviteError::MissingPrefix);
        }
        i = i + 1;
    }
    assert(chars@.subrange(0, 9) =~= invite_prefix());
    let rest = crate::text::sub_vec(chars.as_slice(), 9, chars.len());
    match hex_decode(rest.as_slice()) {
        Some(bytes) => Ok(bytes),
        None => Err(InviteError::NotHex),
    }
}

/// A token made for an invite carries that invite back.
pub proof fn lemma_invite_token_round_trip(payload: Seq<u8>)
    requires
        token_spec(payload).len() <= MAX_INVITE_TOKEN_CHARS,
    ensures
        payload_spec(token_spec(payload)) == Ok::<Seq<u8>, InviteError>(payload),
{
    reveal_strlit("scinvite:");
    let token = token_spec(payload);
    assert(token.subrange(0, 9) =~= invite_prefix());
    assert(token.subrange(9, token.len() as int) =~= hex_spec(payload));
    lemma_hex_round_trip(payload);
}

/// An invite is redeemable strictly before it expires.
pub fn check_invite_fresh(expires_unix_ms: u64, now_unix_ms: u64) -> (r: Result<(), InviteError>)
    ensures
        r is Ok <==> now_unix_ms < expires_unix_ms,
        r is Err ==> r == Err::<(), InviteError>(InviteError::Expired),
{
    if expires_unix_ms <= now_unix_ms {
        Err(InviteError::Expired)
    } else {
        Ok(())
    }
}


/// The failure when no invite path is proven reachable: the backend's
/// reason, then what to do about it.
pub open spec fn unreachable_message(reason: Seq<char>) -> Seq<char> {
    "this device currently has no proven reachable direct, relay, or local-network invite path. "@ + reason
        + " Remediation: keep networking running and configure a relay or restore a reachable listener. Advanced users may provide a validated --bootstrap override."@
}

/// The connection hints of an invite when none are given by hand: the
/// addresses the networking backend has proven shareable; where there is
/// none, a failure that says why and how to remedy it, rather than an invite
/// that nobody can reach.
pub fn automatic_bootstrap_addrs(shareable: Vec<String>, diagnostic_reason: &str) -> (r: Result<Vec<String>, String>)
    ensures
        shareable@.len() == 0 ==> (r matches Err(m) && m@ == unreachable_message(diagnostic_reason@)),
        shareable@.len() > 0 ==> r == Ok::<Vec<String>, String>(shareable),
{
    if shareable.len() == 0 {
        let mut m = String::from_str(
            "this device currently has no proven reachable direct, relay, or local-network invite path. ",
        );
        m.append(diagnostic_reason);
        m.append(
            " Remediation: keep networking running and configure a relay or restore a reachable listener. Advanced users may provide a validated --bootstrap override.",
        );
        return Err(m);
    }
    Ok(shareable)
}

} // verus!
