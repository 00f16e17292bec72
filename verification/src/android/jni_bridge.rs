//! What the app hands over, in the engine's terms.
use vstd::prelude::*;
use vstd::utf8::encode_utf8;

use crate::android::engine::CallStartConfig;
use crate::proto::{
    catastrophic_profile, codec2_3200_profile, degraded_profile, good_profile, opt_text,
    studio_profile, CallAcceptMode, CodecId, QualityProfile,
};
use crate::random::random_bytes;

verus! {

broadcast use vstd::string::group_string_axioms;

/// The number by which the app leaves the choice of profile to the relay.
pub const PROFILE_AUTO: i32 = 7;

/// The profile for a number of the app.
pub open spec fn profile_number(value: i32) -> QualityProfile {
    match value {
        1 => degraded_profile(),
        2 => catastrophic_profile(),
        3 => codec2_3200_profile(),
        4 => studio_profile(CodecId::Opus32k),
        5 => studio_profile(CodecId::Opus48k),
        6 => studio_profile(CodecId::Opus64k),
        _ => good_profile(),
    }
}

pub fn profile_from_int(value: i32) -> (r: QualityProfile)
    ensures
        r == profile_number(value),
{
    match value {
        0 => QualityProfile::good(),
        1 => QualityProfile::degraded(),
        2 => QualityProfile::catastrophic(),
        3 => QualityProfile::codec2_3200(),
        4 => QualityProfile::studio_32k(),
        5 => QualityProfile::studio_48k(),
        6 => QualityProfile::studio_64k(),
        _ => QualityProfile::good(),
    }
}

/// How a call is answered, for a number of the app.
pub fn accept_mode_from_int(mode: i32) -> (r: CallAcceptMode)
    ensures
        r == match mode {
            0 => CallAcceptMode::Reject,
            1 => CallAcceptMode::AcceptTrusted,
            _ => CallAcceptMode::AcceptGeneric,
        },
{
    match mode {
        0 => CallAcceptMode::Reject,
        1 => CallAcceptMode::AcceptTrusted,
        _ => CallAcceptMode::AcceptGeneric,
    }
}

/// The value of a hexadecimal digit.
pub open spec fn nibble(b: u8) -> Option<u8> {
    if '0' as u8 <= b <= '9' as u8 {
        Some((b - '0' as u8) as u8)
    } else if 'a' as u8 <= b <= 'f' as u8 {
        Some((b - 'a' as u8 + 10) as u8)
    } else if 'A' as u8 <= b <= 'F' as u8 {
        Some((b - 'A' as u8 + 10) as u8)
    } else {
        None
    }
}

fn nibble_exec(b: u8) -> (r: Option<u8>)
    ensures
        r == nibble(b),
        r matches Some(v) ==> v < 16,
{
    if b >= 48 && b <= 57 {
        Some(b - 48)
    } else if b >= 97 && b <= 102 {
        Some(b - 97 + 10)
    } else if b >= 65 && b <= 70 {
        Some(b - 65 + 10)
    } else {
        None
    }
}

/// The value of two hexadecimal digits, or of a plus sign and one; zero for
/// anything else.
pub open spec fn hex_byte(high: u8, low: u8) -> u8 {
    match (nibble(high), nibble(low)) {
        (Some(h), Some(l)) => (h * 16 + l) as u8,
        (None, Some(l)) => if high == '+' as u8 {
            l
        } else {
            0
        },
        _ => 0,
    }
}

/// Some character of a text lies across the border of two bytes' pairs.
pub open spec fn straddles(bytes: Seq<u8>) -> bool {
    exists|i: int| 0 <= i < 32 && 0x80 <= #[trigger] bytes[2 * i] < 0xc0
}

/// The seed that 64 bytes of text stand for, two for each byte; nothing where
/// they do not come apart in pairs.
pub open spec fn is_seed(bytes: Seq<u8>, seed: Option<[u8; 32]>) -> bool {
    match seed {
        Some(s) => !straddles(bytes) && forall|i: int|
            0 <= i < 32 ==> #[trigger] s@[i] == hex_byte(bytes[2 * i], bytes[2 * i + 1]),
        None => straddles(bytes),
    }
}

pub fn seed_from_hex(bytes: &[u8]) -> (r: Option<[u8; 32]>)
    requires
        bytes@.len() == 64,
    ensures
        is_seed(bytes@, r),
{
    let mut seed: [u8; 32] = [0u8;32];
    let mut i: usize = 0;
    while i < 32
        invariant
            i <= 32,
            bytes@.len() == 64,
            forall|j: int| 0 <= j < i ==> !(0x80 <= #[trigger] bytes@[2 * j] < 0xc0),
            forall|j: int|
                0 <= j < i ==> #[trigger] seed@[j] == hex_byte(bytes@[2 * j], bytes@[2 * j + 1]),
        decreases 32 - i,
    {
        let high: u8 = bytes[2 * i];
        let low: u8 = bytes[2 * i + 1];
        if high >= 0x80 && high < 0xc0 {
            assert(0x80 <= bytes@[2 * (i as int)] < 0xc0);
            return None;
        }
        let value: u8 = match (nibble_exec(high), nibble_exec(low)) {
            (Some(h), Some(l)) => h * 16 + l,
            (None, Some(l)) => if high == 43 {
                l
            } else {
                0
            },
            _ => 0,
        };
        seed[i] = value;
        i += 1;
    }
    Some(seed)
}

/// The seed that drawn bytes make.
pub fn seed_from_drawn(drawn: &[u8]) -> (r: [u8; 32])
    requires
        drawn@.len() == 32,
    ensures
        r@ == drawn@,
{
    let mut seed: [u8; 32] = [0u8;32];
    let mut i: usize = 0;
    while i < 32
        invariant
            i <= 32,
            drawn@.len() == 32,
            forall|j: int| 0 <= j < i ==> #[trigger] seed@[j] == drawn@[j],
        decreases 32 - i,
    {
        seed[i] = drawn[i];
        i += 1;
    }
    assert(seed@ =~= drawn@);
    seed
}

/// The identity seed for a text: what it stands for, where it has 64 bytes,
/// and otherwise one that is drawn at random. Nothing where the text has 64
/// bytes that do not come apart in pairs.
pub fn identity_seed(seed_hex: &str) -> (r: Option<[u8; 32]>)
    ensures
        if encode_utf8(seed_hex@).len() == 64 {
            is_seed(encode_utf8(seed_hex@), r)
        } else {
            r is Some
        },
{
    let bytes = seed_hex.as_bytes();
    if bytes.len() == 64 {
        return seed_from_hex(bytes);
    }
    let drawn: Vec<u8> = random_bytes(32);
    Some(seed_from_drawn(drawn.as_slice()))
}

/// What the app hands over to start a call, with the identity seed.
pub fn start_config(
    relay_addr: String,
    room: String,
    identity_seed: [u8; 32],
    token: String,
    alias: String,
    profile: i32,
) -> (r: CallStartConfig)
    ensures
        r.profile == profile_number(profile),
        r.auto_profile == (profile == 7),
        r.relay_addr@ == relay_addr@,
        r.room@ == room@,
        r.auth_token@ == encode_utf8(token@),
        r.identity_seed == identity_seed,
        opt_text(r.alias) == if alias@.len() == 0 {
            None
        } else {
            Some(alias@)
        },
{
    let mut auth_token: Vec<u8> = Vec::new();
    auth_token.extend_from_slice(token.as_str().as_bytes());
    assert(auth_token@ =~= encode_utf8(token@));
    let alias: Option<String> = if alias.as_str().unicode_len() == 0 {
        None
    } else {
        Some(alias)
    };
    CallStartConfig {
        profile: profile_from_int(profile),
        auto_profile: profile == PROFILE_AUTO,
        relay_addr,
        room,
        auth_token,
        identity_seed,
        alias,
    }
}

/// The byte of a hexadecimal digit, in upper case where `upper` says so.
pub open spec fn digit_byte(d: int, upper: bool) -> u8 {
    if d < 10 {
        (48 + d) as u8
    } else if upper {
        (55 + d) as u8
    } else {
        (87 + d) as u8
    }
}

/// A seed that is written out in hexadecimal digits of either case, the high
/// one of each byte first, is read back.
pub proof fn lemma_seed_round_trip(
    seed: [u8; 32],
    bytes: Seq<u8>,
    upper: bool,
    read: Option<[u8; 32]>,
)
    requires
        bytes.len() == 64,
        forall|i: int|
            0 <= i < 32 ==> bytes[2 * i] == digit_byte(#[trigger] seed@[i] as int / 16, upper)
                && bytes[2 * i + 1] == digit_byte(seed@[i] as int % 16, upper),
        is_seed(bytes, read),
    ensures
        read matches Some(s) && s@ == seed@,
{
    assert forall|i: int| 0 <= i < 32 implies #[trigger] bytes[2 * i] < 0x80 by {
        assert(bytes[2 * i] == digit_byte(seed@[i] as int / 16, upper));
    }
    assert(!straddles(bytes));
    let s = read->0;
    assert forall|i: int| 0 <= i < 32 implies s@[i] == seed@[i] by {
        assert(s@[i] == hex_byte(bytes[2 * i], bytes[2 * i + 1]));
        lemma_digit_byte(seed@[i] as int / 16, upper);
        lemma_digit_byte(seed@[i] as int % 16, upper);
    }
    assert(s@ =~= seed@);
}

proof fn lemma_digit_byte(d: int, upper: bool)
    requires
        0 <= d < 16,
    ensures
        nibble(digit_byte(d, upper)) == Some(d as u8),
{
}

/// The first three numbers are the tiers of their profiles, the last three
/// are the high-bitrate ones in ascending order.
pub proof fn lemma_profile_numbers(value: i32)
    ensures
        0 <= value <= 2 ==> crate::android::engine::tier_of(profile_number(value)) == value,
        profile_number(4).codec is Opus32k,
        profile_number(5).codec is Opus48k,
        profile_number(6).codec is Opus64k,
        profile_number(3).codec is Codec2_3200,
        value < 0 || value > 6 ==> profile_number(value) == profile_number(0),
{
}

} // verus!
