//! Profile bookkeeping: the profile records themselves, the default
//! configuration, and the salted PIN hashing used to guard a profile.
use vstd::prelude::*;
use vstd::utf8::encode_utf8;

use crate::digest::{sha256, sha256_of};
use crate::textutil::{dec_chars, hex_chars, hex_encode, u64_to_string};

verus! {

/// One user profile; `pin_hash` holds `salt:hash` when the profile is
/// PIN-protected.
#[derive(Debug, Clone)]
pub struct Profile {
    pub id: String,
    pub name: String,
    pub color: String,
    pub pin_hash: Option<String>,
    pub db_filename: String,
    pub created_at: String,
}

/// The on-disk profile configuration: which profile is active, and all
/// known profiles.
#[derive(Debug, Clone)]
pub struct ProfilesConfig {
    pub active_profile_id: String,
    pub profiles: Vec<Profile>,
}

/// True when the text is the decimal rendering of a 64-bit counter, the
/// shape of the timestamps this module writes.
pub open spec fn is_timestamp(s: Seq<char>) -> bool {
    exists|n: u64| s == dec_chars(n as nat)
}

/// Relies on `std::time::SystemTime::now`, `duration_since` and `as_secs`:
/// seconds since the Unix epoch, or zero when the clock reads before it.
/// Nothing is assumed of the value; it depends on the clock.
#[verifier::external_body]
fn unix_now_secs() -> u64 {
    std::time::SystemTime::now().duration_since(std::time::UNIX_EPOCH).unwrap_or_default(
    ).as_secs()
}

/// The present moment as a decimal Unix-seconds string, for a caller that
/// formats dates itself.
pub fn chrono_now() -> (r: String)
    ensures
        is_timestamp(r@),
{
    let now = unix_now_secs();
    let r = u64_to_string(now);
    proof {
        assert(r@ == dec_chars(now as nat));
    }
    r
}

/// The filename of the default profile's database, which must never be
/// deleted.
pub open spec fn default_db_filename() -> Seq<char> {
    "simpl_resultat.db"@
}

/// The configuration written on first start: a single default profile,
/// unprotected, timestamped with the present moment.
pub fn make_default_config() -> (r: ProfilesConfig)
    ensures
        r.active_profile_id@ == "default"@,
        r.profiles@.len() == 1,
        r.profiles@[0].id@ == "default"@,
        r.profiles@[0].name@ == "Default"@,
        r.profiles@[0].color@ == "#4A90A4"@,
        r.profiles@[0].pin_hash is None,
        r.profiles@[0].db_filename@ == default_db_filename(),
        is_timestamp(r.profiles@[0].created_at@),
{
    let now = chrono_now();
    let default_profile = Profile {
        id: "default".to_owned(),
        name: "Default".to_owned(),
        color: "#4A90A4".to_owned(),
        pin_hash: None,
        db_filename: "simpl_resultat.db".to_owned(),
        created_at: now,
    };
    let mut profiles: Vec<Profile> = Vec::new();
    profiles.push(default_profile);
    ProfilesConfig { active_profile_id: "default".to_owned(), profiles }
}

/// Whether a profile database file may be deleted: every one but the
/// default profile's own database.
pub fn can_delete_profile_db(db_filename: &str) -> (r: bool)
    ensures
        r == (db_filename@ != default_db_filename()),
{
    !crate::textutil::str_eq(db_filename, "simpl_resultat.db")
}

/// The digest stored for a PIN: SHA-256 over the salt's hexadecimal
/// rendering (as ASCII bytes) followed by the PIN's bytes.
pub open spec fn pin_digest(salt_hex: Seq<char>, pin: Seq<char>) -> Seq<u8> {
    sha256_of(encode_utf8(salt_hex) + encode_utf8(pin))
}

/// Hash a PIN for storage: a fresh random 16-byte salt, rendered in
/// hexadecimal, joined by a colon to the hexadecimal digest of salt and
/// PIN. The result always has 32 salt characters, the colon, and 64 digest
/// characters.
pub fn hash_pin(pin: &str) -> (r: Result<String, String>)
    ensures
        r is Ok,
        r matches Ok(h) ==> {
            &&& h@.len() == 97
            &&& h@[32] == ':'
            &&& exists|salt: Seq<u8>|
                {
                    &&& salt.len() == 16
                    &&& #[trigger] hex_chars(salt) == h@.take(32)
                    &&& h@.skip(33) == hex_chars(pin_digest(hex_chars(salt), pin@))
                }
        },
{
    let salt = crate::codec::random_bytes(16);
    let salt_hex = hex_encode(salt.as_slice());
    proof {
        crate::textutil::lemma_hex_chars_len(salt@);
    }
    let mut data: Vec<u8> = salt_hex.as_str().as_bytes_vec();
    data.extend_from_slice(pin.as_bytes());
    proof {
        assert(data@ =~= encode_utf8(hex_chars(salt@)) + encode_utf8(pin@));
    }
    let digest = sha256(data.as_slice());
    let hash_hex = hex_encode(digest.as_slice());
    proof {
        crate::textutil::lemma_hex_chars_len(digest@);
    }
    let mut out = salt_hex;
    proof {
        reveal_strlit(":");
    }
    out.append(":");
    out.append(hash_hex.as_str());
    proof {
        assert(out@.take(32) =~= hex_chars(salt@));
        assert(out@.skip(33) =~= hex_chars(sha256_of(encode_utf8(hex_chars(salt@))
            + encode_utf8(pin@))));
        assert(out@[32] == ':');
    }
    Ok(out)
}

/// Index of the first colon in a character sequence, or -1 when there is
/// none.
pub open spec fn first_colon(s: Seq<char>) -> int
    decreases s.len(),
{
    if s.len() == 0 {
        -1
    } else if s[0] == ':' {
        0
    } else {
        let r = first_colon(s.drop_first());
        if r < 0 {
            -1
        } else {
            r + 1
        }
    }
}

/// How many colons a character sequence holds.
pub open spec fn count_colons(s: Seq<char>) -> int
    decreases s.len(),
{
    if s.len() == 0 {
        0
    } else {
        count_colons(s.drop_last()) + if s.last() == ':' {
            1int
        } else {
            0int
        }
    }
}

/// A stored hash is well formed when it is exactly two fields joined by one
/// colon.
pub open spec fn stored_hash_well_formed(s: Seq<char>) -> bool {
    count_colons(s) == 1
}

proof fn lemma_count_colons_by_positions(s: Seq<char>, i: int)
    requires
        0 <= i <= s.len(),
        forall|k: int| 0 <= k < s.len() && k != i ==> s[k] != ':',
        i < s.len() ==> s[i] == ':',
    ensures
        count_colons(s) == if i < s.len() {
            1int
        } else {
            0int
        },
    decreases s.len(),
{
    if s.len() > 0 {
        if i < s.len() {
            lemma_count_colons_by_positions(s.drop_last(), i);
        } else {
            lemma_count_colons_by_positions(s.drop_last(), s.len() - 1);
        }
    }
}

/// Check a PIN against a stored `salt:hash` record: the digest of the salt
/// field and the PIN must read exactly as the hash field. A record that is
/// not two fields joined by one colon is rejected as malformed.
pub fn verify_pin(pin: &str, stored_hash: &str) -> (r: Result<bool, String>)
    ensures
        r is Ok <==> stored_hash_well_formed(stored_hash@),
        r matches Ok(b) ==> {
            let i = first_colon(stored_hash@);
            &&& 0 <= i < stored_hash@.len()
            &&& b == (stored_hash@.skip(i + 1) == hex_chars(
                pin_digest(stored_hash@.take(i), pin@),
            ))
        },
{
    let n = stored_hash.unicode_len();
    let mut i: usize = 0;
    let mut colon_pos: usize = n;
    let mut colon_count: usize = 0;
    while i < n
        invariant
            i <= n,
            n == stored_hash@.len(),
            colon_count <= 1,
            colon_count == 0 ==> colon_pos == n,
            colon_count > 0 ==> colon_pos < i && stored_hash@[colon_pos as int] == ':',
            forall|k: int|
                0 <= k < i && k != colon_pos ==> stored_hash@[k] != ':',
        decreases n - i,
    {
        if stored_hash.get_char(i) == ':' {
            if colon_count == 0 {
                colon_pos = i;
            }
            colon_count = colon_count + 1;
            if colon_count > 1 {
                proof {
                    lemma_count_colons_at_least_two(stored_hash@, colon_pos as int, i as int);
                }
                return Err("Invalid stored hash format".to_owned());
            }
        }
        i = i + 1;
    }
    if colon_count != 1 {
        proof {
            lemma_count_colons_by_positions(stored_hash@, n as int);
        }
        return Err("Invalid stored hash format".to_owned());
    }
    proof {
        lemma_count_colons_by_positions(stored_hash@, colon_pos as int);
        lemma_first_colon_at(stored_hash@, colon_pos as int);
    }
    let salt_part = stored_hash.substring_char(0, colon_pos);
    let hash_part = stored_hash.substring_char(colon_pos + 1, n);
    let mut data: Vec<u8> = salt_part.as_bytes_vec();
    data.extend_from_slice(pin.as_bytes());
    proof {
        assert(data@ =~= encode_utf8(salt_part@) + encode_utf8(pin@));
    }
    let digest = sha256(data.as_slice());
    let computed = hex_encode(digest.as_slice());
    let matches_stored = crate::textutil::str_eq(computed.as_str(), hash_part);
    proof {
        assert(stored_hash@.take(colon_pos as int) =~= salt_part@);
        assert(stored_hash@.skip(colon_pos + 1) =~= hash_part@);
    }
    Ok(matches_stored)
}

proof fn lemma_first_colon_at(s: Seq<char>, j: int)
    requires
        0 <= j < s.len(),
        forall|k: int| 0 <= k < j ==> s[k] != ':',
        s[j] == ':',
    ensures
        first_colon(s) == j,
    decreases j,
{
    if j > 0 {
        assert(s[0] != ':');
        lemma_first_colon_at(s.drop_first(), j - 1);
        assert(forall|k: int| 0 <= k < j - 1 ==> s.drop_first()[k] == s[k + 1]);
    }
}

/// No hexadecimal rendering contains a colon.
proof fn lemma_hex_no_colon(bytes: Seq<u8>)
    ensures
        forall|k: int| 0 <= k < hex_chars(bytes).len() ==> #[trigger] hex_chars(bytes)[k] != ':',
    decreases bytes.len(),
{
    if bytes.len() > 0 {
        lemma_hex_no_colon(bytes.drop_first());
        assert(crate::textutil::hex_digit(bytes[0] / 16) != ':');
        assert(crate::textutil::hex_digit(bytes[0] % 16) != ':');
        assert(forall|k: int|
            2 <= k < hex_chars(bytes).len() ==> #[trigger] hex_chars(bytes)[k] == hex_chars(
                bytes.drop_first(),
            )[k - 2]);
    }
}

/// The PIN round-trip law: a record in the exact shape `hash_pin` produces
/// — 32 hexadecimal salt characters, one colon, and the 64 hexadecimal
/// characters of the digest of that salt rendering and the PIN — is well
/// formed, its single colon stands at position 32, and its hash field reads
/// exactly as the digest `verify_pin` recomputes. Together with the
/// contracts of `hash_pin` and `verify_pin`, checking a freshly hashed PIN
/// returns `Ok(true)`.
pub proof fn lemma_pin_round_trip(h: Seq<char>, pin: Seq<char>, salt: Seq<u8>)
    requires
        h.len() == 97,
        h[32] == ':',
        salt.len() == 16,
        h.take(32) == hex_chars(salt),
        h.skip(33) == hex_chars(pin_digest(hex_chars(salt), pin)),
    ensures
        stored_hash_well_formed(h),
        first_colon(h) == 32,
        h.skip(first_colon(h) + 1) == hex_chars(pin_digest(h.take(first_colon(h)), pin)),
{
    crate::textutil::lemma_hex_chars_len(salt);
    crate::textutil::lemma_hex_chars_len(pin_digest(hex_chars(salt), pin));
    lemma_hex_no_colon(salt);
    lemma_hex_no_colon(pin_digest(hex_chars(salt), pin));
    assert(forall|k: int| 0 <= k < 32 ==> h[k] == h.take(32)[k]);
    assert(forall|k: int| 33 <= k < 97 ==> h[k] == h.skip(33)[k - 33]);
    assert(forall|k: int| 0 <= k < 97 && k != 32 ==> h[k] != ':');
    lemma_first_colon_at(h, 32);
    lemma_count_colons_by_positions(h, 32);
}

proof fn lemma_count_colons_at_least_two(s: Seq<char>, i: int, j: int)
    requires
        0 <= i < j < s.len(),
        s[i] == ':',
        s[j] == ':',
    ensures
        count_colons(s) >= 2,
    decreases s.len(),
{
    if j == s.len() - 1 {
        lemma_count_colons_at_least_one(s.drop_last(), i);
    } else {
        lemma_count_colons_at_least_two(s.drop_last(), i, j);
    }
}

proof fn lemma_count_colons_at_least_one(s: Seq<char>, i: int)
    requires
        0 <= i < s.len(),
        s[i] == ':',
    ensures
        count_colons(s) >= 1,
    decreases s.len(),
{
    if i < s.len() - 1 {
        lemma_count_colons_at_least_one(s.drop_last(), i);
    } else {
        lemma_count_colons_nonneg(s.drop_last());
    }
}

proof fn lemma_count_colons_nonneg(s: Seq<char>)
    ensures
        count_colons(s) >= 0,
    decreases s.len(),
{
    if s.len() > 0 {
        lemma_count_colons_nonneg(s.drop_last());
    }
}

} // verus!
