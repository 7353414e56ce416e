//! Accounts and offline authentication.
//!
//! Offline accounts use the same scheme as vanilla offline mode: the UUID is
//! md5("OfflinePlayer:<name>") formatted as a type-3 (name-based) UUID.
//! Ely.by and Microsoft logins talk to their services and hand back plain
//! values that become an [`Account`].
use vstd::prelude::*;

use crate::text::{push_str_chars, string_of, to_chars, trim, trim_str};

verus! {

broadcast use vstd::std_specs::vec::group_vec_axioms, vstd::seq::group_seq_axioms;

/// The kind of an account.
#[derive(Debug, Clone, Copy, PartialEq, Eq, Structural)]
pub enum AccountKind {
    Offline,
    ElyBy,
    Mojang,
}

impl AccountKind {
    /// All kinds, in UI order.
    pub fn all() -> (r: Vec<AccountKind>)
        ensures
            r@ == seq![AccountKind::Offline, AccountKind::ElyBy, AccountKind::Mojang],
    {
        let r = vec![AccountKind::Offline, AccountKind::ElyBy, AccountKind::Mojang];
        assert(r@ =~= seq![AccountKind::Offline, AccountKind::ElyBy, AccountKind::Mojang]);
        r
    }

    pub open spec fn slug_spec(self) -> Seq<char> {
        match self {
            AccountKind::Offline => "offline"@,
            AccountKind::ElyBy => "elyby"@,
            AccountKind::Mojang => "mojang"@,
        }
    }

    /// The name the kind is stored under.
    pub fn slug(self) -> (r: &'static str)
        ensures
            r@ == self.slug_spec(),
    {
        match self {
            AccountKind::Offline => "offline",
            AccountKind::ElyBy => "elyby",
            AccountKind::Mojang => "mojang",
        }
    }

    pub fn label(self) -> (r: &'static str)
        ensures
            r@ == match self {
                AccountKind::Offline => "Offline"@,
                AccountKind::ElyBy => "Ely.by"@,
                AccountKind::Mojang => "Mojang / Microsoft"@,
            },
    {
        match self {
            AccountKind::Offline => "Offline",
            AccountKind::ElyBy => "Ely.by",
            AccountKind::Mojang => "Mojang / Microsoft",
        }
    }

    pub open spec fn from_slug_spec(slug: Seq<char>) -> Option<AccountKind> {
        if slug == "offline"@ {
            Some(AccountKind::Offline)
        } else if slug == "elyby"@ {
            Some(AccountKind::ElyBy)
        } else if slug == "mojang"@ {
            Some(AccountKind::Mojang)
        } else {
            None
        }
    }

    /// The kind stored under `slug`.
    pub fn from_slug(slug: &str) -> (r: Option<AccountKind>)
        ensures
            r == Self::from_slug_spec(slug@),
    {
        if crate::text::str_eq(slug, "offline") {
            Some(AccountKind::Offline)
        } else if crate::text::str_eq(slug, "elyby") {
            Some(AccountKind::ElyBy)
        } else if crate::text::str_eq(slug, "mojang") {
            Some(AccountKind::Mojang)
        } else {
            None
        }
    }
}

/// Each kind's slug names it back.
pub proof fn lemma_slug_roundtrip(kind: AccountKind)
    ensures
        AccountKind::from_slug_spec(kind.slug_spec()) == Some(kind),
{
    reveal_strlit("offline");
    reveal_strlit("elyby");
    reveal_strlit("mojang");
    assert("offline"@.len() == 7 && "elyby"@.len() == 5 && "mojang"@.len() == 6);
}

/// A logged-in account. `access_token` is passed to the game as
/// `--accessToken`; offline accounts use their UUID (the vanilla convention).
#[derive(Debug, Clone)]
pub struct Account {
    pub username: String,
    pub uuid: String,
    pub access_token: String,
    pub kind: AccountKind,
}

impl Account {
    /// An offline-style account (token = uuid).
    pub fn offline(username: String, uuid: String) -> (r: Account)
        ensures
            r.username@ == username@,
            r.uuid@ == uuid@,
            r.access_token@ == uuid@,
            r.kind == AccountKind::Offline,
    {
        let token = string_of(to_chars(uuid.as_str()).as_slice());
        Account { access_token: token, kind: AccountKind::Offline, username, uuid }
    }
}

// ---------------------------------------------------------------------------
// Offline usernames
// ---------------------------------------------------------------------------

/// Why a name is not a valid offline username.
#[derive(Debug, Clone, Copy, PartialEq, Eq, Structural)]
pub enum UsernameError {
    /// Fewer than 3 bytes after trimming.
    TooShort,
    /// More than 16 bytes after trimming.
    TooLong,
    /// A character other than an ASCII letter, digit or `_`.
    InvalidCharacter,
}

impl UsernameError {
    pub fn message(self) -> (r: &'static str)
        ensures
            r@ == match self {
                UsernameError::TooShort => "username must be at least 3 characters"@,
                UsernameError::TooLong => "username cannot be longer than 16 characters"@,
                UsernameError::InvalidCharacter =>
                    "username may only contain letters, digits, and underscores"@,
            },
    {
        match self {
            UsernameError::TooShort => "username must be at least 3 characters",
            UsernameError::TooLong => "username cannot be longer than 16 characters",
            UsernameError::InvalidCharacter => "username may only contain letters, digits, and underscores",
        }
    }
}

pub open spec fn username_char(c: char) -> bool {
    ('a' <= c <= 'z') || ('A' <= c <= 'Z') || ('0' <= c <= '9') || c == '_'
}

/// The number of bytes of a character in UTF-8.
pub open spec fn utf8_width(c: char) -> int {
    if (c as u32) < 0x80 {
        1
    } else if (c as u32) < 0x800 {
        2
    } else if (c as u32) < 0x10000 {
        3
    } else {
        4
    }
}

/// The size of a name in UTF-8 bytes (what `str::len` counts).
pub open spec fn byte_len(s: Seq<char>) -> int
    decreases s.len(),
{
    if s.len() == 0 {
        0
    } else {
        byte_len(s.drop_last()) + utf8_width(s.last())
    }
}

proof fn lemma_byte_len_mono(s: Seq<char>, k: int)
    requires
        0 <= k <= s.len(),
    ensures
        byte_len(s.take(k)) <= byte_len(s),
    decreases s.len() - k,
{
    if k < s.len() {
        lemma_byte_len_mono(s, k + 1);
        assert(s.take(k + 1).drop_last() =~= s.take(k));
    } else {
        assert(s.take(k) =~= s);
    }
}

/// `byte_len(s)` when it is at most 17, else 17.
fn byte_len_capped(s: &[char]) -> (r: usize)
    ensures
        r <= 17,
        r < 17 ==> r == byte_len(s@),
        r == 17 ==> byte_len(s@) >= 17,
{
    let mut n: usize = 0;
    let mut i: usize = 0;
    while i < s.len()
        invariant
            i <= s.len(),
            n == byte_len(s@.take(i as int)),
            n <= 16,
        decreases s.len() - i,
    {
        assert(s@.take(i + 1).drop_last() =~= s@.take(i as int));
        let c = s[i] as u32;
        let w: usize = if c < 0x80 {
            1
        } else if c < 0x800 {
            2
        } else if c < 0x10000 {
            3
        } else {
            4
        };
        i += 1;
        if n + w > 16 {
            proof {
                lemma_byte_len_mono(s@, i as int);
            }
            return 17;
        }
        n = n + w;
    }
    assert(s@.take(s.len() as int) =~= s@);
    n
}

/// The outcome of validating an offline username: the trimmed name when it
/// has 3 to 16 bytes and only ASCII letters, digits and underscores.
pub open spec fn username_check(name: Seq<char>) -> Result<Seq<char>, UsernameError> {
    let t = trim(name);
    if byte_len(t) < 3 {
        Err(UsernameError::TooShort)
    } else if byte_len(t) > 16 {
        Err(UsernameError::TooLong)
    } else if !(forall|i: int| 0 <= i < t.len() ==> username_char(#[trigger] t[i])) {
        Err(UsernameError::InvalidCharacter)
    } else {
        Ok(t)
    }
}

/// Validate an offline username per Minecraft rules; the name comes back
/// trimmed.
pub fn validate_username(name: &str) -> (r: Result<String, UsernameError>)
    ensures
        match r {
            Ok(s) => username_check(name@) == Ok::<Seq<char>, UsernameError>(s@),
            Err(e) => username_check(name@) == Err::<Seq<char>, UsernameError>(e),
        },
{
    let t = trim_str(name);
    let s = string_of(t.as_slice());
    let n = byte_len_capped(t.as_slice());
    if n < 3 {
        return Err(UsernameError::TooShort);
    }
    if n > 16 {
        return Err(UsernameError::TooLong);
    }
    let mut i: usize = 0;
    while i < t.len()
        invariant
            i <= t.len(),
            t@ == trim(name@),
            3 <= byte_len(t@) <= 16,
            forall|k: int| 0 <= k < i ==> username_char(#[trigger] t@[k]),
        decreases t.len() - i,
    {
        let c = t[i];
        if !(('a' <= c && c <= 'z') || ('A' <= c && c <= 'Z') || ('0' <= c && c <= '9') || c == '_') {
            assert(!username_char(t@[i as int]));
            assert(!(forall|k: int| 0 <= k < t@.len() ==> username_char(#[trigger] t@[k])));
            assert(byte_len(t@) >= 3 && byte_len(t@) <= 16);
            return Err(UsernameError::InvalidCharacter);
        }
        i += 1;
    }
    Ok(s)
}

// ---------------------------------------------------------------------------
// Offline UUIDs
// ---------------------------------------------------------------------------

/// The MD5 digest of some bytes, as the `md5` crate computes it; its value
/// is not stated here.
pub uninterp spec fn md5_digest(data: Seq<u8>) -> Seq<u8>;

/// `md5::compute`: the 16-byte MD5 digest of `data`, a function of the
/// bytes alone. The contract names the digest and states nothing else of it.
#[verifier::external_body]
fn md5_compute(data: &[u8]) -> (r: [u8; 16])
    ensures
        r@ == md5_digest(data@),
{
    md5::compute(data).0
}

/// A lowercase hexadecimal digit.
pub open spec fn hex_lower(n: u8) -> char {
    if n < 10 {
        (48 + n) as char
    } else {
        (87 + n) as char
    }
}

/// Bytes as lowercase hexadecimal, two digits each.
pub open spec fn hex_of(bytes: Seq<u8>) -> Seq<char>
    decreases bytes.len(),
{
    if bytes.len() == 0 {
        Seq::empty()
    } else {
        hex_of(bytes.drop_last()) + seq![hex_lower(bytes.last() / 16), hex_lower(bytes.last() % 16)]
    }
}

/// The canonical dashed form of 16 bytes: 8-4-4-4-12 hexadecimal digits.
pub open spec fn uuid_text(b: Seq<u8>) -> Seq<char> {
    hex_of(b.subrange(0, 4)) + "-"@ + hex_of(b.subrange(4, 6)) + "-"@ + hex_of(b.subrange(6, 8))
        + "-"@ + hex_of(b.subrange(8, 10)) + "-"@ + hex_of(b.subrange(10, 16))
}

/// A digest with the RFC 4122 version 3 and IETF variant bits set.
pub open spec fn name_based(d: Seq<u8>) -> Seq<u8> {
    d.update(6, (d[6] & 0x0f) | 0x30).update(8, (d[8] & 0x3f) | 0x80)
}

/// The UTF-8 bytes hashed for an offline name.
pub open spec fn offline_seed(name: Seq<char>) -> Seq<u8> {
    vstd::utf8::encode_utf8("OfflinePlayer:"@ + name)
}

/// The offline UUID of a name.
pub open spec fn offline_uuid_spec(name: Seq<char>) -> Seq<char> {
    uuid_text(name_based(md5_digest(offline_seed(name))))
}

fn hex_lower_exec(n: u8) -> (c: char)
    requires
        n < 16,
    ensures
        c == hex_lower(n),
{
    if n < 10 {
        (48 + n) as char
    } else {
        (87 + n) as char
    }
}

fn push_hex(out: &mut Vec<char>, b: &[u8; 16], from: usize, to: usize)
    requires
        from <= to <= 16,
    ensures
        final(out)@ == old(out)@ + hex_of(b@.subrange(from as int, to as int)),
{
    let mut i = from;
    while i < to
        invariant
            from <= i <= to <= 16,
            out@ == old(out)@ + hex_of(b@.subrange(from as int, i as int)),
        decreases to - i,
    {
        let x = b[i];
        let ghost o0 = out@;
        out.push(hex_lower_exec(x / 16));
        out.push(hex_lower_exec(x % 16));
        assert(b@.subrange(from as int, i + 1).drop_last() =~= b@.subrange(from as int, i as int));
        i += 1;
        assert(out@ =~= old(out)@ + hex_of(b@.subrange(from as int, i as int)));
    }
}

/// Format 16 bytes as the canonical dashed UUID string.
pub fn format_uuid(bytes: &[u8; 16]) -> (r: String)
    ensures
        r@ == uuid_text(bytes@),
{
    let mut out: Vec<char> = Vec::new();
    push_hex(&mut out, bytes, 0, 4);
    push_str_chars(&mut out, "-");
    push_hex(&mut out, bytes, 4, 6);
    push_str_chars(&mut out, "-");
    push_hex(&mut out, bytes, 6, 8);
    push_str_chars(&mut out, "-");
    push_hex(&mut out, bytes, 8, 10);
    push_str_chars(&mut out, "-");
    push_hex(&mut out, bytes, 10, 16);
    string_of(out.as_slice())
}

/// The offline UUID for a given MD5 digest of `OfflinePlayer:<name>`: the
/// version 3 and IETF variant bits set, then formatted.
pub fn uuid_from_digest(digest: [u8; 16]) -> (r: String)
    ensures
        r@ == uuid_text(name_based(digest@)),
{
    let mut b = digest;
    b[6] = (b[6] & 0x0f) | 0x30;
    b[8] = (b[8] & 0x3f) | 0x80;
    assert(b@ =~= name_based(digest@));
    format_uuid(&b)
}

/// A lowercase hexadecimal digit character.
pub open spec fn is_hex_char(c: char) -> bool {
    ('0' <= c && c <= '9') || ('a' <= c && c <= 'f')
}

/// A name-based (version 3) UUID in canonical text form: 36 characters,
/// dashes after 8, 12, 16 and 20 hexadecimal digits, the version digit `3`
/// and an IETF variant digit (`8`, `9`, `a` or `b`).
pub open spec fn is_v3_uuid_text(s: Seq<char>) -> bool {
    &&& s.len() == 36
    &&& forall|i: int|
        0 <= i < 36 ==> if i == 8 || i == 13 || i == 18 || i == 23 {
            #[trigger] s[i] == '-'
        } else {
            is_hex_char(s[i])
        }
    &&& s[14] == '3'
    &&& (s[19] == '8' || s[19] == '9' || s[19] == 'a' || s[19] == 'b')
}

proof fn lemma_hex_of(b: Seq<u8>)
    ensures
        hex_of(b).len() == 2 * b.len(),
        forall|k: int|
            0 <= k < b.len() ==> hex_of(b)[2 * k] == hex_lower(#[trigger] b[k] / 16) && hex_of(b)[2 * k
                + 1] == hex_lower(b[k] % 16),
    decreases b.len(),
{
    if b.len() > 0 {
        let p = b.drop_last();
        lemma_hex_of(p);
        assert forall|k: int| 0 <= k < b.len() implies hex_of(b)[2 * k] == hex_lower(#[trigger] b[k] / 16)
            && hex_of(b)[2 * k + 1] == hex_lower(b[k] % 16) by {
            if k < p.len() {
                assert(p[k] == b[k]);
            }
        }
    }
}

proof fn lemma_hex_digits(b: Seq<u8>)
    ensures
        forall|i: int| 0 <= i < hex_of(b).len() ==> is_hex_char(#[trigger] hex_of(b)[i]),
{
    lemma_hex_of(b);
    assert forall|i: int| 0 <= i < hex_of(b).len() implies is_hex_char(#[trigger] hex_of(b)[i]) by {
        let k = i / 2;
        assert(0 <= k < b.len());
        let x = b[k];
        assert(x / 16 < 16) by (bit_vector);
        assert(x % 16 < 16) by (bit_vector);
        if i % 2 == 0 {
            assert(i == 2 * k);
        } else {
            assert(i == 2 * k + 1);
        }
    }
}

/// Every offline UUID, whatever the digest it comes from, is a well-formed
/// name-based (version 3) UUID with the IETF variant.
pub proof fn lemma_uuid_from_digest_is_v3(d: Seq<u8>)
    requires
        d.len() == 16,
    ensures
        is_v3_uuid_text(uuid_text(name_based(d))),
{
    reveal_strlit("-");
    let b = name_based(d);
    let x = d[6];
    let y = d[8];
    assert(((x & 0x0f) | 0x30) / 16 == 3) by (bit_vector);
    assert(8 <= ((y & 0x3f) | 0x80) / 16 <= 11) by (bit_vector);
    let h0 = hex_of(b.subrange(0, 4));
    let h1 = hex_of(b.subrange(4, 6));
    let h2 = hex_of(b.subrange(6, 8));
    let h3 = hex_of(b.subrange(8, 10));
    let h4 = hex_of(b.subrange(10, 16));
    lemma_hex_of(b.subrange(0, 4));
    lemma_hex_of(b.subrange(4, 6));
    lemma_hex_of(b.subrange(6, 8));
    lemma_hex_of(b.subrange(8, 10));
    lemma_hex_of(b.subrange(10, 16));
    lemma_hex_digits(b.subrange(0, 4));
    lemma_hex_digits(b.subrange(4, 6));
    lemma_hex_digits(b.subrange(6, 8));
    lemma_hex_digits(b.subrange(8, 10));
    lemma_hex_digits(b.subrange(10, 16));
    let s = uuid_text(b);
    assert(s == h0 + "-"@ + h1 + "-"@ + h2 + "-"@ + h3 + "-"@ + h4);
    assert(b.subrange(6, 8)[0] == b[6]);
    assert(b.subrange(8, 10)[0] == b[8]);
    assert(h2[0] == hex_lower(b[6] / 16));
    assert(h3[0] == hex_lower(b[8] / 16));
    assert(s[14] == h2[0]);
    assert(s[19] == h3[0]);
    assert forall|i: int|
        0 <= i < 36 implies if i == 8 || i == 13 || i == 18 || i == 23 {
            #[trigger] s[i] == '-'
        } else {
            is_hex_char(s[i])
        } by {
        if i < 8 {
            assert(s[i] == h0[i]);
        } else if i == 8 {
        } else if i < 13 {
            assert(s[i] == h1[i - 9]);
        } else if i == 13 {
        } else if i < 18 {
            assert(s[i] == h2[i - 14]);
        } else if i == 18 {
        } else if i < 23 {
            assert(s[i] == h3[i - 19]);
        } else if i == 23 {
        } else {
            assert(s[i] == h4[i - 24]);
        }
    }
}

/// Derive the offline UUID (v3, md5 of `OfflinePlayer:<name>`) with the
/// RFC 4122 version/variant bits set, as Minecraft does.
pub fn offline_uuid(name: &str) -> (r: String)
    ensures
        r@ == offline_uuid_spec(name@),
        is_v3_uuid_text(r@),
{
    let mut seed: Vec<char> = Vec::new();
    push_str_chars(&mut seed, "OfflinePlayer:");
    push_str_chars(&mut seed, name);
    let s = string_of(seed.as_slice());
    let digest = md5_compute(s.as_str().as_bytes());
    proof {
        lemma_uuid_from_digest_is_v3(digest@);
    }
    uuid_from_digest(digest)
}

/// Log in offline with the given username: no token, the name's offline
/// UUID.
pub fn login_offline(username: &str) -> (r: Result<Account, UsernameError>)
    ensures
        match r {
            Ok(a) => username_check(username@) is Ok && a.username@ == username_check(username@)->Ok_0
                && a.uuid@ == offline_uuid_spec(a.username@) && a.access_token@.len() == 0 && a.kind
                == AccountKind::Offline,
            Err(e) => username_check(username@) == Err::<Seq<char>, UsernameError>(e),
        },
{
    let name = match validate_username(username) {
        Ok(n) => n,
        Err(e) => return Err(e),
    };
    let uuid = offline_uuid(name.as_str());
    Ok(Account { access_token: String::new(), kind: AccountKind::Offline, uuid, username: name })
}

// ---------------------------------------------------------------------------
// Online logins
// ---------------------------------------------------------------------------

/// Why an online login failed.
#[derive(Debug, Clone)]
pub enum AuthError {
    /// Ely.by answered 401 or 403.
    ElyCredentials,
    /// The service answered with another error status: its message, or
    /// `HTTP <code> from Ely.by` when it gave none.
    ServiceMessage(String),
    /// The request did not get an answer (the transport error).
    RequestFailed(String),
    /// The Ely.by account has no Minecraft profile.
    NoProfile,
    /// Ely.by returned no access token.
    NoToken,
    /// The Microsoft token endpoint reported an error (code, description).
    MicrosoftLogin(String, String),
    /// Xbox Live refused the authorization (reason, XErr code).
    Xsts(String, i64),
    /// The Microsoft account does not own Minecraft (Java).
    NotOwned,
}

/// The profile part of an Ely.by authentication reply.
#[derive(Debug, Clone)]
pub struct ElyProfile {
    pub id: String,
    pub name: String,
}

/// An Ely.by authentication reply.
#[derive(Debug, Clone)]
pub struct ElyReply {
    pub access_token: String,
    pub selected_profile: Option<ElyProfile>,
}

/// How an Ely.by request failed: its status code with the reply's
/// `errorMessage`, or no status at all.
pub fn elyby_failure(status: Option<u16>, error_message: Option<String>, transport: String) -> (r: AuthError)
    ensures
        match status {
            Some(code) => if code == 401 || code == 403 {
                r is ElyCredentials
            } else {
                r matches AuthError::ServiceMessage(m) && m@ == match error_message {
                    Some(e) => e@,
                    None => "HTTP "@ + crate::text::dec(code as nat) + " from Ely.by"@,
                }
            },
            None => r matches AuthError::RequestFailed(t) && t@ == transport@,
        },
{
    match status {
        Some(code) => {
            if code == 401 || code == 403 {
                AuthError::ElyCredentials
            } else {
                match error_message {
                    Some(e) => AuthError::ServiceMessage(e),
                    None => {
                        let mut m = to_chars("HTTP ");
                        crate::text::push_dec(&mut m, code as u64);
                        push_str_chars(&mut m, " from Ely.by");
                        AuthError::ServiceMessage(string_of(m.as_slice()))
                    },
                }
            }
        },
        None => AuthError::RequestFailed(transport),
    }
}

/// The account an Ely.by reply logs into: it needs a selected profile and
/// an access token.
pub fn elyby_account(reply: ElyReply) -> (r: Result<Account, AuthError>)
    ensures
        match reply.selected_profile {
            None => r matches Err(AuthError::NoProfile),
            Some(p) => if reply.access_token@.len() == 0 {
                r matches Err(AuthError::NoToken)
            } else {
                r matches Ok(a) && a.username@ == p.name@ && a.uuid@ == p.id@ && a.access_token@
                    == reply.access_token@ && a.kind == AccountKind::ElyBy
            },
        },
{
    let profile = match reply.selected_profile {
        Some(p) => p,
        None => return Err(AuthError::NoProfile),
    };
    if reply.access_token.as_str().is_empty() {
        return Err(AuthError::NoToken);
    }
    Ok(Account { username: profile.name, uuid: profile.id, access_token: reply.access_token, kind: AccountKind::ElyBy })
}

/// The credentials produced by the Microsoft device-code login.
#[derive(Debug, Clone)]
pub struct MicrosoftLogin {
    pub username: String,
    pub uuid: String,
    pub access_token: String,
    pub refresh_token: String,
    /// Seconds the access token stays valid.
    pub expires_in: u64,
}

/// A reply of the Microsoft token endpoint.
#[derive(Debug, Clone)]
pub enum TokenReply {
    Success { access_token: String, refresh_token: String },
    Error { error: String, error_description: String },
}

/// What one poll of the Microsoft token endpoint means.
#[derive(Debug, Clone)]
pub enum PollOutcome {
    /// The user has not finished yet: poll again.
    Pending,
    /// The login went through: go on with these tokens.
    Tokens { access_token: String, refresh_token: String },
    /// The login failed.
    Failed(AuthError),
}

/// Classify a token reply: `authorization_pending` and `slow_down` mean
/// keep polling; other errors end the login.
pub fn poll_outcome(reply: TokenReply) -> (r: PollOutcome)
    ensures
        match reply {
            TokenReply::Success { access_token, refresh_token } => r matches PollOutcome::Tokens {
                access_token: a,
                refresh_token: f,
            } && a@ == access_token@ && f@ == refresh_token@,
            TokenReply::Error { error, error_description } => if error@ == "authorization_pending"@
                || error@ == "slow_down"@ {
                r is Pending
            } else {
                r matches PollOutcome::Failed(AuthError::MicrosoftLogin(e, d)) && e@ == error@ && d@
                    == error_description@
            },
        },
{
    match reply {
        TokenReply::Success { access_token, refresh_token } => PollOutcome::Tokens { access_token, refresh_token },
        TokenReply::Error { error, error_description } => {
            if crate::text::str_eq(error.as_str(), "authorization_pending") || crate::text::str_eq(
                error.as_str(),
                "slow_down",
            ) {
                PollOutcome::Pending
            } else {
                PollOutcome::Failed(AuthError::MicrosoftLogin(error, error_description))
            }
        },
    }
}

/// The polling interval of a device-code login: as given, at least 1 s.
pub fn poll_interval(interval: u64) -> (r: u64)
    ensures
        r == if interval < 1 {
            1
        } else {
            interval
        },
{
    if interval < 1 {
        1
    } else {
        interval
    }
}

/// Why Xbox Live refused an authorization, from its `XErr` code.
pub fn xsts_refusal(code: i64) -> (r: AuthError)
    ensures
        r matches AuthError::Xsts(why, c) && c == code && why@ == if code == 2148916233 {
            "the Microsoft account has no Xbox profile"@
        } else if code == 2148916238 {
            "the account is a child account"@
        } else {
            "Xbox Live authorization failed"@
        },
{
    let why = if code == 2148916233 {
        "the Microsoft account has no Xbox profile"
    } else if code == 2148916238 {
        "the account is a child account"
    } else {
        "Xbox Live authorization failed"
    };
    AuthError::Xsts(string_of(to_chars(why).as_slice()), code)
}

} // verus!
