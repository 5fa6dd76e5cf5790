//! Sessions: who is logged in, and how a request proves it.

use std::str::FromStr;
use vstd::arithmetic::power2::pow2;
use vstd::prelude::*;
use vstd::utf8::encode_utf8;

verus! {

/// Why a request could not be authenticated.
#[derive(Debug, PartialEq, Eq, Structural)]
pub enum LoginError {
    Error,
}

/// A session identifier: the 128 bits of a UUID, big-endian.
#[derive(Debug, Clone, Copy, PartialEq, Eq, Hash, Structural)]
pub struct Uuid {
    pub uuid: u128,
}

impl Uuid {
    /// Wraps the bits of a UUID.
    pub fn wrap(uuid: u128) -> (res: Self)
        ensures
            res.uuid == uuid,
    {
        Self { uuid }
    }
}

/// A session: the identifier handed to a logged-in user.
#[derive(Debug, Clone, Copy, PartialEq, Eq, Structural)]
pub struct Session(pub Uuid);

impl From<u128> for Session {
    /// The session named by the bits of a UUID.
    fn from(value: u128) -> (s: Self) {
        Session(Uuid { uuid: value })
    }
}

impl Session {
    /// The session identifier as a client holds it in its cookie: the UUID
    /// in its hyphenated form.
    pub fn cookie_text(&self) -> (text: String)
        ensures
            text@ == uuid_text(self.0.uuid),
            uuid_parse(text@) == Some(self.0.uuid),
    {
        uuid_to_text(self.0.uuid)
    }
}

impl vstd::std_specs::convert::FromSpecImpl<u128> for Session {
    open spec fn obeys_from_spec() -> bool {
        true
    }

    open spec fn from_spec(v: u128) -> Session {
        Session(Uuid { uuid: v })
    }
}

#[verifier::external_type_specification]
#[verifier::external_body]
#[verifier::reject_recursive_types(L)]
#[verifier::reject_recursive_types(R)]
#[verifier::reject_recursive_types(LS)]
#[verifier::reject_recursive_types(RS)]
pub struct ExBiHashMap<L, R, LS, RS>(bimap::BiHashMap<L, R, LS, RS>);

/// The pairs that a `BiHashMap<String, u128>` holds, as a map from the left
/// value (an e-mail address) to the right value (a session identifier).
pub uninterp spec fn bimap_pairs(m: bimap::BiHashMap<String, u128>) -> Map<Seq<char>, u128>;

/// The length, in bytes, of a password hash.
pub const OUTPUT_SIZE: usize = 24;

/// What `scrypt` writes into an output buffer of `len` bytes for the given
/// password, salt and cost parameters (`log_n`, `r`, `p`).
pub uninterp spec fn scrypt_output(
    password: Seq<u8>,
    salt: Seq<u8>,
    log_n: u8,
    r: u32,
    p: u32,
    len: nat,
) -> Seq<u8>;

/// `rust-crypto`'s `scrypt`, with its parameters built by `ScryptParams::new`.
/// The output buffer keeps its length and is filled with the derived key.
/// `requires` leaves out the parameters on which either function panics.
#[verifier::external_body]
fn scrypt_into(password: &[u8], salt: &[u8], log_n: u8, r: u32, p: u32, output: &mut [u8])
    requires
        0 < r,
        0 < p,
        0 < log_n,
        log_n < usize::BITS,
        r * 128 * pow2(log_n as nat) <= usize::MAX,
        r * 128 * p <= usize::MAX,
        log_n < r * 16,
        r * p < 0x40000000,
        0 < old(output)@.len(),
        old(output)@.len() <= 0xffffffff * 32,
    ensures
        final(output)@.len() == old(output)@.len(),
        final(output)@ == scrypt_output(password@, salt@, log_n, r, p, old(output)@.len()),
{
    crypto::scrypt::scrypt(password, salt, &crypto::scrypt::ScryptParams::new(log_n, r, p), output);
}

/// `uuid::Uuid::new_v4`, read back as its 128 bits: random, save for the
/// version and variant bits that every version-4 UUID carries.
#[verifier::external_body]
fn new_v4_bits() -> (id: u128)
    ensures
        id & 0xF000C000000000000000u128 == 0x40008000000000000000u128,
{
    uuid::Uuid::new_v4().as_u128()
}

/// What `uuid::Uuid::from_str` makes of `text`: the 128 bits of the UUID it
/// spells, or `None` where it is no UUID.
pub uninterp spec fn uuid_parse(text: Seq<char>) -> Option<u128>;

/// `uuid::Uuid::from_str`, the parsed UUID read back as its 128 bits.
#[verifier::external_body]
fn parse_uuid(text: &str) -> (id: Option<u128>)
    ensures
        id == uuid_parse(text@),
{
    match uuid::Uuid::from_str(text) {
        Ok(u) => Some(u.as_u128()),
        Err(_) => None,
    }
}

/// The hexadecimal digit of `d` (0 to 15), in lower case.
pub open spec fn hex_digit(d: int) -> char {
    if d < 10 {
        (48 + d) as char
    } else {
        (87 + d) as char
    }
}

/// The `k`-th group of four bits of `id`, counting from the most significant.
pub open spec fn uuid_nibble(id: u128, k: int) -> int {
    (id as int / pow2((124 - 4 * k) as nat) as int) % 16
}

/// How many hyphens the hyphenated form of a UUID has before position `i`.
pub open spec fn hyphens_before(i: int) -> int {
    if i <= 8 {
        0
    } else if i <= 13 {
        1
    } else if i <= 18 {
        2
    } else if i <= 23 {
        3
    } else {
        4
    }
}

/// The hyphenated form of a UUID: its 32 hexadecimal digits in lower case,
/// most significant first, in groups of 8, 4, 4, 4 and 12 joined by `-`.
pub open spec fn uuid_text(id: u128) -> Seq<char> {
    Seq::new(
        36,
        |i: int|
            if i == 8 || i == 13 || i == 18 || i == 23 {
                '-'
            } else {
                hex_digit(uuid_nibble(id, i - hyphens_before(i)))
            },
    )
}

/// `uuid::Uuid::from_u128` then `to_string`: the UUID in its hyphenated
/// form, which `uuid::Uuid::from_str` reads back as the same UUID.
#[verifier::external_body]
fn uuid_to_text(id: u128) -> (text: String)
    ensures
        text@ == uuid_text(id),
        uuid_parse(text@) == Some(id),
{
    uuid::Uuid::from_u128(id).to_string()
}

/// `BiHashMap::new`: the new bimap holds no pair.
#[verifier::external_body]
fn bimap_new() -> (fresh: bimap::BiHashMap<String, u128>)
    ensures
        bimap_pairs(fresh) =~= Map::empty(),
{
    bimap::BiHashMap::new()
}

/// `BiHashMap::insert`: every pair whose left value is `left` or whose right
/// value is `right` is removed, then the pair `(left, right)` is added. The
/// report of what was overwritten is dropped.
#[verifier::external_body]
fn bimap_insert(m: &mut bimap::BiHashMap<String, u128>, left: String, right: u128)
    ensures
        bimap_pairs(*final(m)) == pairs_with(bimap_pairs(*old(m)), left@, right),
{
    m.insert(left, right);
}

/// `BiHashMap::remove_by_right`: the pair whose right value is `right`, if
/// any, is removed; the removed pair is dropped.
#[verifier::external_body]
fn bimap_remove_by_right(m: &mut bimap::BiHashMap<String, u128>, right: &u128)
    ensures
        bimap_pairs(*final(m)) == pairs_without(bimap_pairs(*old(m)), *right),
{
    m.remove_by_right(right);
}

/// `BiHashMap::get_by_right`, with the left value cloned: a left value paired
/// with `right`, or `None` when no pair has right value `right`.
#[verifier::external_body]
fn bimap_get_by_right(m: &bimap::BiHashMap<String, u128>, right: &u128) -> (left: Option<String>)
    ensures
        match left {
            Some(e) => bimap_pairs(*m).contains_key(e@) && bimap_pairs(*m)[e@] == *right,
            None => !pairs_hold(bimap_pairs(*m), *right),
        },
{
    m.get_by_right(right).cloned()
}

/// The pairs of `m` whose right value is not `id`.
pub open spec fn pairs_without(m: Map<Seq<char>, u128>, id: u128) -> Map<Seq<char>, u128> {
    Map::new(|e: Seq<char>| m.contains_key(e) && m[e] != id, |e: Seq<char>| m[e])
}

/// The pairs of `m` once `(email, id)` is added and every pair that shares
/// its e-mail or its identifier is dropped.
pub open spec fn pairs_with(m: Map<Seq<char>, u128>, email: Seq<char>, id: u128) -> Map<
    Seq<char>,
    u128,
> {
    pairs_without(m.remove(email), id).insert(email, id)
}

/// Whether some e-mail is paired with `id` in `m`.
pub open spec fn pairs_hold(m: Map<Seq<char>, u128>, id: u128) -> bool {
    exists|e: Seq<char>| m.contains_key(e) && m[e] == id
}

/// No two e-mails share an identifier.
pub open spec fn one_to_one(m: Map<Seq<char>, u128>) -> bool {
    forall|a: Seq<char>, b: Seq<char>|
        m.contains_key(a) && m.contains_key(b) && m[a] == m[b] ==> a == b
}

/// The e-mail paired with `id` in `m`, if there is one.
pub open spec fn email_of(m: Map<Seq<char>, u128>, id: u128) -> Option<Seq<char>> {
    if pairs_hold(m, id) {
        Some(choose|e: Seq<char>| m.contains_key(e) && m[e] == id)
    } else {
        None
    }
}

/// The hash that `Keyring::hash_string` gives for `input`.
pub open spec fn password_digest(input: Seq<char>) -> Seq<u8> {
    scrypt_output(encode_utf8(input), seq![1u8, 2u8, 4u8, 5u8], 5, 5, 5, OUTPUT_SIZE as nat)
}

/// Whether a stored hash was found and equals `digest`.
pub open spec fn hash_accepted(digest: Seq<u8>, stored_hash: Option<&[u8]>) -> bool {
    match stored_hash {
        Some(h) => h@ == digest,
        None => false,
    }
}

/// The session that the parsed identifier `id` names, if it is live in `m`.
pub open spec fn session_for(m: Map<Seq<char>, u128>, id: Option<u128>) -> Option<Session> {
    match id {
        Some(i) => if pairs_hold(m, i) {
            Some(Session(Uuid { uuid: i }))
        } else {
            None
        },
        None => None,
    }
}

/// The sessions that are currently active: each e-mail address that is
/// logged in, paired with its session identifier.
pub struct Keyring {
    all: bimap::BiHashMap<String, u128>,
}

impl View for Keyring {
    type V = Map<Seq<char>, u128>;

    closed spec fn view(&self) -> Map<Seq<char>, u128> {
        bimap_pairs(self.all)
    }
}

impl Keyring {
    /// No identifier is shared by two e-mail addresses.
    #[verifier::type_invariant]
    spec fn wf(&self) -> bool {
        one_to_one(self@)
    }

    /// Takes the pairs out, leaving the keyring empty for the moment.
    fn take_all(&mut self) -> (all: bimap::BiHashMap<String, u128>)
        ensures
            bimap_pairs(all) == old(self)@,
            final(self)@ == Map::<Seq<char>, u128>::empty(),
    {
        let mut all = bimap_new();
        std::mem::swap(&mut all, &mut self.all);
        all
    }

    /// A keyring with no session.
    pub fn new() -> (k: Self)
        ensures
            k@ == Map::<Seq<char>, u128>::empty(),
    {
        Self { all: bimap_new() }
    }

    /// Hashes a password: `scrypt` over its UTF-8 bytes with a fixed salt and
    /// fixed costs, into 24 bytes.
    pub fn hash_string(input: &str) -> (res: [u8; OUTPUT_SIZE])
        ensures
            res@ == password_digest(input@),
    {
        let mut hashed_password = [0u8; OUTPUT_SIZE];
        let salt: [u8; 4] = [1, 2, 4, 5];
        proof {
            vstd::arithmetic::power2::lemma2_to64();
            assert(salt@ =~= seq![1u8, 2u8, 4u8, 5u8]);
        }
        scrypt_into(input.as_bytes(), &salt, 5, 5, 5, &mut hashed_password);
        hashed_password
    }

    /// Whether a stored hash was found and equals the hash of the password
    /// that was given.
    pub fn password_matches(password_hash: &[u8], stored_hash: Option<&[u8]>) -> (ok: bool)
        ensures
            ok == hash_accepted(password_hash@, stored_hash),
    {
        match stored_hash {
            Some(h) => bytes_equal(password_hash, h),
            None => false,
        }
    }

    /// Opens a session `id` for `email`, closing any session that the e-mail
    /// or the identifier had.
    pub fn start_session(&mut self, email: &str, id: Uuid) -> (s: Session)
        ensures
            one_to_one(final(self)@),
            s == Session(id),
            final(self)@ == pairs_with(old(self)@, email@, id.uuid),
    {
        proof {
            use_type_invariant(&*self);
        }
        let mut all = self.take_all();
        bimap_insert(&mut all, email.to_owned(), id.uuid);
        proof {
            lemma_pairs_with_one_to_one(old(self)@, email@, id.uuid);
        }
        self.all = all;
        Session(id)
    }

    /// Logs in `email` with `password`, against the stored hash of the
    /// account's password (`None` where no account has that e-mail). On a
    /// match a new session with a random identifier is opened and returned.
    pub fn login(&mut self, email: &str, password: &str, stored_hash: Option<&[u8]>) -> (res:
        Option<Session>)
        ensures
            one_to_one(final(self)@),
            res is Some <==> hash_accepted(password_digest(password@), stored_hash),
            match res {
                Some(s) => final(self)@ == pairs_with(old(self)@, email@, s.0.uuid) && s.0.uuid
                    & 0xF000C000000000000000u128 == 0x40008000000000000000u128,
                None => final(self)@ == old(self)@,
            },
    {
        proof {
            use_type_invariant(&*self);
        }
        match stored_hash {
            Some(stored) => {
                let hashed = Self::hash_string(password);
                if Self::password_matches(&hashed, Some(stored)) {
                    let user_id = Uuid::wrap(new_v4_bits());
                    return Some(self.start_session(email, user_id));
                }
            },
            None => {},
        }
        None
    }

    /// Closes the session `session`, if it is open.
    pub fn logout(&mut self, session: &Session)
        ensures
            one_to_one(final(self)@),
            final(self)@ == pairs_without(old(self)@, session.0.uuid),
    {
        proof {
            use_type_invariant(&*self);
        }
        let mut all = self.take_all();
        bimap_remove_by_right(&mut all, &session.0.uuid);
        proof {
            lemma_pairs_without_one_to_one(old(self)@, session.0.uuid);
        }
        self.all = all;
    }

    /// Whether `session_id` names an open session.
    pub fn is_valid_session(&self, session_id: &Session) -> (valid: bool)
        ensures
            valid == pairs_hold(self@, session_id.0.uuid),
    {
        self.get_email(session_id).is_some()
    }

    /// The e-mail address whose session `session_id` is.
    pub fn get_email(&self, session_id: &Session) -> (email: Option<String>)
        ensures
            match email {
                Some(e) => email_of(self@, session_id.0.uuid) == Some(e@),
                None => email_of(self@, session_id.0.uuid) is None,
            },
    {
        proof {
            use_type_invariant(self);
        }
        let found = bimap_get_by_right(&self.all, &session_id.0.uuid);
        proof {
            if found is Some {
                let e = found->Some_0;
                let id = session_id.0.uuid;
                assert(self@.contains_key(e@) && self@[e@] == id);
                let c = choose|x: Seq<char>| self@.contains_key(x) && self@[x] == id;
                assert(self@.contains_key(c) && self@[c] == id);
            }
        }
        found
    }

    /// The open session named by a parsed identifier.
    pub fn session_for_id(&self, id: Option<u128>) -> (s: Option<Session>)
        ensures
            s == session_for(self@, id),
    {
        match id {
            Some(i) => {
                let session = Session(Uuid::wrap(i));
                if self.is_valid_session(&session) {
                    Some(session)
                } else {
                    None
                }
            },
            None => None,
        }
    }

    /// The open session that a session cookie names.
    pub fn session_from_cookie(&self, cookie: &str) -> (s: Option<Session>)
        ensures
            s == session_for(self@, uuid_parse(cookie@)),
    {
        self.session_for_id(parse_uuid(cookie))
    }

    /// Authenticates a request: first by its session cookie; failing that,
    /// by the e-mail and password it carries, which logs the user in.
    /// `stored_hash` is the stored hash of the password of the account with
    /// that e-mail, `None` where there is none.
    pub fn authenticate(
        &mut self,
        cookie: Option<&str>,
        email: Option<&str>,
        password: Option<&str>,
        stored_hash: Option<&[u8]>,
    ) -> (res: Result<Session, LoginError>)
        ensures
            one_to_one(final(self)@),
            ({
                let by_cookie = match cookie {
                    Some(c) => session_for(old(self)@, uuid_parse(c@)),
                    None => None,
                };
                match by_cookie {
                    Some(s) => res == Ok::<Session, LoginError>(s) && final(self)@ == old(self)@,
                    None => match (email, password) {
                        (Some(e), Some(p)) => if hash_accepted(password_digest(p@), stored_hash) {
                            res is Ok && final(self)@ == pairs_with(
                                old(self)@,
                                e@,
                                res->Ok_0.0.uuid,
                            ) && res->Ok_0.0.uuid & 0xF000C000000000000000u128
                                == 0x40008000000000000000u128
                        } else {
                            res == Err::<Session, LoginError>(LoginError::Error) && final(self)@
                                == old(self)@
                        },
                        _ => res == Err::<Session, LoginError>(LoginError::Error) && final(self)@
                            == old(self)@,
                    },
                }
            }),
    {
        proof {
            use_type_invariant(&*self);
        }
        if let Some(c) = cookie {
            if let Some(s) = self.session_from_cookie(c) {
                return Ok(s);
            }
        }
        if let Some(e) = email {
            if let Some(p) = password {
                if let Some(s) = self.login(e, p, stored_hash) {
                    return Ok(s);
                }
            }
        }
        Err(LoginError::Error)
    }
}

/// Whether two byte strings are equal.
fn bytes_equal(a: &[u8], b: &[u8]) -> (eq: bool)
    ensures
        eq == (a@ == b@),
{
    if a.len() != b.len() {
        return false;
    }
    let mut i: usize = 0;
    while i < a.len()
        invariant
            a@.len() == b@.len(),
            i <= a@.len(),
            forall|j: int| 0 <= j < i ==> a@[j] == b@[j],
        decreases a@.len() - i,
    {
        if a[i] != b[i] {
            return false;
        }
        i = i + 1;
    }
    assert(a@ =~= b@);
    true
}

/// Dropping the pairs with one identifier keeps the map one-to-one.
pub proof fn lemma_pairs_without_one_to_one(m: Map<Seq<char>, u128>, id: u128)
    requires
        one_to_one(m),
    ensures
        one_to_one(pairs_without(m, id)),
{
}

/// Adding a pair the way a bimap does keeps the map one-to-one.
pub proof fn lemma_pairs_with_one_to_one(m: Map<Seq<char>, u128>, email: Seq<char>, id: u128)
    requires
        one_to_one(m),
    ensures
        one_to_one(pairs_with(m, email, id)),
{
    let n = pairs_with(m, email, id);
    assert forall|a: Seq<char>, b: Seq<char>|
        n.contains_key(a) && n.contains_key(b) && n[a] == n[b] implies a == b by {
        if a != email && b != email {
            assert(m[a] == n[a] && m[b] == n[b]);
        }
    }
}

/// After a login opens session `id` for `email`, the session is open and
/// belongs to `email`.
pub proof fn law_login_then_lookup(m: Map<Seq<char>, u128>, email: Seq<char>, id: u128)
    requires
        one_to_one(m),
    ensures
        pairs_hold(pairs_with(m, email, id), id),
        email_of(pairs_with(m, email, id), id) == Some(email),
{
    let n = pairs_with(m, email, id);
    lemma_pairs_with_one_to_one(m, email, id);
    assert(n.contains_key(email) && n[email] == id);
    let c = choose|x: Seq<char>| n.contains_key(x) && n[x] == id;
    assert(n.contains_key(c) && n[c] == id);
}

/// The cookie text of an open session authenticates as that session; once
/// the session is closed, the same text no longer authenticates.
pub proof fn law_cookie_names_its_session(m: Map<Seq<char>, u128>, s: Session, text: Seq<char>)
    requires
        uuid_parse(text) == Some(s.0.uuid),
    ensures
        pairs_hold(m, s.0.uuid) ==> session_for(m, uuid_parse(text)) == Some(s),
        session_for(pairs_without(m, s.0.uuid), uuid_parse(text)) is None,
{
}

/// After a logout of session `id`, that session is no longer open.
pub proof fn law_logout_ends_session(m: Map<Seq<char>, u128>, id: u128)
    ensures
        !pairs_hold(pairs_without(m, id), id),
        email_of(pairs_without(m, id), id) is None,
{
}

/// A logout leaves every other session as it was.
pub proof fn law_logout_keeps_other_sessions(m: Map<Seq<char>, u128>, id: u128, other: u128)
    requires
        one_to_one(m),
        other != id,
    ensures
        pairs_hold(pairs_without(m, id), other) == pairs_hold(m, other),
        email_of(pairs_without(m, id), other) == email_of(m, other),
{
    let n = pairs_without(m, id);
    lemma_pairs_without_one_to_one(m, id);
    if pairs_hold(m, other) {
        let w = choose|x: Seq<char>| m.contains_key(x) && m[x] == other;
        assert(n.contains_key(w) && n[w] == other);
        let c = choose|x: Seq<char>| n.contains_key(x) && n[x] == other;
        assert(n.contains_key(c) && n[c] == other);
        assert(m.contains_key(c) && m[c] == other);
    }
}

/// A new login for an e-mail closes the session that e-mail had.
pub proof fn law_relogin_replaces_session(
    m: Map<Seq<char>, u128>,
    email: Seq<char>,
    old_id: u128,
    new_id: u128,
)
    requires
        one_to_one(m),
        m.contains_key(email),
        m[email] == old_id,
        old_id != new_id,
    ensures
        !pairs_hold(pairs_with(m, email, new_id), old_id),
{
    let n = pairs_with(m, email, new_id);
    assert forall|x: Seq<char>| n.contains_key(x) implies n[x] != old_id by {
        if x != email {
            assert(m.contains_key(x) && m[x] == n[x]);
        }
    }
}

/// A login for one e-mail leaves the session of any other e-mail as it was,
/// unless the new identifier is that very session's.
pub proof fn law_login_keeps_other_users(
    m: Map<Seq<char>, u128>,
    email: Seq<char>,
    id: u128,
    other: Seq<char>,
)
    requires
        other != email,
        m.contains_key(other),
        m[other] != id,
    ensures
        pairs_with(m, email, id).contains_key(other),
        pairs_with(m, email, id)[other] == m[other],
{
}

/// Every operation keeps the keyring one-to-one: a session identifier
/// belongs to at most one e-mail address, and an e-mail address has at most
/// one session.
pub proof fn law_keyring_stays_one_to_one(m: Map<Seq<char>, u128>, email: Seq<char>, id: u128)
    requires
        one_to_one(m),
    ensures
        one_to_one(pairs_with(m, email, id)),
        one_to_one(pairs_without(m, id)),
        one_to_one(Map::<Seq<char>, u128>::empty()),
{
    lemma_pairs_with_one_to_one(m, email, id);
    lemma_pairs_without_one_to_one(m, id);
}

/// A step of the keyring, as its methods take it: a successful login that
/// opened session `id` for an e-mail (`login`, `start_session`, or the
/// credentials branch of `authenticate`), or a logout of session `id`.
pub enum KeyringEvent {
    Login(Seq<char>, u128),
    Logout(u128),
}

/// The pairs of a keyring after one step, as the methods' `ensures` state it.
pub open spec fn after_event(m: Map<Seq<char>, u128>, ev: KeyringEvent) -> Map<Seq<char>, u128> {
    match ev {
        KeyringEvent::Login(email, id) => pairs_with(m, email, id),
        KeyringEvent::Logout(id) => pairs_without(m, id),
    }
}

/// The pairs of a keyring made by `Keyring::new` after the steps `events`.
pub open spec fn replay(events: Seq<KeyringEvent>) -> Map<Seq<char>, u128>
    decreases events.len(),
{
    if events.len() == 0 {
        Map::empty()
    } else {
        after_event(replay(events.drop_last()), events.last())
    }
}

/// Whether step `ev` ends the session `id` of `email`: a logout of `id`, a
/// new login for `email`, or a login that hands `id` to someone.
pub open spec fn ends_session(ev: KeyringEvent, email: Seq<char>, id: u128) -> bool {
    match ev {
        KeyringEvent::Login(e, r) => e == email || r == id,
        KeyringEvent::Logout(r) => r == id,
    }
}

/// Whether some step of `events` logged `email` in with session `id`, and no
/// later step ended that session.
pub open spec fn session_survives(events: Seq<KeyringEvent>, email: Seq<char>, id: u128) -> bool {
    exists|i: int|
        0 <= i < events.len() && events[i] == KeyringEvent::Login(email, id) && forall|j: int|
            i < j < events.len() ==> !ends_session(#[trigger] events[j], email, id)
}

/// In a one-to-one map, the e-mail of a session is the one paired with it.
pub proof fn lemma_email_of_one_to_one(m: Map<Seq<char>, u128>, id: u128, email: Seq<char>)
    requires
        one_to_one(m),
    ensures
        email_of(m, id) == Some(email) <==> (m.contains_key(email) && m[email] == id),
{
    if m.contains_key(email) && m[email] == id {
        let c = choose|x: Seq<char>| m.contains_key(x) && m[x] == id;
        assert(m.contains_key(c) && m[c] == id);
    }
}

/// Replaying steps from an empty keyring keeps it one-to-one.
pub proof fn lemma_replay_one_to_one(events: Seq<KeyringEvent>)
    ensures
        one_to_one(replay(events)),
    decreases events.len(),
{
    if events.len() > 0 {
        lemma_replay_one_to_one(events.drop_last());
        let m = replay(events.drop_last());
        match events.last() {
            KeyringEvent::Login(e, r) => lemma_pairs_with_one_to_one(m, e, r),
            KeyringEvent::Logout(r) => lemma_pairs_without_one_to_one(m, r),
        }
    }
}

/// Over any sequence of logins and logouts on a keyring made by
/// `Keyring::new`, `get_email` of session `id` gives `email` exactly when a
/// login opened `id` for `email` and no later step ended it (a logout of
/// `id`, another login of `email`, or a login that reused `id`); it gives
/// nothing when no such login exists.
pub proof fn law_get_email_over_history(events: Seq<KeyringEvent>, email: Seq<char>, id: u128)
    ensures
        email_of(replay(events), id) == Some(email) <==> session_survives(events, email, id),
        email_of(replay(events), id) is None <==> forall|e: Seq<char>|
            !#[trigger] session_survives(events, e, id),
    decreases events.len(),
{
    lemma_replay_one_to_one(events);
    lemma_email_of_one_to_one(replay(events), id, email);
    lemma_history_pairs(events, email, id);
    if email_of(replay(events), id) is None {
        assert forall|e: Seq<char>| !#[trigger] session_survives(events, e, id) by {
            lemma_history_pairs(events, e, id);
            lemma_email_of_one_to_one(replay(events), id, e);
        }
    } else {
        let e = email_of(replay(events), id)->Some_0;
        lemma_history_pairs(events, e, id);
        lemma_email_of_one_to_one(replay(events), id, e);
        assert(session_survives(events, e, id));
    }
}

/// The pair `(email, id)` is in the replayed keyring exactly when a login
/// opened it and no later step ended it.
proof fn lemma_history_pairs(events: Seq<KeyringEvent>, email: Seq<char>, id: u128)
    ensures
        (replay(events).contains_key(email) && replay(events)[email] == id) <==> session_survives(
            events,
            email,
            id,
        ),
    decreases events.len(),
{
    if events.len() == 0 {
        assert(replay(events) =~= Map::<Seq<char>, u128>::empty());
    } else {
        let prev = events.drop_last();
        let n = events.len() - 1;
        lemma_history_pairs(prev, email, id);
        let m = replay(prev);
        let ev = events.last();
        assert(replay(events) == after_event(m, ev));
        if session_survives(events, email, id) {
            let i = choose|i: int|
                0 <= i < events.len() && events[i] == KeyringEvent::Login(email, id) && forall|
                    j: int,
                | i < j < events.len() ==> !ends_session(#[trigger] events[j], email, id);
            if i < n {
                assert(!ends_session(events[n], email, id));
                assert(prev[i] == events[i]);
                assert forall|j: int| i < j < prev.len() implies !ends_session(
                    #[trigger] prev[j],
                    email,
                    id,
                ) by {
                    assert(prev[j] == events[j]);
                }
                assert(session_survives(prev, email, id));
            }
        }
        if !ends_session(ev, email, id) && session_survives(prev, email, id) {
            let i = choose|i: int|
                0 <= i < prev.len() && prev[i] == KeyringEvent::Login(email, id) && forall|j: int|
                    i < j < prev.len() ==> !ends_session(#[trigger] prev[j], email, id);
            assert forall|j: int| i < j < events.len() implies !ends_session(
                #[trigger] events[j],
                email,
                id,
            ) by {
                if j < n {
                    assert(prev[j] == events[j]);
                }
            }
            assert(events[i] == prev[i]);
        }
        if ev == KeyringEvent::Login(email, id) {
            assert(forall|j: int| n < j < events.len() ==> !ends_session(#[trigger] events[j], email, id));
            assert(events[n] == KeyringEvent::Login(email, id));
        }
    }
}

/// A password is hashed over bytes that decode back to exactly that
/// password, with the fixed salt and costs: two passwords that differ in any
/// character are hashed over different bytes.
pub proof fn law_password_digest_hashes_the_password(password: Seq<char>)
    ensures
        exists|bytes: Seq<u8>|
            #[trigger] vstd::utf8::decode_utf8(bytes) == password && password_digest(password)
                == scrypt_output(bytes, seq![1u8, 2u8, 4u8, 5u8], 5, 5, 5, 24),
{
    let bytes = encode_utf8(password);
    vstd::utf8::encode_utf8_decode_utf8(password);
    assert(vstd::utf8::decode_utf8(bytes) == password);
}


} // verus!
