//! The authentication coordinator: it turns the stateless proof engine
//! into a multi-user challenge-response protocol with registration,
//! per-attempt challenge issuance, verification, rate limiting, and
//! session-token issuance. The transport layer hands it byte encodings
//! and plain strings and performs the locking around each call; every
//! decision the protocol takes is made here.

use crate::bignum::Bignum;
use crate::bignum::be_val;
use crate::bignum::big_random_below;
use crate::engine::ZKP;
use crate::engine::ZkpError;
use crate::engine::ZkpResult;
use crate::engine::verify_passes;
use crate::serialization::deserialize_biguint;
use crate::serialization::serialize_biguint;
use vstd::prelude::*;
use vstd::string::StringSliceAdditionalSpecFns;

verus! {

/// Server configuration for the transport layer around the coordinator.
pub struct ServerConfig {
    pub host: String,
    pub port: u16,
    pub request_timeout_secs: u64,
    pub max_concurrent_streams: u32,
    pub enable_reflection: bool,
    pub log_level: String,
}

impl Default for ServerConfig {
    /// A local development default.
    fn default() -> (r: Self)
        ensures
            r.host@ == "127.0.0.1"@,
            r.port == 50051,
            r.request_timeout_secs == 30,
            r.max_concurrent_streams == 100,
            !r.enable_reflection,
            r.log_level@ == "info"@,
    {
        Self {
            host: "127.0.0.1".to_owned(),
            port: 50051,
            request_timeout_secs: 30,
            max_concurrent_streams: 100,
            enable_reflection: false,
            log_level: "info".to_owned(),
        }
    }
}

/// The coordinator's error kinds, one per failure class, so callers can
/// tell malformed input, policy refusals, and failed proofs apart.
#[derive(Debug, Clone, Copy, PartialEq, Eq, Structural)]
pub enum AuthError {
    /// Out-of-range or malformed numeric or string input.
    InvalidInput,
    /// Registration for a username that already has a record.
    AlreadyRegistered,
    /// Unknown username or auth id.
    NotFound,
    /// A challenge was requested again too soon.
    RateLimited,
    /// Verification was attempted with no pending challenge.
    FailedPrecondition,
    /// The cryptographic proof itself failed.
    PermissionDenied,
    /// A malformed byte encoding.
    SerializationError,
}

/// Per-user registration state and the pending-challenge slot.
pub struct UserInfo {
    pub user_name: String,
    pub y1: Bignum,
    pub y2: Bignum,
    pub registration_timestamp: u64,
    pub r1: Option<Bignum>,
    pub r2: Option<Bignum>,
    pub last_challenge_timestamp: Option<u64>,
    pub c: Option<Bignum>,
    pub s: Option<Bignum>,
    pub session_id: Option<String>,
    pub last_successful_auth: Option<u64>,
    pub failed_attempts: u32,
}

impl Default for UserInfo {
    /// An empty record; the coordinator fills in the identity fields.
    fn default() -> (r: Self)
        ensures
            r.user_name@.len() == 0,
            r.y1.val() == 0,
            r.y2.val() == 0,
            r.registration_timestamp == 0,
            r.r1 is None,
            r.r2 is None,
            r.last_challenge_timestamp is None,
            r.c is None,
            r.s is None,
            r.session_id is None,
            r.last_successful_auth is None,
            r.failed_attempts == 0,
    {
        Self {
            user_name: String::new(),
            y1: Bignum::from_u64(0),
            y2: Bignum::from_u64(0),
            registration_timestamp: 0,
            r1: None,
            r2: None,
            last_challenge_timestamp: None,
            c: None,
            s: None,
            session_id: None,
            last_successful_auth: None,
            failed_attempts: 0,
        }
    }
}

/// No two entries of an association list share a key.
pub open spec fn keys_distinct<T>(s: Seq<(String, T)>) -> bool {
    forall|i: int, j: int| 0 <= i < j < s.len() ==> s[i].0@ != s[j].0@
}

/// Some entry has this key.
pub open spec fn has_key<T>(s: Seq<(String, T)>, name: Seq<char>) -> bool {
    exists|i: int| 0 <= i < s.len() && s[i].0@ == name
}

/// The position of the entry with this key (meaningful when `has_key`
/// holds and keys are distinct).
pub open spec fn key_index<T>(s: Seq<(String, T)>, name: Seq<char>) -> int {
    choose|i: int| 0 <= i < s.len() && s[i].0@ == name
}

/// The value stored under this key.
pub open spec fn value_of<T>(s: Seq<(String, T)>, name: Seq<char>) -> T {
    s[key_index(s, name)].1
}

/// With distinct keys, any position holding the key is the key's position.
proof fn lemma_key_index_agrees<T>(s: Seq<(String, T)>, name: Seq<char>, i: int)
    requires
        keys_distinct(s),
        0 <= i < s.len(),
        s[i].0@ == name,
    ensures
        has_key(s, name),
        key_index(s, name) == i,
{
    assert(has_key(s, name));
    let j = key_index(s, name);
    if i != j {
        assert(s[i].0@ != s[j].0@);
    }
}

/// Finds the entry with this key, if one exists.
fn find_index<T>(v: &Vec<(String, T)>, name: &String) -> (r: Option<usize>)
    ensures
        match r {
            Some(i) => 0 <= i < v@.len() && v@[i as int].0@ == name@,
            None => !has_key(v@, name@),
        },
{
    let mut i: usize = 0;
    while i < v.len()
        invariant
            i <= v@.len(),
            forall|j: int| 0 <= j < i ==> v@[j].0@ != name@,
        decreases v@.len() - i,
    {
        if v[i].0 == *name {
            return Some(i);
        }
        i = i + 1;
    }
    None
}

/// Relies on uuid: `Uuid::new_v4` draws a random UUID from the operating
/// system's entropy source and `to_string` writes its hyphenated form,
/// which is always 36 ASCII characters.
#[verifier::external_body]
fn new_opaque_token() -> (r: String)
    ensures
        r@.len() == 36,
{
    uuid::Uuid::new_v4().to_string()
}

/// A user record the coordinator may hold: commitments strictly between 1
/// and `p`, challenge data in range and present as one unit.
pub open spec fn record_wf(u: UserInfo, p: nat, q: nat) -> bool {
    &&& u.y1.wf() && u.y2.wf()
    &&& 1 < u.y1.val() < p
    &&& 1 < u.y2.val() < p
    &&& (match u.r1 {
        Some(r) => r.wf() && 1 < r.val() < p,
        None => true,
    })
    &&& (match u.r2 {
        Some(r) => r.wf() && 1 < r.val() < p,
        None => true,
    })
    &&& (match u.c {
        Some(c) => c.wf() && c.val() < q,
        None => true,
    })
    &&& (match u.s {
        Some(s) => s.wf() && s.val() < q,
        None => true,
    })
    &&& (u.r1 is Some <==> u.c is Some)
    &&& (u.r2 is Some <==> u.c is Some)
    &&& (u.c is Some ==> u.last_challenge_timestamp is Some)
}

/// The record has a pending challenge.
pub open spec fn has_challenge(u: UserInfo) -> bool {
    u.c is Some
}

/// The authentication coordinator: the user table, the auth-id index, the
/// group parameters, and the policy configuration.
pub struct AuthImpl {
    pub user_info: Vec<(String, UserInfo)>,
    pub auth_id_to_user: Vec<(String, String)>,
    pub zkp: ZKP,
    pub min_challenge_interval_ms: u64,
    pub max_username_len: usize,
}

impl AuthImpl {
    /// The coordinator's invariant: valid group parameters; distinct
    /// usernames; well-formed records; at most one live auth id per user;
    /// and every auth id resolves to a registered user whose record holds
    /// a pending challenge.
    pub open spec fn wf(&self) -> bool {
        &&& self.zkp.wf()
        &&& keys_distinct(self.user_info@)
        &&& keys_distinct(self.auth_id_to_user@)
        &&& (forall|i: int|
            0 <= i < self.user_info@.len() ==> record_wf(
                #[trigger] self.user_info@[i].1,
                self.zkp.p.val(),
                self.zkp.q.val(),
            ))
        &&& (forall|i: int, j: int|
            0 <= i < j < self.auth_id_to_user@.len() ==> self.auth_id_to_user@[i].1@
                != self.auth_id_to_user@[j].1@)
        &&& (forall|i: int|
            0 <= i < self.auth_id_to_user@.len() ==> {
                &&& has_key(self.user_info@, (#[trigger] self.auth_id_to_user@[i]).1@)
                &&& has_challenge(value_of(self.user_info@, self.auth_id_to_user@[i].1@))
            })
    }

    /// The policy knobs left unchanged by every operation.
    pub open spec fn same_config(&self, other: &AuthImpl) -> bool {
        &&& self.zkp == other.zkp
        &&& self.min_challenge_interval_ms == other.min_challenge_interval_ms
        &&& self.max_username_len == other.max_username_len
    }

    /// Builds a coordinator around validated parameters; refuses invalid
    /// ones outright, so a service cannot start on them.
    pub fn with_config(zkp: ZKP, min_challenge_interval_ms: u64, max_username_len: usize) -> (r:
        ZkpResult<Self>)
        requires
            zkp.p.wf(),
            zkp.q.wf(),
            zkp.alpha.wf(),
            zkp.beta.wf(),
        ensures
            match r {
                Ok(a) => {
                    &&& zkp.wf()
                    &&& a.wf()
                    &&& a.zkp == zkp
                    &&& a.user_info@.len() == 0
                    &&& a.auth_id_to_user@.len() == 0
                    &&& a.min_challenge_interval_ms == min_challenge_interval_ms
                    &&& a.max_username_len == max_username_len
                },
                Err(e) => {
                    &&& !zkp.wf()
                    &&& e is InvalidInput
                },
            },
    {
        match zkp.validate_parameters() {
            Ok(()) => Ok(Self {
                user_info: Vec::new(),
                auth_id_to_user: Vec::new(),
                zkp,
                min_challenge_interval_ms,
                max_username_len,
            }),
            Err(e) => Err(e),
        }
    }

    /// Builds a coordinator on the built-in parameter set with the default
    /// policy: a one-second challenge interval and 100-byte usernames.
    /// Success is owed unless validation finds the derived second
    /// generator degenerate — the one condition of the built-in set that
    /// only the run-time check can decide.
    pub fn new() -> (r: ZkpResult<Self>)
        ensures
            match r {
                Ok(a) => {
                    &&& a.wf()
                    &&& a.user_info@.len() == 0
                    &&& a.auth_id_to_user@.len() == 0
                    &&& a.min_challenge_interval_ms == 1000
                    &&& a.max_username_len == 100
                    &&& a.zkp.p.val() == crate::engine::group_modulus()
                    &&& a.zkp.q.val() == crate::engine::group_order()
                    &&& a.zkp.alpha.val() == crate::engine::group_generator()
                    &&& a.zkp.beta.val() == crate::engine::mod_exp(
                        crate::engine::group_generator(),
                        crate::engine::second_generator_exponent(),
                        crate::engine::group_modulus(),
                    )
                },
                Err(e) => {
                    &&& e is InvalidInput
                    &&& crate::engine::mod_exp(
                        crate::engine::group_generator(),
                        crate::engine::second_generator_exponent(),
                        crate::engine::group_modulus(),
                    ) <= 1
                },
            },
    {
        let zkp = match ZKP::new(None) {
            Ok(z) => z,
            Err(e) => {
                return Err(e);
            },
        };
        Self::with_config(zkp, 1000, 100)
    }

    /// Creates a user record for a new username; the outcome this call
    /// owes the caller, error kind by error kind, is `spec_register`.
    pub fn register(&mut self, user_name: &str, y1_bytes: &[u8], y2_bytes: &[u8], now_ms: u64) -> (r:
        Result<(), AuthError>)
        requires
            old(self).wf(),
        ensures
            final(self).wf(),
            old(self).same_config(final(self)),
            final(self).auth_id_to_user == old(self).auth_id_to_user,
            match r {
                Ok(()) => {
                    &&& spec_register(
                        old(self).zkp,
                        old(self).user_info@,
                        old(self).max_username_len as nat,
                        user_name,
                        y1_bytes@,
                        y2_bytes@,
                    ) is Ok
                    &&& final(self).user_info@.len() == old(self).user_info@.len() + 1
                    &&& final(self).user_info@.drop_last() == old(self).user_info@
                    &&& ({
                        let u = final(self).user_info@.last().1;
                        &&& final(self).user_info@.last().0@ == user_name@
                        &&& u.user_name@ == user_name@
                        &&& u.y1.val() == be_val(y1_bytes@)
                        &&& u.y2.val() == be_val(y2_bytes@)
                        &&& u.registration_timestamp == now_ms
                        &&& u.r1 is None
                        &&& u.r2 is None
                        &&& u.c is None
                        &&& u.s is None
                        &&& u.last_challenge_timestamp is None
                        &&& u.session_id is None
                        &&& u.last_successful_auth is None
                        &&& u.failed_attempts == 0
                    })
                },
                Err(e) => {
                    &&& final(self).user_info == old(self).user_info
                    &&& Err::<(), AuthError>(e) == spec_register(
                        old(self).zkp,
                        old(self).user_info@,
                        old(self).max_username_len as nat,
                        user_name,
                        y1_bytes@,
                        y2_bytes@,
                    )
                },
            },
    {
        if user_name.is_empty() {
            return Err(AuthError::InvalidInput);
        }
        if user_name.as_bytes().len() > self.max_username_len {
            return Err(AuthError::InvalidInput);
        }
        let y1 = match deserialize_biguint(y1_bytes) {
            Ok(v) => v,
            Err(_) => {
                return Err(AuthError::SerializationError);
            },
        };
        let y2 = match deserialize_biguint(y2_bytes) {
            Ok(v) => v,
            Err(_) => {
                return Err(AuthError::SerializationError);
            },
        };
        if !y1.lt(&self.zkp.p) || !y2.lt(&self.zkp.p) {
            return Err(AuthError::InvalidInput);
        }
        let one = Bignum::from_u64(1);
        if !one.lt(&y1) || !one.lt(&y2) {
            return Err(AuthError::InvalidInput);
        }
        let owned = user_name.to_owned();
        match find_index(&self.user_info, &owned) {
            Some(_) => Err(AuthError::AlreadyRegistered),
            None => {
                let info = UserInfo {
                    user_name: user_name.to_owned(),
                    y1,
                    y2,
                    registration_timestamp: now_ms,
                    r1: None,
                    r2: None,
                    last_challenge_timestamp: None,
                    c: None,
                    s: None,
                    session_id: None,
                    last_successful_auth: None,
                    failed_attempts: 0,
                };
                let ghost old_users = self.user_info@;
                self.user_info.push((owned, info));
                proof {
                    assert(self.user_info@.drop_last() =~= old_users);
                    lemma_push_keeps_registry(old_users, self.user_info@, self.zkp);
                }
                Ok(())
            },
        }
    }
    /// Issues a fresh challenge and auth id for a registered user's
    /// commitment-of-nonce pair; any previous auth id for the user stops
    /// resolving, so at most one auth id is live per outstanding
    /// challenge. The outcome owed for each input is
    /// `spec_create_challenge`.
    pub fn create_authentication_challenge(
        &mut self,
        user_name: &str,
        r1_bytes: &[u8],
        r2_bytes: &[u8],
        now_ms: u64,
    ) -> (r: Result<(String, Vec<u8>), AuthError>)
        requires
            old(self).wf(),
        ensures
            final(self).wf(),
            old(self).same_config(final(self)),
            match r {
                Ok(pair) => {
                    &&& spec_create_challenge(
                        old(self).zkp,
                        old(self).user_info@,
                        old(self).min_challenge_interval_ms,
                        user_name,
                        r1_bytes@,
                        r2_bytes@,
                        now_ms,
                    ) is Ok
                    &&& pair.0@.len() == 36
                    &&& pair.1@.len() >= 1
                    &&& be_val(pair.1@) < old(self).zkp.q.val()
                    &&& ({
                        let idx = key_index(old(self).user_info@, user_name@);
                        let u0 = old(self).user_info@[idx].1;
                        let u = final(self).user_info@[idx].1;
                        &&& final(self).user_info@.len() == old(self).user_info@.len()
                        &&& (forall|j: int|
                            0 <= j < old(self).user_info@.len() && j != idx ==> #[trigger] final(
                                self
                            ).user_info@[j] == old(self).user_info@[j])
                        &&& final(self).user_info@[idx].0 == old(self).user_info@[idx].0
                        &&& (u.r1 matches Some(v) && v.val() == be_val(r1_bytes@))
                        &&& (u.r2 matches Some(v) && v.val() == be_val(r2_bytes@))
                        &&& (u.c matches Some(v) && v.val() == be_val(pair.1@))
                        &&& u.last_challenge_timestamp == Some(now_ms)
                        &&& u.user_name == u0.user_name
                        &&& u.y1.val() == u0.y1.val()
                        &&& u.y2.val() == u0.y2.val()
                        &&& u.registration_timestamp == u0.registration_timestamp
                        &&& (u.s is Some <==> u0.s is Some)
                        &&& (u.s matches Some(b) ==> (u0.s matches Some(b0) && b.bytes@
                            == b0.bytes@))
                        &&& u.session_id == u0.session_id
                        &&& u.last_successful_auth == u0.last_successful_auth
                        &&& u.failed_attempts == u0.failed_attempts
                    })
                    &&& final(self).auth_id_to_user@.len() >= 1
                    &&& final(self).auth_id_to_user@.drop_last() == strip_entries(
                        old(self).auth_id_to_user@,
                        user_name@,
                        pair.0@,
                    )
                    &&& final(self).auth_id_to_user@.last().0@ == pair.0@
                    &&& final(self).auth_id_to_user@.last().1@ == user_name@
                    &&& has_key(final(self).auth_id_to_user@, pair.0@)
                },
                Err(e) => {
                    &&& final(self).user_info == old(self).user_info
                    &&& final(self).auth_id_to_user == old(self).auth_id_to_user
                    &&& (spec_create_challenge(
                        old(self).zkp,
                        old(self).user_info@,
                        old(self).min_challenge_interval_ms,
                        user_name,
                        r1_bytes@,
                        r2_bytes@,
                        now_ms,
                    ) matches Err(e2) && e == e2)
                },
            },
    {
        if user_name.is_empty() {
            return Err(AuthError::InvalidInput);
        }
        let r1 = match deserialize_biguint(r1_bytes) {
            Ok(v) => v,
            Err(_) => {
                return Err(AuthError::SerializationError);
            },
        };
        let r2 = match deserialize_biguint(r2_bytes) {
            Ok(v) => v,
            Err(_) => {
                return Err(AuthError::SerializationError);
            },
        };
        if !r1.lt(&self.zkp.p) || !r2.lt(&self.zkp.p) {
            return Err(AuthError::InvalidInput);
        }
        let one = Bignum::from_u64(1);
        if !one.lt(&r1) || !one.lt(&r2) {
            return Err(AuthError::InvalidInput);
        }
        let owned = user_name.to_owned();
        let ui = match find_index(&self.user_info, &owned) {
            Some(i) => i,
            None => {
                return Err(AuthError::NotFound);
            },
        };
        proof {
            lemma_key_index_agrees(self.user_info@, user_name@, ui as int);
        }
        let limited: bool = match self.user_info[ui].1.last_challenge_timestamp {
            Some(t) => now_ms < t || now_ms - t < self.min_challenge_interval_ms,
            None => false,
        };
        if limited {
            return Err(AuthError::RateLimited);
        }
        let c = big_random_below(&self.zkp.q);
        let auth_id = new_opaque_token();
        let c_bytes = serialize_biguint(&c);

        let u0 = &self.user_info[ui].1;
        let updated = UserInfo {
            user_name: u0.user_name.clone(),
            y1: u0.y1.clone(),
            y2: u0.y2.clone(),
            registration_timestamp: u0.registration_timestamp,
            r1: Some(r1),
            r2: Some(r2),
            last_challenge_timestamp: Some(now_ms),
            c: Some(c),
            s: clone_opt_bignum(&u0.s),
            session_id: u0.session_id.clone(),
            last_successful_auth: u0.last_successful_auth,
            failed_attempts: u0.failed_attempts,
        };
        let key = self.user_info[ui].0.clone();
        let ghost old_users = self.user_info@;
        let ghost old_map = self.auth_id_to_user@;
        self.user_info[ui] = (key, updated);

        let stripped = rebuild_without(&self.auth_id_to_user, &owned, &auth_id);
        self.auth_id_to_user = stripped;
        self.auth_id_to_user.push((auth_id.clone(), owned));

        proof {
            let name = user_name@;
            let aid = auth_id@;
            let new_users = self.user_info@;
            let new_map = self.auth_id_to_user@;
            let idx = ui as int;
            assert(new_map.drop_last() =~= strip_entries(old_map, name, aid));
            assert(has_key(new_map, aid)) by {
                assert(new_map[new_map.len() - 1].0@ == aid);
            }
            // usernames unchanged, so key distinctness and lookups carry over
            assert(forall|j: int|
                0 <= j < new_users.len() ==> (#[trigger] new_users[j]).0 == old_users[j].0);
            assert(keys_distinct(new_users));
            lemma_key_index_agrees(new_users, name, idx);
            // the auth-id index stays distinct in both components
            lemma_strip_entries(old_map, name, aid);
            lemma_strip_entries_distinct(old_map, name, aid);
            let stripped_map = strip_entries(old_map, name, aid);
            assert forall|i: int, j: int| 0 <= i < j < new_map.len() implies new_map[i].0@
                != new_map[j].0@ && new_map[i].1@ != new_map[j].1@ by {
                if j < stripped_map.len() {
                    assert(new_map[i] == stripped_map[i] && new_map[j] == stripped_map[j]);
                } else {
                    assert(new_map[i] == stripped_map[i]);
                }
            }
            // every surviving auth id still resolves to a user with a
            // pending challenge
            assert forall|i: int| 0 <= i < new_map.len() implies has_key(
                new_users,
                (#[trigger] new_map[i]).1@,
            ) && has_challenge(value_of(new_users, new_map[i].1@)) by {
                if i < stripped_map.len() {
                    assert(new_map[i] == stripped_map[i]);
                    let j = choose|j: int| 0 <= j < old_map.len() && stripped_map[i] == old_map[j];
                    assert(has_key(old_users, old_map[j].1@) && has_challenge(
                        value_of(old_users, old_map[j].1@),
                    ));
                    let m = key_index(old_users, new_map[i].1@);
                    assert(0 <= m < old_users.len() && old_users[m].0@ == new_map[i].1@);
                    lemma_key_index_agrees(new_users, new_map[i].1@, m);
                    assert(m != idx);
                    assert(new_users[m] == old_users[m]);
                } else {
                    assert(new_map[i].1@ == name);
                    lemma_key_index_agrees(new_users, name, idx);
                }
            }
        }
        Ok((auth_id, c_bytes))
    }
    /// Verifies the answer to a pending challenge. The auth id is consumed
    /// exactly once whatever the outcome: on success the user gets a fresh
    /// session token and a cleared failure counter, on a failed proof the
    /// failure counter grows, and either way the same auth id afterwards
    /// resolves to nothing. The outcome owed for each input is
    /// `spec_verify_answer`.
    pub fn verify_authentication(&mut self, auth_id: &str, s_bytes: &[u8], now_ms: u64) -> (r:
        Result<String, AuthError>)
        requires
            old(self).wf(),
        ensures
            final(self).wf(),
            old(self).same_config(final(self)),
            match r {
                Ok(token) => {
                    &&& spec_verify_answer(
                        old(self).zkp,
                        old(self).user_info@,
                        old(self).auth_id_to_user@,
                        auth_id,
                        s_bytes@,
                    ) is Ok
                    &&& token@.len() == 36
                    &&& consumed_auth_id(old(self), final(self), auth_id@)
                    &&& ({
                        let uname = value_of(old(self).auth_id_to_user@, auth_id@)@;
                        let idx = key_index(old(self).user_info@, uname);
                        let u0 = old(self).user_info@[idx].1;
                        let u = final(self).user_info@[idx].1;
                        &&& challenge_cleared(old(self), final(self), uname, be_val(s_bytes@))
                        &&& (u.session_id matches Some(t) && t@ == token@)
                        &&& u.last_successful_auth == Some(now_ms)
                        &&& u.failed_attempts == 0
                    })
                },
                Err(e) => {
                    &&& (spec_verify_answer(
                        old(self).zkp,
                        old(self).user_info@,
                        old(self).auth_id_to_user@,
                        auth_id,
                        s_bytes@,
                    ) matches Err(e2) && e == e2)
                    &&& (e is PermissionDenied ==> {
                        let uname = value_of(old(self).auth_id_to_user@, auth_id@)@;
                        let idx = key_index(old(self).user_info@, uname);
                        let u0 = old(self).user_info@[idx].1;
                        let u = final(self).user_info@[idx].1;
                        &&& consumed_auth_id(old(self), final(self), auth_id@)
                        &&& challenge_cleared(old(self), final(self), uname, be_val(s_bytes@))
                        &&& u.session_id == u0.session_id
                        &&& u.last_successful_auth == u0.last_successful_auth
                        &&& u.failed_attempts == (if u0.failed_attempts == u32::MAX {
                            u32::MAX as int
                        } else {
                            u0.failed_attempts + 1
                        })
                    })
                    &&& (!(e is PermissionDenied) ==> final(self).user_info == old(self).user_info
                        && final(self).auth_id_to_user == old(self).auth_id_to_user)
                },
            },
    {
        if auth_id.is_empty() {
            return Err(AuthError::InvalidInput);
        }
        let owned_aid = auth_id.to_owned();
        let ai = match find_index(&self.auth_id_to_user, &owned_aid) {
            Some(i) => i,
            None => {
                return Err(AuthError::NotFound);
            },
        };
        proof {
            lemma_key_index_agrees(self.auth_id_to_user@, auth_id@, ai as int);
        }
        let user_name = self.auth_id_to_user[ai].1.clone();
        let s = match deserialize_biguint(s_bytes) {
            Ok(v) => v,
            Err(_) => {
                return Err(AuthError::SerializationError);
            },
        };
        if !s.lt(&self.zkp.q) {
            return Err(AuthError::InvalidInput);
        }
        let ui = match find_index(&self.user_info, &user_name) {
            Some(i) => i,
            None => {
                return Err(AuthError::FailedPrecondition);
            },
        };
        proof {
            lemma_key_index_agrees(self.user_info@, user_name@, ui as int);
        }
        let (r1, r2, c) = match (
            &self.user_info[ui].1.r1,
            &self.user_info[ui].1.r2,
            &self.user_info[ui].1.c,
        ) {
            (Some(a), Some(b), Some(cc)) => (a.clone(), b.clone(), cc.clone()),
            _ => {
                return Err(AuthError::FailedPrecondition);
            },
        };
        let y1 = self.user_info[ui].1.y1.clone();
        let y2 = self.user_info[ui].1.y2.clone();
        let verified = match self.zkp.verify(&r1, &r2, &y1, &y2, &c, &s) {
            Ok(b) => b,
            Err(_) => {
                return Err(AuthError::InvalidInput);
            },
        };
        let key = self.user_info[ui].0.clone();
        let uname_field = self.user_info[ui].1.user_name.clone();
        let reg_ts = self.user_info[ui].1.registration_timestamp;
        let last_ch = self.user_info[ui].1.last_challenge_timestamp;
        let old_failed = self.user_info[ui].1.failed_attempts;
        let old_session = self.user_info[ui].1.session_id.clone();
        let old_last_ok = self.user_info[ui].1.last_successful_auth;
        let ghost old_users = self.user_info@;
        let ghost old_map = self.auth_id_to_user@;

        if verified {
            let session_id = new_opaque_token();
            let updated = UserInfo {
                user_name: uname_field,
                y1,
                y2,
                registration_timestamp: reg_ts,
                r1: None,
                r2: None,
                last_challenge_timestamp: last_ch,
                c: None,
                s: Some(s),
                session_id: Some(session_id.clone()),
                last_successful_auth: Some(now_ms),
                failed_attempts: 0,
            };
            self.user_info[ui] = (key, updated);
            let stripped = rebuild_without(&self.auth_id_to_user, &user_name, &owned_aid);
            self.auth_id_to_user = stripped;
            proof {
                lemma_consume_update_wf(*old(self), *self, ui as int, auth_id@);
            }
            Ok(session_id)
        } else {
            let updated = UserInfo {
                user_name: uname_field,
                y1,
                y2,
                registration_timestamp: reg_ts,
                r1: None,
                r2: None,
                last_challenge_timestamp: last_ch,
                c: None,
                s: Some(s),
                session_id: old_session,
                last_successful_auth: old_last_ok,
                failed_attempts: old_failed.saturating_add(1),
            };
            self.user_info[ui] = (key, updated);
            let stripped = rebuild_without(&self.auth_id_to_user, &user_name, &owned_aid);
            self.auth_id_to_user = stripped;
            proof {
                lemma_consume_update_wf(*old(self), *self, ui as int, auth_id@);
            }
            Err(AuthError::PermissionDenied)
        }
    }
}

/// The auth id no longer resolves, and the index holds exactly the other
/// entries.
pub open spec fn consumed_auth_id(pre: &AuthImpl, post: &AuthImpl, aid: Seq<char>) -> bool {
    &&& post.auth_id_to_user@ == strip_entries(
        pre.auth_id_to_user@,
        value_of(pre.auth_id_to_user@, aid)@,
        aid,
    )
    &&& !has_key(post.auth_id_to_user@, aid)
}

/// The user's pending challenge is cleared, the submitted answer is
/// recorded, and everything else about the table is untouched.
pub open spec fn challenge_cleared(
    pre: &AuthImpl,
    post: &AuthImpl,
    uname: Seq<char>,
    s_val: nat,
) -> bool {
    let idx = key_index(pre.user_info@, uname);
    let u0 = pre.user_info@[idx].1;
    let u = post.user_info@[idx].1;
    &&& post.user_info@.len() == pre.user_info@.len()
    &&& (forall|j: int|
        0 <= j < pre.user_info@.len() && j != idx ==> #[trigger] post.user_info@[j]
            == pre.user_info@[j])
    &&& post.user_info@[idx].0 == pre.user_info@[idx].0
    &&& u.r1 is None
    &&& u.r2 is None
    &&& u.c is None
    &&& (u.s matches Some(sv) && sv.val() == s_val)
    &&& u.user_name == u0.user_name
    &&& u.y1.val() == u0.y1.val()
    &&& u.y2.val() == u0.y2.val()
    &&& u.registration_timestamp == u0.registration_timestamp
    &&& u.last_challenge_timestamp == u0.last_challenge_timestamp
}

/// The outcome `verify_authentication` owes for each input: the checks in
/// order, each with its error kind; success exactly when the auth id
/// resolves and the stored challenge data satisfies both verification
/// equations for the submitted answer.
pub open spec fn spec_verify_answer(
    zkp: ZKP,
    users: Seq<(String, UserInfo)>,
    auth_map: Seq<(String, String)>,
    aid: &str,
    s_bytes: Seq<u8>,
) -> Result<(), AuthError> {
    if aid@.len() == 0 {
        Err(AuthError::InvalidInput)
    } else if !has_key(auth_map, aid@) {
        Err(AuthError::NotFound)
    } else if s_bytes.len() == 0 {
        Err(AuthError::SerializationError)
    } else if be_val(s_bytes) >= zkp.q.val() {
        Err(AuthError::InvalidInput)
    } else {
        let uname = value_of(auth_map, aid@)@;
        if !has_key(users, uname) {
            Err(AuthError::FailedPrecondition)
        } else {
            let u = value_of(users, uname);
            if !(u.r1 is Some && u.r2 is Some && u.c is Some) {
                Err(AuthError::FailedPrecondition)
            } else if verify_passes(
                zkp.alpha.val(),
                zkp.beta.val(),
                zkp.p.val(),
                u.r1.unwrap().val(),
                u.r2.unwrap().val(),
                u.y1.val(),
                u.y2.val(),
                u.c.unwrap().val(),
                be_val(s_bytes),
            ) {
                Ok(())
            } else {
                Err(AuthError::PermissionDenied)
            }
        }
    }
}

/// An auth id is single-use: `verify_authentication` ensures the id it
/// was given no longer resolves, and by this lemma every later attempt
/// with the same id — whatever answer it carries — is refused as
/// `NotFound`.
pub proof fn lemma_auth_id_single_use(a: &AuthImpl, aid: &str, s_bytes: Seq<u8>)
    requires
        aid@.len() > 0,
        !has_key(a.auth_id_to_user@, aid@),
    ensures
        spec_verify_answer(a.zkp, a.user_info@, a.auth_id_to_user@, aid, s_bytes) == Err::<
            (),
            AuthError,
        >(AuthError::NotFound),
{
}

/// Rate limiting: after a challenge was issued to a user at time `t`,
/// any well-formed challenge request for the same user before
/// `t + min_challenge_interval_ms` is refused as `RateLimited`.
pub proof fn lemma_challenge_rate_limited(
    a: &AuthImpl,
    name: &str,
    r1b: Seq<u8>,
    r2b: Seq<u8>,
    t: u64,
    now_ms: u64,
)
    requires
        name@.len() > 0,
        r1b.len() > 0,
        r2b.len() > 0,
        1 < be_val(r1b) < a.zkp.p.val(),
        1 < be_val(r2b) < a.zkp.p.val(),
        has_key(a.user_info@, name@),
        value_of(a.user_info@, name@).last_challenge_timestamp == Some(t),
        now_ms < t + a.min_challenge_interval_ms,
    ensures
        spec_create_challenge(
            a.zkp,
            a.user_info@,
            a.min_challenge_interval_ms,
            name,
            r1b,
            r2b,
            now_ms,
        ) == Err::<(), AuthError>(AuthError::RateLimited),
{
}

/// Clearing one user's challenge and stripping their auth id keeps the
/// coordinator's invariant, and the auth id stops resolving.
proof fn lemma_consume_update_wf(pre: AuthImpl, post: AuthImpl, idx: int, aid: Seq<char>)
    requires
        pre.wf(),
        0 <= idx < pre.user_info@.len(),
        post.zkp == pre.zkp,
        post.user_info@.len() == pre.user_info@.len(),
        forall|j: int|
            0 <= j < pre.user_info@.len() && j != idx ==> #[trigger] post.user_info@[j]
                == pre.user_info@[j],
        post.user_info@[idx].0 == pre.user_info@[idx].0,
        record_wf(post.user_info@[idx].1, pre.zkp.p.val(), pre.zkp.q.val()),
        post.auth_id_to_user@ == strip_entries(
            pre.auth_id_to_user@,
            pre.user_info@[idx].0@,
            aid,
        ),
    ensures
        post.wf(),
        !has_key(post.auth_id_to_user@, aid),
{
    let old_users = pre.user_info@;
    let new_users = post.user_info@;
    let old_map = pre.auth_id_to_user@;
    let new_map = post.auth_id_to_user@;
    let name = old_users[idx].0@;
    assert(forall|j: int|
        0 <= j < new_users.len() ==> (#[trigger] new_users[j]).0 == old_users[j].0);
    assert(keys_distinct(new_users));
    lemma_strip_entries(old_map, name, aid);
    lemma_strip_entries_distinct(old_map, name, aid);
    assert(!has_key(new_map, aid)) by {
        assert(forall|i: int| 0 <= i < new_map.len() ==> (#[trigger] new_map[i]).0@ != aid);
    }
    assert forall|i: int| 0 <= i < new_map.len() implies has_key(
        new_users,
        (#[trigger] new_map[i]).1@,
    ) && has_challenge(value_of(new_users, new_map[i].1@)) by {
        let j = choose|j: int| 0 <= j < old_map.len() && new_map[i] == old_map[j];
        assert(has_key(old_users, old_map[j].1@) && has_challenge(
            value_of(old_users, old_map[j].1@),
        ));
        let m = key_index(old_users, new_map[i].1@);
        assert(0 <= m < old_users.len() && old_users[m].0@ == new_map[i].1@);
        lemma_key_index_agrees(new_users, new_map[i].1@, m);
        assert(new_map[i].1@ != name);
        assert(m != idx);
        assert(new_users[m] == old_users[m]);
    }
}

/// The outcome `register` owes for each input: the checks in order, each
/// with its error kind, and success exactly when all pass.
pub open spec fn spec_register(
    zkp: ZKP,
    users: Seq<(String, UserInfo)>,
    max_len: nat,
    name: &str,
    y1b: Seq<u8>,
    y2b: Seq<u8>,
) -> Result<(), AuthError> {
    if name@.len() == 0 {
        Err(AuthError::InvalidInput)
    } else if name.spec_bytes().len() > max_len {
        Err(AuthError::InvalidInput)
    } else if y1b.len() == 0 || y2b.len() == 0 {
        Err(AuthError::SerializationError)
    } else if be_val(y1b) >= zkp.p.val() || be_val(y2b) >= zkp.p.val() {
        Err(AuthError::InvalidInput)
    } else if be_val(y1b) <= 1 || be_val(y2b) <= 1 {
        Err(AuthError::InvalidInput)
    } else if has_key(users, name@) {
        Err(AuthError::AlreadyRegistered)
    } else {
        Ok(())
    }
}

/// A new challenge may not be issued within the minimum interval of the
/// previous one for the same user; a clock that moved backwards counts as
/// too soon.
pub open spec fn rate_limited(u: UserInfo, now_ms: u64, interval_ms: u64) -> bool {
    match u.last_challenge_timestamp {
        Some(t) => now_ms < t + interval_ms,
        None => false,
    }
}

/// The outcome `create_authentication_challenge` owes for each input: the
/// checks in order, each with its error kind, and success exactly when
/// all pass.
pub open spec fn spec_create_challenge(
    zkp: ZKP,
    users: Seq<(String, UserInfo)>,
    interval_ms: u64,
    name: &str,
    r1b: Seq<u8>,
    r2b: Seq<u8>,
    now_ms: u64,
) -> Result<(), AuthError> {
    if name@.len() == 0 {
        Err(AuthError::InvalidInput)
    } else if r1b.len() == 0 || r2b.len() == 0 {
        Err(AuthError::SerializationError)
    } else if be_val(r1b) >= zkp.p.val() || be_val(r2b) >= zkp.p.val() {
        Err(AuthError::InvalidInput)
    } else if be_val(r1b) <= 1 || be_val(r2b) <= 1 {
        Err(AuthError::InvalidInput)
    } else if !has_key(users, name@) {
        Err(AuthError::NotFound)
    } else if rate_limited(value_of(users, name@), now_ms, interval_ms) {
        Err(AuthError::RateLimited)
    } else {
        Ok(())
    }
}

/// The auth-id index without the entries for one user or one auth id: what
/// remains after a stale challenge is displaced or an auth id consumed.
pub open spec fn strip_entries(s: Seq<(String, String)>, name: Seq<char>, aid: Seq<char>) -> Seq<
    (String, String),
>
    decreases s.len(),
{
    if s.len() == 0 {
        Seq::empty()
    } else {
        let rest = strip_entries(s.drop_last(), name, aid);
        if s.last().1@ == name || s.last().0@ == aid {
            rest
        } else {
            rest.push(s.last())
        }
    }
}

/// What `strip_entries` keeps: entries of the input, none for the
/// stripped user or auth id, with distinctness preserved.
proof fn lemma_strip_entries(s: Seq<(String, String)>, name: Seq<char>, aid: Seq<char>)
    ensures
        forall|i: int|
            0 <= i < strip_entries(s, name, aid).len() ==> exists|j: int|
                0 <= j < s.len() && #[trigger] strip_entries(s, name, aid)[i] == s[j],
        forall|i: int|
            0 <= i < strip_entries(s, name, aid).len() ==> (#[trigger] strip_entries(
                s,
                name,
                aid,
            )[i]).1@ != name && strip_entries(s, name, aid)[i].0@ != aid,
    decreases s.len(),
{
    let r = strip_entries(s, name, aid);
    if s.len() > 0 {
        lemma_strip_entries(s.drop_last(), name, aid);
        let rest = strip_entries(s.drop_last(), name, aid);
        assert forall|i: int| 0 <= i < r.len() implies exists|j: int|
            0 <= j < s.len() && #[trigger] r[i] == s[j] by {
            if i < rest.len() {
                let j = choose|j: int| 0 <= j < s.drop_last().len() && rest[i] == s.drop_last()[j];
                assert(r[i] == s[j]);
            } else {
                assert(r[i] == s[s.len() - 1]);
            }
        }
    }
}

/// Stripping a sequence with distinct keys and distinct values keeps both
/// distinct.
proof fn lemma_strip_entries_distinct(s: Seq<(String, String)>, name: Seq<char>, aid: Seq<char>)
    requires
        keys_distinct(s),
        forall|i: int, j: int| 0 <= i < j < s.len() ==> s[i].1@ != s[j].1@,
    ensures
        keys_distinct(strip_entries(s, name, aid)),
        forall|i: int, j: int|
            0 <= i < j < strip_entries(s, name, aid).len() ==> (#[trigger] strip_entries(
                s,
                name,
                aid,
            )[i]).1@ != (#[trigger] strip_entries(s, name, aid)[j]).1@,
    decreases s.len(),
{
    let r = strip_entries(s, name, aid);
    if s.len() > 0 {
        lemma_strip_entries_distinct(s.drop_last(), name, aid);
        lemma_strip_entries(s.drop_last(), name, aid);
        let rest = strip_entries(s.drop_last(), name, aid);
        if !(s.last().1@ == name || s.last().0@ == aid) {
            assert forall|i: int, j: int| 0 <= i < j < r.len() implies r[i].0@ != r[j].0@ && r[i].1@
                != r[j].1@ by {
                if j < rest.len() {
                    assert(r[i] == rest[i] && r[j] == rest[j]);
                } else {
                    assert(r[j] == s.last());
                    let m = choose|m: int|
                        0 <= m < s.drop_last().len() && rest[i] == s.drop_last()[m];
                    assert(s[m].0@ != s[s.len() - 1].0@);
                    assert(s[m].1@ != s[s.len() - 1].1@);
                }
            }
        }
    }
}

/// Rebuilds the auth-id index without the entries for one user or one
/// auth id.
fn rebuild_without(map: &Vec<(String, String)>, name: &String, aid: &String) -> (r: Vec<
    (String, String),
>)
    ensures
        r@ == strip_entries(map@, name@, aid@),
{
    let mut out: Vec<(String, String)> = Vec::new();
    let mut i: usize = 0;
    while i < map.len()
        invariant
            i <= map@.len(),
            out@ == strip_entries(map@.subrange(0, i as int), name@, aid@),
        decreases map@.len() - i,
    {
        if !(map[i].1 == *name) && !(map[i].0 == *aid) {
            out.push((map[i].0.clone(), map[i].1.clone()));
        }
        proof {
            let sub1 = map@.subrange(0, i + 1);
            assert(sub1.drop_last() =~= map@.subrange(0, i as int));
            assert(sub1.last() == map@[i as int]);
        }
        i = i + 1;
    }
    proof {
        assert(map@.subrange(0, map@.len() as int) =~= map@);
    }
    out
}

/// Copies an optional value, preserving presence and numeric value.
fn clone_opt_bignum(o: &Option<Bignum>) -> (r: Option<Bignum>)
    ensures
        r is Some <==> o is Some,
        (r matches Some(b) ==> (o matches Some(b0) && b.bytes@ == b0.bytes@)),
{
    match o {
        Some(b) => Some(b.clone()),
        None => None,
    }
}

/// Extending the user table with a fresh name keeps every auth-id entry
/// resolving to the same record.
proof fn lemma_push_keeps_registry(
    old_users: Seq<(String, UserInfo)>,
    new_users: Seq<(String, UserInfo)>,
    zkp: ZKP,
)
    requires
        keys_distinct(old_users),
        new_users.len() == old_users.len() + 1,
        new_users.drop_last() == old_users,
        !has_key(old_users, new_users.last().0@),
    ensures
        keys_distinct(new_users),
        forall|name: Seq<char>|
            #[trigger] has_key(old_users, name) ==> has_key(new_users, name) && value_of(
                new_users,
                name,
            ) == value_of(old_users, name),
{
    assert(forall|i: int|
        0 <= i < old_users.len() ==> new_users[i] == #[trigger] old_users[i]);
    assert forall|i: int, j: int| 0 <= i < j < new_users.len() implies new_users[i].0@
        != new_users[j].0@ by {
        assert(new_users[i] == old_users[i]);
        if j < old_users.len() {
            assert(new_users[j] == old_users[j]);
        } else if new_users[i].0@ == new_users[j].0@ {
            assert(old_users[i].0@ == new_users.last().0@);
            assert(has_key(old_users, new_users.last().0@));
        }
    }
    assert forall|name: Seq<char>| #[trigger] has_key(old_users, name) implies has_key(
        new_users,
        name,
    ) && value_of(new_users, name) == value_of(old_users, name) by {
        let i = key_index(old_users, name);
        assert(0 <= i < old_users.len() && old_users[i].0@ == name);
        lemma_key_index_agrees(new_users, name, i);
        lemma_key_index_agrees(old_users, name, i);
    }
}

} // verus!
