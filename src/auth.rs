//! The authentication service: registration, challenge issuance and
//! response verification, with each challenge consumed by its first
//! verification attempt.

use vstd::prelude::*;
use crate::bignum::{be_value, big_ge, big_random_below};
use crate::store::{
    keyed_map, keys_unique, lemma_keyed_map_domain, lemma_keyed_map_value, lemma_keyed_map_remove,
    lemma_keys_unique_push,
};
use crate::zkp::{ZKP, verify_spec};

verus! {

/// Length of the authentication ids and session ids handed out.
pub const TOKEN_LENGTH: usize = 12;

/// A registered identity: `y1 = alpha^x mod p` and `y2 = beta^x mod p` for
/// the prover's secret `x`, as big-endian bytes.
pub struct UserInfo {
    pub user_name: String,
    pub y1: Vec<u8>,
    pub y2: Vec<u8>,
}

/// A challenge issued and not yet answered: the prover's commitments
/// `r1 = alpha^k mod p`, `r2 = beta^k mod p` and the challenge `c`.
pub struct PendingChallenge {
    pub auth_id: String,
    pub user_name: String,
    pub r1: Vec<u8>,
    pub r2: Vec<u8>,
    pub c: Vec<u8>,
}

/// What the service holds of a registered identity.
pub struct UserView {
    pub y1: nat,
    pub y2: nat,
}

/// What the service holds of a pending challenge.
pub struct ChallengeView {
    pub user: Seq<char>,
    pub r1: nat,
    pub r2: nat,
    pub c: nat,
}

/// The service's state: identities by user name, pending challenges by
/// authentication id.
pub struct AuthView {
    pub users: Map<Seq<char>, UserView>,
    pub pending: Map<Seq<char>, ChallengeView>,
}

/// Why a request failed; each variant names the offending identifier.
#[derive(Debug, Clone, PartialEq, Eq)]
pub enum AuthError {
    /// No identity is registered under this user name.
    UserNotFound(String),
    /// No challenge is pending under this authentication id.
    AuthIdNotFound(String),
    /// A challenge is already pending under this authentication id.
    AuthIdInUse(String),
    /// The response for this authentication id is not below `q`.
    MalformedInput(String),
    /// The response for this authentication id fails verification.
    BadSolution(String),
}

/// What a verification attempt comes to.
pub enum VerifyOutcome {
    Accepted,
    UnknownAuthId,
    Malformed,
    Rejected,
}

pub open spec fn user_key() -> spec_fn(UserInfo) -> Seq<char> {
    |u: UserInfo| u.user_name@
}

pub open spec fn user_val() -> spec_fn(UserInfo) -> UserView {
    |u: UserInfo| UserView { y1: be_value(u.y1@), y2: be_value(u.y2@) }
}

pub open spec fn challenge_key() -> spec_fn(PendingChallenge) -> Seq<char> {
    |ch: PendingChallenge| ch.auth_id@
}

pub open spec fn challenge_val() -> spec_fn(PendingChallenge) -> ChallengeView {
    |ch: PendingChallenge|
        ChallengeView {
            user: ch.user_name@,
            r1: be_value(ch.r1@),
            r2: be_value(ch.r2@),
            c: be_value(ch.c@),
        }
}

/// Registration binds the user name to the given public values, replacing
/// any earlier identity of that name.
pub open spec fn register_step(st: AuthView, user: Seq<char>, y1: nat, y2: nat) -> AuthView {
    AuthView { users: st.users.insert(user, UserView { y1, y2 }), pending: st.pending }
}

/// Issuing a challenge to a registered user records it under its
/// authentication id, which must not be pending already; otherwise nothing
/// changes.
pub open spec fn challenge_step(
    st: AuthView,
    user: Seq<char>,
    r1: nat,
    r2: nat,
    c: nat,
    auth_id: Seq<char>,
) -> AuthView {
    if st.users.contains_key(user) && !st.pending.contains_key(auth_id) {
        AuthView {
            users: st.users,
            pending: st.pending.insert(auth_id, ChallengeView { user, r1, r2, c }),
        }
    } else {
        st
    }
}

/// A verification attempt consumes the challenge, whatever its outcome.
pub open spec fn verify_step(st: AuthView, auth_id: Seq<char>) -> AuthView {
    AuthView { users: st.users, pending: st.pending.remove(auth_id) }
}

/// The outcome of answering the challenge `auth_id` with the response `s`.
pub open spec fn verify_outcome(st: AuthView, zkp: ZKP, auth_id: Seq<char>, s: nat) -> VerifyOutcome {
    if !st.pending.contains_key(auth_id) {
        VerifyOutcome::UnknownAuthId
    } else {
        let ch = st.pending[auth_id];
        let u = st.users[ch.user];
        if s >= zkp.q_value() {
            VerifyOutcome::Malformed
        } else if verify_spec(
            zkp.alpha_value(),
            zkp.beta_value(),
            zkp.p_value(),
            ch.r1,
            ch.r2,
            u.y1,
            u.y2,
            s,
            ch.c,
        ) {
            VerifyOutcome::Accepted
        } else {
            VerifyOutcome::Rejected
        }
    }
}

/// The outcome that a verification result reports.
pub open spec fn outcome_of(r: Result<String, AuthError>) -> Option<VerifyOutcome> {
    match r {
        Ok(_) => Some(VerifyOutcome::Accepted),
        Err(AuthError::AuthIdNotFound(_)) => Some(VerifyOutcome::UnknownAuthId),
        Err(AuthError::MalformedInput(_)) => Some(VerifyOutcome::Malformed),
        Err(AuthError::BadSolution(_)) => Some(VerifyOutcome::Rejected),
        Err(AuthError::UserNotFound(_)) => None,
        Err(AuthError::AuthIdInUse(_)) => None,
    }
}

/// The identifier that an error names.
pub open spec fn error_subject(e: AuthError) -> Seq<char> {
    match e {
        AuthError::UserNotFound(n) => n@,
        AuthError::AuthIdNotFound(n) => n@,
        AuthError::AuthIdInUse(n) => n@,
        AuthError::MalformedInput(n) => n@,
        AuthError::BadSolution(n) => n@,
    }
}

/// A consumed authentication id cannot be replayed: after one verification
/// attempt with it, whatever its outcome, a second attempt with the same id
/// finds no pending challenge and changes nothing.
pub proof fn lemma_replay_rejected(st: AuthView, zkp: ZKP, auth_id: Seq<char>, s: nat)
    ensures
        verify_outcome(verify_step(st, auth_id), zkp, auth_id, s) == VerifyOutcome::UnknownAuthId,
        verify_step(verify_step(st, auth_id), auth_id) == verify_step(st, auth_id),
{
    let st1 = verify_step(st, auth_id);
    assert(st1.pending.remove(auth_id) =~= st1.pending);
}

/// Challenges are independent: issuing a challenge, or answering one under
/// another id, leaves every other pending challenge as it was.
pub proof fn lemma_other_challenges_untouched(
    st: AuthView,
    user: Seq<char>,
    r1: nat,
    r2: nat,
    c: nat,
    auth_id: Seq<char>,
    other: Seq<char>,
)
    requires
        st.pending.contains_key(other),
    ensures
        challenge_step(st, user, r1, r2, c, auth_id).pending.contains_key(other),
        challenge_step(st, user, r1, r2, c, auth_id).pending[other] == st.pending[other],
        other != auth_id ==> verify_step(st, auth_id).pending.contains_key(other),
        other != auth_id ==> verify_step(st, auth_id).pending[other] == st.pending[other],
{
}

/// The service: group parameters, registered identities, and pending
/// challenges.
pub struct AuthImpl {
    pub zkp: ZKP,
    pub user_info: Vec<UserInfo>,
    pub challenges: Vec<PendingChallenge>,
}

impl View for AuthImpl {
    type V = AuthView;

    open spec fn view(&self) -> AuthView {
        AuthView {
            users: keyed_map(self.user_info@, user_key(), user_val()),
            pending: keyed_map(self.challenges@, challenge_key(), challenge_val()),
        }
    }
}

impl AuthImpl {
    /// Usable group parameters, unique keys in both stores, and every
    /// pending challenge belongs to a registered identity.
    pub open spec fn wf(&self) -> bool {
        &&& self.zkp.wf()
        &&& keys_unique(self.user_info@, user_key())
        &&& keys_unique(self.challenges@, challenge_key())
        &&& forall|id: Seq<char>| #[trigger]
            self@.pending.contains_key(id) ==> self@.users.contains_key(self@.pending[id].user)
    }

    /// A service with no identities and no challenges.
    pub fn new(zkp: ZKP) -> (r: AuthImpl)
        requires
            zkp.wf(),
        ensures
            r.wf(),
            r.zkp == zkp,
            r@.users == Map::<Seq<char>, UserView>::empty(),
            r@.pending == Map::<Seq<char>, ChallengeView>::empty(),
    {
        AuthImpl { zkp, user_info: Vec::new(), challenges: Vec::new() }
    }

    /// Registers `user` with the public values `y1, y2`, replacing any
    /// identity already registered under that name.
    pub fn register(&mut self, user: String, y1: Vec<u8>, y2: Vec<u8>)
        requires
            old(self).wf(),
        ensures
            final(self).wf(),
            final(self).zkp == old(self).zkp,
            final(self)@ == register_step(old(self)@, user@, be_value(y1@), be_value(y2@)),
    {
        let ghost before = self@;
        match self.find_user(&user) {
            Some(i) => {
                proof {
                    lemma_keyed_map_remove(self.user_info@, user_key(), user_val(), i as int);
                }
                self.user_info.remove(i);
            },
            None => {},
        }
        let ghost mid = self.user_info@;
        assert(keyed_map(mid, user_key(), user_val()) == before.users.remove(user@));
        let record = UserInfo { user_name: user, y1, y2 };
        proof {
            lemma_keys_unique_push(mid, user_key(), user_val(), record);
        }
        self.user_info.push(record);
        assert(self@.users =~= before.users.insert(user@, UserView { y1: be_value(y1@), y2: be_value(y2@) }));
        assert(self@.pending == before.pending);
        assert forall|id: Seq<char>| #[trigger] self@.pending.contains_key(id) implies self@.users.contains_key(
            self@.pending[id].user,
        ) by {
            assert(before.pending.contains_key(id));
        }
    }

    /// Issues the challenge `c` under the id `auth_id` to `user`, who sent
    /// the commitments `r1, r2`. Fails, changing nothing, when `user` is not
    /// registered or when a challenge is already pending under `auth_id`.
    pub fn create_authentication_challenge_with(
        &mut self,
        user: String,
        r1: Vec<u8>,
        r2: Vec<u8>,
        c: Vec<u8>,
        auth_id: String,
    ) -> (r: Result<(String, Vec<u8>), AuthError>)
        requires
            old(self).wf(),
        ensures
            final(self).wf(),
            final(self).zkp == old(self).zkp,
            final(self)@ == challenge_step(
                old(self)@,
                user@,
                be_value(r1@),
                be_value(r2@),
                be_value(c@),
                auth_id@,
            ),
            match r {
                Ok((id, cc)) => {
                    &&& old(self)@.users.contains_key(user@)
                    &&& !old(self)@.pending.contains_key(auth_id@)
                    &&& id@ == auth_id@
                    &&& cc@ == c@
                },
                Err(e) => if !old(self)@.users.contains_key(user@) {
                    e == AuthError::UserNotFound(user)
                } else {
                    old(self)@.pending.contains_key(auth_id@) && e == AuthError::AuthIdInUse(
                        auth_id,
                    )
                },
            },
    {
        let found = self.find_user(&user);
        if found.is_none() {
            return Err(AuthError::UserNotFound(user));
        }
        proof {
            let i = found->Some_0 as int;
            lemma_keyed_map_domain(self.user_info@, user_key(), user_val(), user@);
            assert(user_key()(self.user_info@[i]) == user@);
        }
        match self.find_challenge(&auth_id) {
            Some(i) => {
                proof {
                    lemma_keyed_map_domain(self.challenges@, challenge_key(), challenge_val(), auth_id@);
                    assert(challenge_key()(self.challenges@[i as int]) == auth_id@);
                }
                return Err(AuthError::AuthIdInUse(auth_id));
            },
            None => {},
        }
        let ghost before = self@;
        let ghost mid = self.challenges@;
        let id_out = auth_id.clone();
        let c_out = c.clone();
        assert(c_out@ =~= c@);
        let record = PendingChallenge { auth_id, user_name: user, r1, r2, c };
        proof {
            lemma_keys_unique_push(mid, challenge_key(), challenge_val(), record);
        }
        self.challenges.push(record);
        assert(self@.pending =~= before.pending.insert(
            id_out@,
            ChallengeView {
                user: record.user_name@,
                r1: be_value(record.r1@),
                r2: be_value(record.r2@),
                c: be_value(record.c@),
            },
        ));
        assert forall|id: Seq<char>| #[trigger] self@.pending.contains_key(id) implies self@.users.contains_key(
            self@.pending[id].user,
        ) by {
            if id != id_out@ {
                assert(before.pending.contains_key(id));
            }
        }
        Ok((id_out, c_out))
    }

    /// Issues a fresh challenge to `user`, who sent the commitments
    /// `r1, r2`: a random `c` in `[0, q)` under a new random authentication
    /// id that no pending challenge carries. Fails, changing nothing, when
    /// `user` is not registered, or, should the drawn id already be pending,
    /// with `AuthIdInUse`.
    pub fn create_authentication_challenge(
        &mut self,
        user: String,
        r1: Vec<u8>,
        r2: Vec<u8>,
    ) -> (r: Result<(String, Vec<u8>), AuthError>)
        requires
            old(self).wf(),
        ensures
            final(self).wf(),
            final(self).zkp == old(self).zkp,
            match r {
                Ok((id, c)) => {
                    &&& old(self)@.users.contains_key(user@)
                    &&& !old(self)@.pending.contains_key(id@)
                    &&& be_value(c@) < old(self).zkp.q_value()
                    &&& id@.len() == TOKEN_LENGTH
                    &&& final(self)@ == challenge_step(
                        old(self)@,
                        user@,
                        be_value(r1@),
                        be_value(r2@),
                        be_value(c@),
                        id@,
                    )
                },
                Err(e) => {
                    &&& final(self)@ == old(self)@
                    &&& if !old(self)@.users.contains_key(user@) {
                        e == AuthError::UserNotFound(user)
                    } else {
                        e is AuthIdInUse
                    }
                },
            },
    {
        if self.find_user(&user).is_none() {
            return Err(AuthError::UserNotFound(user));
        }
        let c = big_random_below(self.zkp.q.as_slice());
        let auth_id = ZKP::generate_random_string(TOKEN_LENGTH);
        self.create_authentication_challenge_with(user, r1, r2, c, auth_id)
    }

    /// Answers the challenge pending under `auth_id` with the response `s`,
    /// handing out `session_id` on success. The challenge is consumed
    /// whatever the outcome, so the id cannot be replayed.
    pub fn verify_authentication_with(
        &mut self,
        auth_id: String,
        s: Vec<u8>,
        session_id: String,
    ) -> (r: Result<String, AuthError>)
        requires
            old(self).wf(),
        ensures
            final(self).wf(),
            final(self).zkp == old(self).zkp,
            final(self)@ == verify_step(old(self)@, auth_id@),
            outcome_of(r) == Some(verify_outcome(old(self)@, old(self).zkp, auth_id@, be_value(s@))),
            match r {
                Ok(sid) => sid == session_id,
                Err(e) => error_subject(e) == auth_id@,
            },
    {
        let ghost before = self@;
        let found = self.find_challenge(&auth_id);
        let i = match found {
            Some(i) => i,
            None => {
                assert(before.pending.remove(auth_id@) =~= before.pending);
                return Err(AuthError::AuthIdNotFound(auth_id));
            },
        };
        proof {
            lemma_keyed_map_value(self.challenges@, challenge_key(), challenge_val(), i as int);
            lemma_keyed_map_remove(self.challenges@, challenge_key(), challenge_val(), i as int);
        }
        let ch = self.challenges.remove(i);
        assert(self@.pending == before.pending.remove(auth_id@));
        assert forall|id: Seq<char>| #[trigger] self@.pending.contains_key(id) implies self@.users.contains_key(
            self@.pending[id].user,
        ) by {
            assert(before.pending.contains_key(id));
        }
        let ghost cv = before.pending[auth_id@];
        assert(before.users.contains_key(cv.user));
        let j = match self.find_user(&ch.user_name) {
            Some(j) => j,
            None => {
                assert(false);
                return Err(AuthError::AuthIdNotFound(auth_id));
            },
        };
        proof {
            lemma_keyed_map_value(self.user_info@, user_key(), user_val(), j as int);
        }
        let u = &self.user_info[j];
        if big_ge(s.as_slice(), self.zkp.q.as_slice()) {
            return Err(AuthError::MalformedInput(auth_id));
        }
        let ok = self.zkp.verify(
            ch.r1.as_slice(),
            ch.r2.as_slice(),
            u.y1.as_slice(),
            u.y2.as_slice(),
            s.as_slice(),
            ch.c.as_slice(),
        );
        if ok {
            Ok(session_id)
        } else {
            Err(AuthError::BadSolution(auth_id))
        }
    }

    /// Answers the challenge pending under `auth_id` with the response `s`.
    /// Fails with `AuthIdNotFound` when no challenge is pending under that
    /// id, with `MalformedInput` when `s` is not below `q`, and with
    /// `BadSolution` when either verification equation fails; otherwise
    /// returns a fresh session id. The challenge is consumed whatever the
    /// outcome.
    pub fn verify_authentication(&mut self, auth_id: String, s: Vec<u8>) -> (r: Result<
        String,
        AuthError,
    >)
        requires
            old(self).wf(),
        ensures
            final(self).wf(),
            final(self).zkp == old(self).zkp,
            final(self)@ == verify_step(old(self)@, auth_id@),
            outcome_of(r) == Some(verify_outcome(old(self)@, old(self).zkp, auth_id@, be_value(s@))),
            match r {
                Ok(sid) => sid@.len() == TOKEN_LENGTH,
                Err(e) => error_subject(e) == auth_id@,
            },
    {
        let session_id = ZKP::generate_random_string(TOKEN_LENGTH);
        self.verify_authentication_with(auth_id, s, session_id)
    }

    /// The index of the identity registered under `name`.
    fn find_user(&self, name: &String) -> (r: Option<usize>)
        ensures
            match r {
                Some(i) => i < self.user_info@.len() && self.user_info@[i as int].user_name@
                    == name@,
                None => !self@.users.contains_key(name@),
            },
    {
        let mut i: usize = 0;
        while i < self.user_info.len()
            invariant
                i <= self.user_info@.len(),
                forall|j: int| 0 <= j < i ==> (#[trigger] self.user_info@[j]).user_name@ != name@,
            decreases self.user_info@.len() - i,
        {
            if self.user_info[i].user_name == *name {
                return Some(i);
            }
            i = i + 1;
        }
        proof {
            lemma_keyed_map_domain(self.user_info@, user_key(), user_val(), name@);
        }
        None
    }

    /// The index of the challenge pending under `auth_id`.
    fn find_challenge(&self, auth_id: &String) -> (r: Option<usize>)
        ensures
            match r {
                Some(i) => i < self.challenges@.len() && self.challenges@[i as int].auth_id@
                    == auth_id@,
                None => !self@.pending.contains_key(auth_id@),
            },
    {
        let mut i: usize = 0;
        while i < self.challenges.len()
            invariant
                i <= self.challenges@.len(),
                forall|j: int| 0 <= j < i ==> (#[trigger] self.challenges@[j]).auth_id@ != auth_id@,
            decreases self.challenges@.len() - i,
        {
            if self.challenges[i].auth_id == *auth_id {
                return Some(i);
            }
            i = i + 1;
        }
        proof {
            lemma_keyed_map_domain(self.challenges@, challenge_key(), challenge_val(), auth_id@);
        }
        None
    }
}

} // verus!
