//! The verifier: the records it keeps for each user and the four operations
//! that it offers.
//!
//! The state is one value. Each operation takes it by exclusive reference, so
//! an operation is atomic with respect to every other one; a caller that
//! serves requests concurrently keeps the state behind one lock. There is at
//! most one pending challenge for a user: a new one replaces the old one, and
//! a verification is checked against the one that is stored when it arrives.

use vstd::prelude::*;
use crate::algebra::{
    lemma_honest_prover_accepted, mod_exp, proof_accepted, recompute_commitment, response,
};
use crate::encoding::{be_value, encode};
use crate::error::ProtocolError;
use crate::group::{
    decoded_group, freshly_generated, generate_parameters, is_prime, subgroup_generators,
    EncodedParameters, GroupParameters, GroupView, MIN_BIT_LENGTH,
};
use crate::natural::Natural;
use crate::registry::Registry;
use crate::soundness::lemma_at_most_one_answer_accepted;

verus! {

/// The public values `y1 = g^x mod p` and `y2 = h^x mod p` of a user.
#[derive(Debug)]
pub struct UserRecord {
    pub username: String,
    pub y1: Natural,
    pub y2: Natural,
}

/// A user's record as mathematical values.
pub struct UserView {
    pub username: Seq<char>,
    pub y1: nat,
    pub y2: nat,
}

impl View for UserRecord {
    type V = UserView;

    open spec fn view(&self) -> UserView {
        UserView { username: self.username@, y1: self.y1@, y2: self.y2@ }
    }
}

/// The commitments `r1`, `r2` of a proof attempt and the challenge `c` that
/// was issued for them.
#[derive(Debug)]
pub struct PendingChallenge {
    pub username: String,
    pub r1: Natural,
    pub r2: Natural,
    pub c: Natural,
}

/// A pending challenge as mathematical values.
pub struct ChallengeView {
    pub username: Seq<char>,
    pub r1: nat,
    pub r2: nat,
    pub c: nat,
}

impl View for PendingChallenge {
    type V = ChallengeView;

    open spec fn view(&self) -> ChallengeView {
        ChallengeView { username: self.username@, r1: self.r1@, r2: self.r2@, c: self.c@ }
    }
}

/// The verifier's state as mathematical values.
pub struct ServerView {
    pub parameters: Option<GroupView>,
    pub users: Map<Seq<char>, UserView>,
    pub challenges: Map<Seq<char>, ChallengeView>,
}

/// The state of a verifier that has done nothing yet.
pub open spec fn initial_state() -> ServerView {
    ServerView { parameters: None, users: Map::empty(), challenges: Map::empty() }
}

/// The state after the group was set to `group`: the records and the pending
/// challenges stay as they were.
pub open spec fn after_init(state: ServerView, group: GroupView) -> ServerView {
    ServerView { parameters: Some(group), ..state }
}

/// The state after `username` registered `y1` and `y2`.
pub open spec fn after_register(state: ServerView, username: Seq<char>, y1: nat, y2: nat)
    -> ServerView {
    ServerView { users: state.users.insert(username, UserView { username, y1, y2 }), ..state }
}

/// The state after the challenge `c` was issued to `username` for the
/// commitments `r1` and `r2`.
pub open spec fn after_challenge(
    state: ServerView,
    username: Seq<char>,
    r1: nat,
    r2: nat,
    c: nat,
) -> ServerView {
    ServerView {
        challenges: state.challenges.insert(username, ChallengeView { username, r1, r2, c }),
        ..state
    }
}

/// What a verification of the answer `s` for `username` comes to: an error
/// where a record is missing, else whether the proof is accepted.
pub open spec fn verify_outcome(state: ServerView, username: Seq<char>, s: nat) -> Result<
    bool,
    ProtocolError,
> {
    if !state.users.contains_key(username) {
        Err(ProtocolError::UserNotFound)
    } else if !state.challenges.contains_key(username) {
        Err(ProtocolError::ChallengeNotFound)
    } else if state.parameters is None {
        Err(ProtocolError::NotInitialized)
    } else {
        let group = state.parameters->0;
        let user = state.users[username];
        let challenge = state.challenges[username];
        Ok(
            proof_accepted(
                group.p,
                group.g,
                group.h,
                user.y1,
                user.y2,
                challenge.r1,
                challenge.r2,
                challenge.c,
                s,
            ),
        )
    }
}

/// The state after a verification for `username`: a verification that was
/// carried out, accepted or not, uses its challenge up.
pub open spec fn after_verify(state: ServerView, username: Seq<char>, s: nat) -> ServerView {
    if verify_outcome(state, username, s) is Ok {
        ServerView { challenges: state.challenges.remove(username), ..state }
    } else {
        state
    }
}

/// The session token of an accepted proof.
pub open spec fn session_token() -> Seq<char> {
    "valid_session_token"@
}

/// What a verification answers: the session token when the proof was
/// accepted, the empty string when it was not.
pub open spec fn session_for(accepted: bool) -> Seq<char> {
    if accepted {
        session_token()
    } else {
        Seq::empty()
    }
}

/// The session token is not empty, so an empty answer always means that the
/// proof was rejected.
pub proof fn lemma_session_token_not_empty()
    ensures
        session_token().len() > 0,
        forall|accepted: bool| accepted <==> #[trigger] session_for(accepted).len() > 0,
{
    reveal_strlit("valid_session_token");
}

/// A verification for a user that never registered fails with
/// `UserNotFound`; for a registered user without a pending challenge it
/// fails with `ChallengeNotFound`. Either way the state stays as it was.
pub proof fn lemma_missing_records(state: ServerView, username: Seq<char>, s: nat)
    ensures
        !state.users.contains_key(username) ==> verify_outcome(state, username, s) == Err::<
            bool,
            ProtocolError,
        >(ProtocolError::UserNotFound),
        state.users.contains_key(username) && !state.challenges.contains_key(username)
            ==> verify_outcome(state, username, s) == Err::<bool, ProtocolError>(
            ProtocolError::ChallengeNotFound,
        ),
        verify_outcome(state, username, s) is Err ==> after_verify(state, username, s) == state,
        verify_outcome(initial_state(), username, s) == Err::<bool, ProtocolError>(
            ProtocolError::UserNotFound,
        ),
{
}

/// Completeness of a full exchange: in a group whose generators lie in the
/// subgroup of order `q`, a user that registers `g^x` and `h^x`, commits to
/// `g^k` and `h^k` and answers the challenge `c` with `(k - c*x) mod q` is
/// accepted, for every secret `x`, nonce `k` and challenge `c`.
pub proof fn lemma_honest_exchange_accepted(
    state: ServerView,
    username: Seq<char>,
    x: nat,
    k: nat,
    c: nat,
)
    requires
        state.parameters is Some,
        state.parameters->0.p > 0,
        state.parameters->0.q > 0,
        subgroup_generators(state.parameters->0),
    ensures
        ({
            let group = state.parameters->0;
            let registered = after_register(
                state,
                username,
                mod_exp(group.g, x, group.p),
                mod_exp(group.h, x, group.p),
            );
            let challenged = after_challenge(
                registered,
                username,
                mod_exp(group.g, k, group.p),
                mod_exp(group.h, k, group.p),
                c,
            );
            verify_outcome(challenged, username, response(k, c, x, group.q)) == Ok::<
                bool,
                ProtocolError,
            >(true)
        }),
{
    let group = state.parameters->0;
    lemma_honest_prover_accepted(group.p, group.q, group.g, group.h, x, k, c);
}

/// Soundness against guessing: against the records and the pending challenge
/// of one state, at most one answer below `q` is accepted. This holds where
/// `q` is prime, `g^q mod p = 1`, `g` is not 1 modulo `p`, and the user's
/// first public value is a power of `g`.
pub proof fn lemma_guess_accepted_once(
    state: ServerView,
    username: Seq<char>,
    x: nat,
    s1: nat,
    s2: nat,
)
    requires
        state.parameters is Some,
        state.parameters->0.p > 0,
        is_prime(state.parameters->0.q),
        mod_exp(state.parameters->0.g, state.parameters->0.q, state.parameters->0.p) == 1,
        state.parameters->0.g % state.parameters->0.p != 1,
        state.users.contains_key(username),
        state.users[username].y1 == mod_exp(state.parameters->0.g, x, state.parameters->0.p),
        s1 < state.parameters->0.q,
        s2 < state.parameters->0.q,
        verify_outcome(state, username, s1) == Ok::<bool, ProtocolError>(true),
        verify_outcome(state, username, s2) == Ok::<bool, ProtocolError>(true),
    ensures
        s1 == s2,
{
    let group = state.parameters->0;
    let user = state.users[username];
    let challenge = state.challenges[username];
    lemma_at_most_one_answer_accepted(
        group.p,
        group.q,
        group.g,
        group.h,
        x,
        user.y2,
        challenge.r1,
        challenge.r2,
        challenge.c,
        s1,
        s2,
    );
}

/// Users do not affect each other: what `other` registers, commits to or has
/// verified changes neither the records of `username` nor what a verification
/// for `username` comes to.
pub proof fn lemma_users_are_isolated(
    state: ServerView,
    username: Seq<char>,
    other: Seq<char>,
    s: nat,
    a: nat,
    b: nat,
    c: nat,
)
    requires
        username != other,
    ensures
        verify_outcome(after_register(state, other, a, b), username, s) == verify_outcome(
            state,
            username,
            s,
        ),
        verify_outcome(after_challenge(state, other, a, b, c), username, s) == verify_outcome(
            state,
            username,
            s,
        ),
        verify_outcome(after_verify(state, other, a), username, s) == verify_outcome(
            state,
            username,
            s,
        ),
        after_register(state, other, a, b).users.contains_key(username)
            == state.users.contains_key(username),
        after_register(state, other, a, b).users[username] == state.users[username],
        after_challenge(state, other, a, b, c).challenges.contains_key(username)
            == state.challenges.contains_key(username),
        after_challenge(state, other, a, b, c).challenges[username] == state.challenges[username],
        after_verify(state, other, a).challenges.contains_key(username)
            == state.challenges.contains_key(username),
        after_verify(state, other, a).challenges[username] == state.challenges[username],
{
}

/// The verifier: the group, the registered users and the pending challenges.
pub struct ZkpServerI {
    users: Registry<UserRecord>,
    challenges: Registry<PendingChallenge>,
    parameters: Option<GroupParameters>,
}

impl View for ZkpServerI {
    type V = ServerView;

    closed spec fn view(&self) -> ServerView {
        ServerView {
            parameters: match self.parameters {
                Some(parameters) => Some(parameters@),
                None => None,
            },
            users: self.users@.map_values(|user: UserRecord| user@),
            challenges: self.challenges@.map_values(|challenge: PendingChallenge| challenge@),
        }
    }
}

impl Default for ZkpServerI {
    fn default() -> (server: ZkpServerI)
        ensures
            server@ == initial_state(),
    {
        ZkpServerI::new()
    }
}

impl ZkpServerI {
    /// A verifier without parameters, users or challenges.
    pub fn new() -> (server: ZkpServerI)
        ensures
            server@ == initial_state(),
    {
        let server = ZkpServerI {
            users: Registry::new(),
            challenges: Registry::new(),
            parameters: None,
        };
        assert(server@.users =~= Map::empty());
        assert(server@.challenges =~= Map::empty());
        server
    }

    /// The group, once it was created.
    pub fn parameters(&self) -> (parameters: Option<&GroupParameters>)
        ensures
            match parameters {
                Some(group) => self@.parameters == Some(group@),
                None => self@.parameters is None,
            },
    {
        match &self.parameters {
            Some(parameters) => Some(parameters),
            None => None,
        }
    }

    /// The record of `username`, if it registered.
    pub fn user(&self, username: &String) -> (record: Option<&UserRecord>)
        ensures
            match record {
                Some(user) => self@.users.contains_key(username@) && self@.users[username@]
                    == user@,
                None => !self@.users.contains_key(username@),
            },
    {
        self.users.get(username)
    }

    /// The pending challenge of `username`, if there is one.
    pub fn pending_challenge(&self, username: &String) -> (pending: Option<&PendingChallenge>)
        ensures
            match pending {
                Some(challenge) => self@.challenges.contains_key(username@)
                    && self@.challenges[username@] == challenge@,
                None => !self@.challenges.contains_key(username@),
            },
    {
        self.challenges.get(username)
    }

    /// Creates a group with a modulus of `bit_length` bits, makes it the group
    /// of this verifier and returns its four numbers encoded. Records and
    /// pending challenges stay as they were; those made under an earlier
    /// group have no meaning in the new one, so a verifier is initialized
    /// once, before it serves. Fewer than 3 bits are refused as malformed;
    /// then, and when the search for the group gives up, nothing changes.
    pub fn init_communication(&mut self, bit_length: usize) -> (result: Result<
        EncodedParameters,
        ProtocolError,
    >)
        ensures
            bit_length < MIN_BIT_LENGTH ==> result == Err::<EncodedParameters, ProtocolError>(
                ProtocolError::MalformedInput,
            ) && final(self)@ == old(self)@,
            bit_length >= MIN_BIT_LENGTH ==> match result {
                Ok(encoded) => {
                    let group = decoded_group(encoded.p@, encoded.q@, encoded.g@, encoded.h@);
                    &&& freshly_generated(group, bit_length as nat)
                    &&& final(self)@ == after_init(old(self)@, group)
                    &&& encoded.p@ == encode(group.p)
                    &&& encoded.q@ == encode(group.q)
                    &&& encoded.g@ == encode(group.g)
                    &&& encoded.h@ == encode(group.h)
                },
                Err(e) => e == ProtocolError::SearchExhausted && final(self)@ == old(self)@,
            },
    {
        match generate_parameters(bit_length) {
            Ok(parameters) => Ok(self.install_parameters(parameters)),
            Err(e) => Err(e),
        }
    }

    /// Makes `parameters` the group of this verifier and returns its four
    /// numbers encoded. Records and pending challenges stay as they were.
    pub fn install_parameters(&mut self, parameters: GroupParameters) -> (encoded:
        EncodedParameters)
        ensures
            final(self)@ == after_init(old(self)@, parameters@),
            decoded_group(encoded.p@, encoded.q@, encoded.g@, encoded.h@) == parameters@,
            encoded.p@ == encode(parameters@.p),
            encoded.q@ == encode(parameters@.q),
            encoded.g@ == encode(parameters@.g),
            encoded.h@ == encode(parameters@.h),
    {
        let encoded = parameters.to_bytes();
        self.parameters = Some(parameters);
        encoded
    }

    /// Stores the public values of `username`, given as big-endian byte
    /// strings, in place of any earlier ones. The values are not checked
    /// against the group.
    pub fn register(&mut self, username: String, y1: &[u8], y2: &[u8])
        ensures
            final(self)@ == after_register(
                old(self)@,
                username@,
                be_value(y1@),
                be_value(y2@),
            ),
    {
        let record = UserRecord {
            username: username.clone(),
            y1: Natural::from_bytes(y1),
            y2: Natural::from_bytes(y2),
        };
        self.users.insert(username, record);
        assert(self@.users =~= old(self)@.users.insert(username@, record@));
    }

    /// Issues a challenge to `username` for the commitments `r1` and `r2`,
    /// given as big-endian byte strings: draws `c` at random from `[0, q)`,
    /// stores it with the commitments in place of any earlier challenge of
    /// that user, and returns `c` encoded. The user need not be registered.
    /// Without a group the answer is `NotInitialized` and nothing changes.
    pub fn challenge(&mut self, username: String, r1: &[u8], r2: &[u8]) -> (result: Result<
        Vec<u8>,
        ProtocolError,
    >)
        ensures
            old(self)@.parameters is None ==> result == Err::<Vec<u8>, ProtocolError>(
                ProtocolError::NotInitialized,
            ) && final(self)@ == old(self)@,
            old(self)@.parameters is Some ==> result is Ok && ({
                let c = be_value(result->Ok_0@);
                &&& c < old(self)@.parameters->0.q
                &&& result->Ok_0@ == encode(c)
                &&& final(self)@ == after_challenge(
                    old(self)@,
                    username@,
                    be_value(r1@),
                    be_value(r2@),
                    c,
                )
            }),
    {
        let c = match &self.parameters {
            Some(parameters) => {
                let zero = Natural::from_u64(0);
                Natural::random_in_range(&zero, parameters.q()).unwrap()
            },
            None => {
                return Err(ProtocolError::NotInitialized);
            },
        };
        self.record_challenge(username, r1, r2, c)
    }

    /// Stores the challenge `c` for `username` with the commitments `r1` and
    /// `r2`, in place of any earlier challenge of that user, and returns `c`
    /// encoded. Without a group the answer is `NotInitialized`; a `c` that is
    /// not below `q` is refused as malformed. In both cases nothing changes.
    pub fn record_challenge(&mut self, username: String, r1: &[u8], r2: &[u8], c: Natural) -> (result:
        Result<Vec<u8>, ProtocolError>)
        ensures
            old(self)@.parameters is None ==> result == Err::<Vec<u8>, ProtocolError>(
                ProtocolError::NotInitialized,
            ) && final(self)@ == old(self)@,
            old(self)@.parameters is Some && c@ >= old(self)@.parameters->0.q ==> result == Err::<
                Vec<u8>,
                ProtocolError,
            >(ProtocolError::MalformedInput) && final(self)@ == old(self)@,
            old(self)@.parameters is Some && c@ < old(self)@.parameters->0.q ==> result is Ok
                && result->Ok_0@ == encode(c@) && be_value(result->Ok_0@) == c@ && final(self)@
                == after_challenge(
                old(self)@,
                username@,
                be_value(r1@),
                be_value(r2@),
                c@,
            ),
    {
        match &self.parameters {
            Some(parameters) => {
                if !c.less_than(parameters.q()) {
                    return Err(ProtocolError::MalformedInput);
                }
            },
            None => {
                return Err(ProtocolError::NotInitialized);
            },
        }
        let encoded = c.to_bytes();
        let pending = PendingChallenge {
            username: username.clone(),
            r1: Natural::from_bytes(r1),
            r2: Natural::from_bytes(r2),
            c,
        };
        self.challenges.insert(username, pending);
        assert(self@.challenges =~= old(self)@.challenges.insert(username@, pending@));
        Ok(encoded)
    }

    /// Checks the answer `s`, given as a big-endian byte string, against the
    /// record and the pending challenge of `username`. The answer is the
    /// session token when `g^s * y1^c` and `h^s * y2^c`, reduced modulo `p`,
    /// equal the stored commitments, and the empty string when they do not: a
    /// proof that fails is no error. The challenge is used up either way.
    ///
    /// An error is returned, and nothing changes, for a user that is not
    /// registered (`UserNotFound`), for one without a pending challenge
    /// (`ChallengeNotFound`), and without a group (`NotInitialized`).
    pub fn verify(&mut self, username: &String, s: &[u8]) -> (result: Result<String, ProtocolError>)
        ensures
            final(self)@ == after_verify(old(self)@, username@, be_value(s@)),
            match verify_outcome(old(self)@, username@, be_value(s@)) {
                Ok(accepted) => result is Ok && result->Ok_0@ == session_for(accepted),
                Err(e) => result == Err::<String, ProtocolError>(e),
            },
    {
        let user = match self.users.get(username) {
            Some(user) => user,
            None => {
                return Err(ProtocolError::UserNotFound);
            },
        };
        let challenge = match self.challenges.get(username) {
            Some(challenge) => challenge,
            None => {
                return Err(ProtocolError::ChallengeNotFound);
            },
        };
        let parameters = match &self.parameters {
            Some(parameters) => parameters,
            None => {
                return Err(ProtocolError::NotInitialized);
            },
        };
        let s = Natural::from_bytes(s);
        let p = parameters.p();
        let v1 = recompute_commitment(parameters.g(), &user.y1, &s, &challenge.c, p).unwrap();
        let v2 = recompute_commitment(parameters.h(), &user.y2, &s, &challenge.c, p).unwrap();
        let accepted = v1.equals(&challenge.r1) && v2.equals(&challenge.r2);
        self.challenges.remove(username);
        assert(self@.challenges =~= old(self)@.challenges.remove(username@));
        if accepted {
            Ok("valid_session_token".to_owned())
        } else {
            Ok(String::new())
        }
    }
}

} // verus!
