//! The prover: the secret, the group it was given, and the steps of one
//! proof.
//!
//! A proof takes two steps. `generate_prove` draws a fresh nonce and gives the
//! commitments to send; `respond` takes the verifier's challenge and gives the
//! answer. The nonce is kept between the two steps and dropped with the
//! answer, so that it is never used for a second proof.

use vstd::prelude::*;
use crate::algebra::{compute_response, lemma_response_in_range, mod_exp, response};
use crate::encoding::{be_value, encode};
use crate::error::ProtocolError;
use crate::group::{decoded_group, in_range, GroupParameters, GroupView};
use crate::natural::Natural;

verus! {

/// Two numbers as they travel: minimal big-endian byte strings.
#[derive(Debug)]
pub struct EncodedPair {
    pub first: Vec<u8>,
    pub second: Vec<u8>,
}

/// The prover's state as mathematical values.
pub struct ClientView {
    pub username: Seq<char>,
    pub x: nat,
    pub parameters: Option<GroupView>,
    pub y1: nat,
    pub y2: nat,
    pub nonce: Option<nat>,
}

/// The prover: a user name, the secret `x`, the group once it was fetched, the
/// public values once they were computed, and the nonce of a proof that is
/// under way.
pub struct ZkpClientWrapper {
    username: String,
    x: Natural,
    parameters: Option<GroupParameters>,
    y1: Natural,
    y2: Natural,
    nonce: Option<Natural>,
}

impl View for ZkpClientWrapper {
    type V = ClientView;

    closed spec fn view(&self) -> ClientView {
        ClientView {
            username: self.username@,
            x: self.x@,
            parameters: match self.parameters {
                Some(parameters) => Some(parameters@),
                None => None,
            },
            y1: self.y1@,
            y2: self.y2@,
            nonce: match self.nonce {
                Some(k) => Some(k@),
                None => None,
            },
        }
    }
}

impl ZkpClientWrapper {
    /// A prover for `username` with the secret `secret`, before it has
    /// fetched a group.
    pub fn new(username: String, secret: Natural) -> (client: ZkpClientWrapper)
        ensures
            client@ == (ClientView {
                username: username@,
                x: secret@,
                parameters: None,
                y1: 0,
                y2: 0,
                nonce: None,
            }),
    {
        ZkpClientWrapper {
            username,
            x: secret,
            parameters: None,
            y1: Natural::from_u64(0),
            y2: Natural::from_u64(0),
            nonce: None,
        }
    }

    /// The user name.
    pub fn username(&self) -> (username: &String)
        ensures
            username@ == self@.username,
    {
        &self.username
    }

    /// The group, once it was fetched.
    pub fn parameters(&self) -> (parameters: Option<&GroupParameters>)
        ensures
            match parameters {
                Some(group) => self@.parameters == Some(group@),
                None => self@.parameters is None,
            },
    {
        match &self.parameters {
            Some(parameters) => Some(parameters),
            None => None,
        }
    }

    /// Takes the group that the verifier sent as four big-endian byte
    /// strings. Numbers out of range are refused as malformed and leave the
    /// state as it was. A proof that was under way is abandoned.
    pub fn init_communication(&mut self, p: &[u8], q: &[u8], g: &[u8], h: &[u8]) -> (result:
        Result<(), ProtocolError>)
        ensures
            in_range(decoded_group(p@, q@, g@, h@)) ==> result is Ok && final(self)@ == (
            ClientView {
                parameters: Some(decoded_group(p@, q@, g@, h@)),
                nonce: None,
                ..old(self)@
            }),
            !in_range(decoded_group(p@, q@, g@, h@)) ==> result == Err::<(), ProtocolError>(
                ProtocolError::MalformedInput,
            ) && final(self)@ == old(self)@,
    {
        match GroupParameters::from_bytes(p, q, g, h) {
            Ok(parameters) => {
                self.parameters = Some(parameters);
                self.nonce = None;
                Ok(())
            },
            Err(e) => Err(e),
        }
    }

    /// Computes the public values `y1 = g^x mod p` and `y2 = h^x mod p`,
    /// keeps them and returns them encoded, to be sent with the user name.
    /// Without a group the answer is `NotInitialized` and nothing changes.
    pub fn register(&mut self) -> (result: Result<EncodedPair, ProtocolError>)
        ensures
            old(self)@.parameters is None ==> result == Err::<EncodedPair, ProtocolError>(
                ProtocolError::NotInitialized,
            ) && final(self)@ == old(self)@,
            old(self)@.parameters is Some ==> result is Ok && ({
                let group = old(self)@.parameters->0;
                let y1 = mod_exp(group.g, old(self)@.x, group.p);
                let y2 = mod_exp(group.h, old(self)@.x, group.p);
                &&& result->Ok_0.first@ == encode(y1)
                &&& result->Ok_0.second@ == encode(y2)
                &&& final(self)@ == (ClientView { y1, y2, ..old(self)@ })
            }),
    {
        let (y1, y2) = match &self.parameters {
            Some(parameters) => {
                let p = parameters.p();
                (
                    parameters.g().mod_pow(&self.x, p).unwrap(),
                    parameters.h().mod_pow(&self.x, p).unwrap(),
                )
            },
            None => {
                return Err(ProtocolError::NotInitialized);
            },
        };
        let encoded = EncodedPair { first: y1.to_bytes(), second: y2.to_bytes() };
        self.y1 = y1;
        self.y2 = y2;
        Ok(encoded)
    }

    /// Begins a proof: draws a nonce `k` at random from `[0, q)`, keeps it and
    /// returns the commitments `r1 = g^k mod p` and `r2 = h^k mod p` encoded.
    /// Without a group the answer is `NotInitialized` and nothing changes.
    pub fn generate_prove(&mut self) -> (result: Result<EncodedPair, ProtocolError>)
        ensures
            old(self)@.parameters is None ==> result == Err::<EncodedPair, ProtocolError>(
                ProtocolError::NotInitialized,
            ) && final(self)@ == old(self)@,
            old(self)@.parameters is Some ==> result is Ok && final(self)@.nonce is Some && ({
                let group = old(self)@.parameters->0;
                let k = final(self)@.nonce->0;
                &&& k < group.q
                &&& result->Ok_0.first@ == encode(mod_exp(group.g, k, group.p))
                &&& result->Ok_0.second@ == encode(mod_exp(group.h, k, group.p))
                &&& final(self)@ == (ClientView { nonce: Some(k), ..old(self)@ })
            }),
    {
        let k = match &self.parameters {
            Some(parameters) => {
                let zero = Natural::from_u64(0);
                Natural::random_in_range(&zero, parameters.q()).unwrap()
            },
            None => {
                return Err(ProtocolError::NotInitialized);
            },
        };
        self.commit(k)
    }

    /// Begins a proof with the nonce `k`: keeps it and returns the
    /// commitments `r1 = g^k mod p` and `r2 = h^k mod p` encoded. Without a
    /// group the answer is `NotInitialized`; a `k` that is not below `q` is
    /// refused as malformed. In both cases nothing changes.
    pub fn commit(&mut self, k: Natural) -> (result: Result<EncodedPair, ProtocolError>)
        ensures
            old(self)@.parameters is None ==> result == Err::<EncodedPair, ProtocolError>(
                ProtocolError::NotInitialized,
            ) && final(self)@ == old(self)@,
            old(self)@.parameters is Some && k@ >= old(self)@.parameters->0.q ==> result == Err::<
                EncodedPair,
                ProtocolError,
            >(ProtocolError::MalformedInput) && final(self)@ == old(self)@,
            old(self)@.parameters is Some && k@ < old(self)@.parameters->0.q ==> result is Ok && ({
                let group = old(self)@.parameters->0;
                &&& result->Ok_0.first@ == encode(mod_exp(group.g, k@, group.p))
                &&& result->Ok_0.second@ == encode(mod_exp(group.h, k@, group.p))
                &&& final(self)@ == (ClientView { nonce: Some(k@), ..old(self)@ })
            }),
    {
        let encoded = match &self.parameters {
            Some(parameters) => {
                if !k.less_than(parameters.q()) {
                    return Err(ProtocolError::MalformedInput);
                }
                let p = parameters.p();
                let r1 = parameters.g().mod_pow(&k, p).unwrap();
                let r2 = parameters.h().mod_pow(&k, p).unwrap();
                EncodedPair { first: r1.to_bytes(), second: r2.to_bytes() }
            },
            None => {
                return Err(ProtocolError::NotInitialized);
            },
        };
        self.nonce = Some(k);
        Ok(encoded)
    }

    /// Answers the challenge `c`, given as a big-endian byte string, with
    /// `s = (k - c*x) mod q` encoded, and drops the nonce `k`. Without a group
    /// the answer is `NotInitialized`, and without a proof under way it is
    /// `ChallengeNotFound`; in both cases nothing changes.
    pub fn respond(&mut self, c: &[u8]) -> (result: Result<Vec<u8>, ProtocolError>)
        ensures
            old(self)@.parameters is None ==> result == Err::<Vec<u8>, ProtocolError>(
                ProtocolError::NotInitialized,
            ) && final(self)@ == old(self)@,
            old(self)@.parameters is Some && old(self)@.nonce is None ==> result == Err::<
                Vec<u8>,
                ProtocolError,
            >(ProtocolError::ChallengeNotFound) && final(self)@ == old(self)@,
            old(self)@.parameters is Some && old(self)@.nonce is Some ==> result is Ok && ({
                let s = response(
                    old(self)@.nonce->0,
                    be_value(c@),
                    old(self)@.x,
                    old(self)@.parameters->0.q,
                );
                &&& result->Ok_0@ == encode(s)
                &&& s < old(self)@.parameters->0.q
                &&& final(self)@ == (ClientView { nonce: None, ..old(self)@ })
            }),
    {
        let s = match &self.parameters {
            Some(parameters) => match &self.nonce {
                Some(k) => {
                    let c = Natural::from_bytes(c);
                    let q = parameters.q();
                    proof {
                        lemma_response_in_range(k@, c@, self.x@, q@);
                    }
                    compute_response(k, &c, &self.x, q).unwrap()
                },
                None => {
                    return Err(ProtocolError::ChallengeNotFound);
                },
            },
            None => {
                return Err(ProtocolError::NotInitialized);
            },
        };
        self.nonce = None;
        Ok(s.to_bytes())
    }
}

/// Whether a session token stands for a successful authentication: every
/// token but the empty one does.
pub fn is_authenticated(session: &str) -> (authenticated: bool)
    ensures
        authenticated == (session@.len() > 0),
{
    !session.is_empty()
}

} // verus!
