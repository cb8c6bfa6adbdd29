//! The two stores of the server: registrations by identity, and pending
//! challenges by authentication id.

use crate::bignat::BigNat;
use crate::engine::ZKP;
use crate::error::AuthError;
use crate::random::is_token;
use vstd::prelude::*;
use vstd::set_lib::lemma_int_range;
use vstd::set_lib::lemma_len_subset;
use vstd::set_lib::set_int_range;

verus! {

/// The pair that a user committed to at registration.
#[derive(Debug, Clone)]
pub struct Registration {
    /// Who registered.
    pub identity: String,
    /// `alpha^x mod p` for the user's secret `x`.
    pub y1: BigNat,
    /// `beta^x mod p` for the user's secret `x`.
    pub y2: BigNat,
}

/// The registrations as a map from identity to the registered pair.
pub type RegistrationMap = Map<Seq<char>, (nat, nat)>;

/// Registrations, at most one for each identity.
pub struct RegistrationStore {
    entries: Vec<Registration>,
}

impl View for RegistrationStore {
    type V = RegistrationMap;

    closed spec fn view(&self) -> RegistrationMap {
        Map::new(
            |id: Seq<char>| self.position(id) is Some,
            |id: Seq<char>|
                (
                    self.entries@[self.position(id)->Some_0].y1@,
                    self.entries@[self.position(id)->Some_0].y2@,
                ),
        )
    }
}

impl RegistrationStore {
    /// Where the registration of `id` is held, if anywhere.
    spec fn position(self, id: Seq<char>) -> Option<int> {
        if exists|i: int| 0 <= i < self.entries@.len() && self.entries@[i].identity@ == id {
            Some(choose|i: int| 0 <= i < self.entries@.len() && self.entries@[i].identity@ == id)
        } else {
            None
        }
    }

    #[verifier::type_invariant]
    spec fn well_formed(self) -> bool {
        forall|i: int, j: int|
            0 <= i < j < self.entries@.len() ==> self.entries@[i].identity@
                != self.entries@[j].identity@
    }

    /// A store without registrations.
    pub fn new() -> (out: RegistrationStore)
        ensures
            out@ == RegistrationMap::empty(),
    {
        let out = RegistrationStore { entries: Vec::new() };
        proof {
            assert(out@ =~= RegistrationMap::empty());
        }
        out
    }

    /// The index at which `identity` is registered.
    fn find(&self, identity: &String) -> (out: Option<usize>)
        ensures
            out is Some <==> self.position(identity@) is Some,
            out is Some ==> out->Some_0 == self.position(identity@)->Some_0,
            out is Some ==> out->Some_0 < self.entries@.len(),
    {
        let mut i: usize = 0;
        while i < self.entries.len()
            invariant
                i <= self.entries@.len(),
                forall|j: int| 0 <= j < i ==> self.entries@[j].identity@ != identity@,
            decreases self.entries@.len() - i,
        {
            if self.entries[i].identity == *identity {
                proof {
                    use_type_invariant(self);
                    assert(self.position(identity@) is Some);
                }
                return Some(i);
            }
            i = i + 1;
        }
        None
    }

    /// Registers `identity` with the pair `(y1, y2)`.  An earlier
    /// registration of the same identity is replaced.
    pub fn put(&mut self, identity: String, y1: BigNat, y2: BigNat)
        ensures
            final(self)@ == old(self)@.insert(identity@, (y1@, y2@)),
    {
        let found = self.find(&identity);
        let ghost before = *self;
        let ghost id = identity@;
        let ghost pair = (y1@, y2@);
        proof {
            use_type_invariant(&*self);
        }
        let mut entries: Vec<Registration> = Vec::new();
        core::mem::swap(&mut self.entries, &mut entries);
        match found {
            Some(i) => {
                entries.set(i, Registration { identity, y1, y2 });
                self.entries = entries;
                proof {
                    assert forall|k: Seq<char>| self.position(k) == before.position(k) by {
                        if before.position(k) is Some {
                            let j = before.position(k)->Some_0;
                            assert(self.entries@[j].identity@ == k);
                        }
                        if self.position(k) is Some {
                            let j = self.position(k)->Some_0;
                            assert(before.entries@[j].identity@ == k);
                        }
                    }
                    assert(self@ =~= before@.insert(id, pair));
                }
            },
            None => {
                entries.push(Registration { identity, y1, y2 });
                self.entries = entries;
                proof {
                    let n = before.entries@.len() as int;
                    assert(self.entries@[n].identity@ == id);
                    assert forall|k: Seq<char>| k != id implies self.position(k)
                        == before.position(k) by {
                        if before.position(k) is Some {
                            let j = before.position(k)->Some_0;
                            assert(self.entries@[j].identity@ == k);
                        }
                        if self.position(k) is Some {
                            let j = self.position(k)->Some_0;
                            assert(before.entries@[j].identity@ == k);
                        }
                    }
                    assert(self.position(id) == Some(n));
                    assert(self@ =~= before@.insert(id, pair));
                }
            },
        }
    }

    /// The registration of `identity`.
    pub fn get(&self, identity: &String) -> (out: Result<&Registration, AuthError>)
        ensures
            self@.contains_key(identity@) ==> out is Ok && out->Ok_0.identity@ == identity@ && (
                out->Ok_0.y1@,
                out->Ok_0.y2@,
            ) == self@[identity@],
            !self@.contains_key(identity@) ==> out == Err::<&Registration, AuthError>(
                AuthError::UnknownUser,
            ),
    {
        match self.find(identity) {
            Some(i) => Ok(&self.entries[i]),
            None => Err(AuthError::UnknownUser),
        }
    }
}

/// A challenge that was issued and is waiting for its response.
#[derive(Debug, Clone)]
pub struct Challenge {
    /// The id under which the response has to come in.
    pub auth_id: String,
    /// Who asked for the challenge.
    pub identity: String,
    /// `alpha^k mod p` for the prover's ephemeral exponent `k`.
    pub r1: BigNat,
    /// `beta^k mod p` for the prover's ephemeral exponent `k`.
    pub r2: BigNat,
    /// The challenge value that the verifier drew.
    pub c: BigNat,
}

/// What a pending challenge binds together.
pub struct ChallengeView {
    /// Who asked for the challenge.
    pub identity: Seq<char>,
    /// The first coordinate of the commitment.
    pub r1: nat,
    /// The second coordinate of the commitment.
    pub r2: nat,
    /// The challenge value.
    pub c: nat,
}

impl View for Challenge {
    type V = ChallengeView;

    open spec fn view(&self) -> ChallengeView {
        ChallengeView { identity: self.identity@, r1: self.r1@, r2: self.r2@, c: self.c@ }
    }
}

/// The pending challenges as a map from authentication id to challenge.
pub type ChallengeMap = Map<Seq<char>, ChallengeView>;

/// The length of an authentication id, unless ids of that length are
/// already taken.
pub const AUTH_ID_LEN: usize = 12;

/// Pending challenges, at most one for each authentication id.
pub struct ChallengeStore {
    entries: Vec<Challenge>,
}

impl View for ChallengeStore {
    type V = ChallengeMap;

    closed spec fn view(&self) -> ChallengeMap {
        Map::new(
            |id: Seq<char>| self.position(id) is Some,
            |id: Seq<char>| self.entries@[self.position(id)->Some_0]@,
        )
    }
}

impl ChallengeStore {
    /// Where the challenge with the id `id` is held, if anywhere.
    spec fn position(self, id: Seq<char>) -> Option<int> {
        if exists|i: int| 0 <= i < self.entries@.len() && self.entries@[i].auth_id@ == id {
            Some(choose|i: int| 0 <= i < self.entries@.len() && self.entries@[i].auth_id@ == id)
        } else {
            None
        }
    }

    #[verifier::type_invariant]
    spec fn well_formed(self) -> bool {
        &&& forall|i: int, j: int|
            0 <= i < j < self.entries@.len() ==> self.entries@[i].auth_id@
                != self.entries@[j].auth_id@
        &&& self@.dom().finite()
        &&& self@.dom().len() == self.entries@.len()
    }

    /// A store without pending challenges.
    pub fn new() -> (out: ChallengeStore)
        ensures
            out@ == ChallengeMap::empty(),
    {
        let entries: Vec<Challenge> = Vec::new();
        proof {
            let ghost made = ChallengeStore { entries };
            assert(made@ =~= ChallengeMap::empty());
        }
        ChallengeStore { entries }
    }

    /// How many challenges are pending.
    pub fn len(&self) -> (out: usize)
        ensures
            out == self@.len(),
    {
        proof {
            use_type_invariant(self);
        }
        self.entries.len()
    }

    /// The index at which the challenge with the id `auth_id` is held.
    fn find(&self, auth_id: &String) -> (out: Option<usize>)
        ensures
            out is Some <==> self.position(auth_id@) is Some,
            out is Some ==> out->Some_0 == self.position(auth_id@)->Some_0,
            out is Some ==> out->Some_0 < self.entries@.len(),
            out is Some ==> self.entries@[out->Some_0 as int].auth_id@ == auth_id@,
    {
        let mut i: usize = 0;
        while i < self.entries.len()
            invariant
                i <= self.entries@.len(),
                forall|j: int| 0 <= j < i ==> self.entries@[j].auth_id@ != auth_id@,
            decreases self.entries@.len() - i,
        {
            if self.entries[i].auth_id == *auth_id {
                proof {
                    use_type_invariant(self);
                    assert(self.position(auth_id@) is Some);
                }
                return Some(i);
            }
            i = i + 1;
        }
        None
    }

    /// Whether a challenge is pending under `auth_id`.
    pub fn contains(&self, auth_id: &String) -> (out: bool)
        ensures
            out == self@.contains_key(auth_id@),
    {
        self.find(auth_id).is_some()
    }

    /// Stores `challenge` under its id, unless a challenge is pending under
    /// that id already: then nothing changes.
    pub fn insert(&mut self, challenge: Challenge) -> (out: bool)
        ensures
            out == !old(self)@.contains_key(challenge.auth_id@),
            out ==> final(self)@ == old(self)@.insert(challenge.auth_id@, challenge@),
            !out ==> final(self)@ == old(self)@,
    {
        if self.find(&challenge.auth_id).is_some() {
            return false;
        }
        let ghost before = *self;
        let ghost id = challenge.auth_id@;
        let ghost content = challenge@;
        proof {
            use_type_invariant(&*self);
        }
        let mut entries: Vec<Challenge> = Vec::new();
        proof {
            let emptied = ChallengeStore { entries };
            assert(emptied@ =~= ChallengeMap::empty());
        }
        core::mem::swap(&mut self.entries, &mut entries);
        entries.push(challenge);
        proof {
            let after = ChallengeStore { entries };
            let n = before.entries@.len() as int;
            assert(after.entries@[n].auth_id@ == id);
            assert forall|k: Seq<char>| k != id implies after.position(k) == before.position(
                k,
            ) by {
                if before.position(k) is Some {
                    let j = before.position(k)->Some_0;
                    assert(after.entries@[j].auth_id@ == k);
                }
                if after.position(k) is Some {
                    let j = after.position(k)->Some_0;
                    assert(before.entries@[j].auth_id@ == k);
                }
            }
            assert(after.position(id) == Some(n));
            assert(after@ =~= before@.insert(id, content));
        }
        self.entries = entries;
        true
    }

    /// Draws an authentication id under which no challenge is pending.
    ///
    /// The first draw has `AUTH_ID_LEN` characters.  Each draw that turns
    /// out to be taken is followed by one that is a character longer, so
    /// that no two draws can meet the same pending challenge and the search
    /// ends after at most one draw more than there are pending challenges.
    pub fn fresh_id(&self) -> (out: String)
        requires
            self@.len() + AUTH_ID_LEN < usize::MAX,
        ensures
            !self@.contains_key(out@),
            is_token(out@),
            out@.len() >= AUTH_ID_LEN,
    {
        proof {
            use_type_invariant(self);
        }
        let n = self.entries.len();
        let mut size: usize = AUTH_ID_LEN;
        let ghost mut met: Set<int> = Set::empty();
        loop
            invariant
                n == self.entries@.len(),
                n + AUTH_ID_LEN < usize::MAX,
                met.finite(),
                met.len() <= n,
                size == AUTH_ID_LEN + met.len(),
                forall|i: int| #[trigger]
                    met.contains(i) ==> 0 <= i < n && self.entries@[i].auth_id@.len() < size,
            decreases n - met.len(),
        {
            let candidate = ZKP::generate_random_string(size);
            match self.find(&candidate) {
                None => {
                    return candidate;
                },
                Some(i) => {
                    proof {
                        assert(!met.contains(i as int));
                        let grown = met.insert(i as int);
                        lemma_int_range(0, n as int);
                        assert(grown.subset_of(set_int_range(0, n as int)));
                        lemma_len_subset(grown, set_int_range(0, n as int));
                        met = grown;
                    }
                    size = size + 1;
                },
            }
        }
    }

    /// Stores a challenge under a fresh authentication id and returns the
    /// id.
    pub fn create(&mut self, identity: String, r1: BigNat, r2: BigNat, c: BigNat) -> (out: String)
        requires
            old(self)@.len() + AUTH_ID_LEN < usize::MAX,
        ensures
            !old(self)@.contains_key(out@),
            is_token(out@),
            out@.len() >= AUTH_ID_LEN,
            final(self)@ == old(self)@.insert(
                out@,
                ChallengeView { identity: identity@, r1: r1@, r2: r2@, c: c@ },
            ),
    {
        let auth_id = self.fresh_id();
        self.insert(Challenge { auth_id: auth_id.clone(), identity, r1, r2, c });
        auth_id
    }

    /// Removes the challenge that is pending under `auth_id` and hands it
    /// out.  A challenge can be taken once.
    pub fn take(&mut self, auth_id: &String) -> (out: Result<Challenge, AuthError>)
        ensures
            old(self)@.contains_key(auth_id@) ==> out is Ok && out->Ok_0.auth_id@ == auth_id@
                && out->Ok_0@ == old(self)@[auth_id@],
            !old(self)@.contains_key(auth_id@) ==> out is Err && out->Err_0
                == AuthError::UnknownChallenge && final(self)@ == old(self)@,
            final(self)@ == old(self)@.remove(auth_id@),
    {
        let found = self.find(auth_id);
        let ghost before = *self;
        let ghost id = auth_id@;
        proof {
            use_type_invariant(&*self);
        }
        match found {
            None => {
                proof {
                    assert(before@.remove(id) =~= before@);
                }
                Err(AuthError::UnknownChallenge)
            },
            Some(i) => {
                let mut entries: Vec<Challenge> = Vec::new();
                proof {
                    let emptied = ChallengeStore { entries };
                    assert(emptied@ =~= ChallengeMap::empty());
                }
                core::mem::swap(&mut self.entries, &mut entries);
                let taken = entries.remove(i);
                proof {
                    let after = ChallengeStore { entries };
                    assert forall|a: int, b: int|
                        0 <= a < b < after.entries@.len() implies after.entries@[a].auth_id@
                        != after.entries@[b].auth_id@ by {
                        let a0 = if a < i { a } else { a + 1 };
                        let b0 = if b < i { b } else { b + 1 };
                        assert(after.entries@[a] == before.entries@[a0]);
                        assert(after.entries@[b] == before.entries@[b0]);
                    }
                    assert forall|k: Seq<char>| k != id implies (after.position(k) is Some
                        <==> before.position(k) is Some) && (after.position(k) is Some
                        ==> after.entries@[after.position(k)->Some_0]
                        == before.entries@[before.position(k)->Some_0]) by {
                        if before.position(k) is Some {
                            let j = before.position(k)->Some_0;
                            let j1 = if j < i { j } else { j - 1 };
                            assert(after.entries@[j1] == before.entries@[j]);
                            assert(after.entries@[j1].auth_id@ == k);
                        }
                        if after.position(k) is Some {
                            let j = after.position(k)->Some_0;
                            let j0 = if j < i { j } else { j + 1 };
                            assert(after.entries@[j] == before.entries@[j0]);
                            assert(before.entries@[j0].auth_id@ == k);
                        }
                    }
                    assert(after.position(id) is None) by {
                        if after.position(id) is Some {
                            let j = after.position(id)->Some_0;
                            let j0 = if j < i { j } else { j + 1 };
                            assert(after.entries@[j] == before.entries@[j0]);
                        }
                    }
                    assert(after@ =~= before@.remove(id));
                }
                self.entries = entries;
                Ok(taken)
            },
        }
    }
}

} // verus!
