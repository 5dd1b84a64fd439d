use vstd::prelude::*;
use crate::ids::random_id;

verus! {

/// A user's single-flight lease: at most one holder at a time, named by
/// its fencing token, until the lease expires.
#[derive(Debug, Clone)]
pub struct UserLock {
    user_id: i64,
    holder: Option<String>,
    expires_at: u64,
}

/// Model of a lease: the holder's token and the expiry time.
pub struct LockModel {
    pub holder: Option<Seq<char>>,
    pub expires_at: nat,
}

impl LockModel {
    /// The token that holds the lease at `now`, if any.
    pub open spec fn owner_at(self, now: nat) -> Option<Seq<char>> {
        if self.holder is Some && now < self.expires_at {
            self.holder
        } else {
            None
        }
    }

    pub open spec fn try_acquire(self, token: Seq<char>, now: nat, ttl: nat) -> (LockModel, bool) {
        if self.owner_at(now) is None {
            (LockModel { holder: Some(token), expires_at: now + ttl }, true)
        } else {
            (self, false)
        }
    }

    pub open spec fn refresh(self, token: Seq<char>, now: nat, ttl: nat) -> (LockModel, bool) {
        if self.owner_at(now) == Some(token) {
            (LockModel { expires_at: now + ttl, ..self }, true)
        } else {
            (self, false)
        }
    }

    pub open spec fn release(self, token: Seq<char>) -> (LockModel, bool) {
        if self.holder == Some(token) {
            (LockModel { holder: None, expires_at: 0 }, true)
        } else {
            (self, false)
        }
    }
}

/// Single flight: once a token holds the lease, no other token gets it
/// before the lease expires, and a release by another token changes
/// nothing.
pub proof fn lemma_single_holder(m: LockModel, a: Seq<char>, b: Seq<char>, now: nat, ttl: nat, later: nat)
    requires
        a != b,
        m.try_acquire(a, now, ttl).1,
        now <= later < now + ttl,
    ensures
        !m.try_acquire(a, now, ttl).0.try_acquire(b, later, ttl).1,
        m.try_acquire(a, now, ttl).0.release(b).0 == m.try_acquire(a, now, ttl).0,
        m.try_acquire(a, now, ttl).0.owner_at(later) == Some(a),
{
}

impl View for UserLock {
    type V = LockModel;

    closed spec fn view(&self) -> LockModel {
        LockModel {
            holder: match self.holder {
                Some(t) => Some(t@),
                None => None,
            },
            expires_at: self.expires_at as nat,
        }
    }
}

impl UserLock {
    pub closed spec fn user(&self) -> i64 {
        self.user_id
    }

    pub fn user_id(&self) -> (r: i64)
        ensures
            r == self.user(),
    {
        self.user_id
    }

    /// A free lease for `user_id`.
    pub fn new(user_id: i64) -> (r: UserLock)
        ensures
            r.user() == user_id,
            r@.holder is None,
    {
        UserLock { user_id, holder: None, expires_at: 0 }
    }

    /// Takes the lease for `token` until `now + ttl` if nobody holds it at
    /// `now` (never taken, released, or expired). Returns whether it did.
    pub fn try_acquire(&mut self, token: &String, now: u64, ttl: u64) -> (r: bool)
        requires
            now + ttl <= u64::MAX,
        ensures
            (final(self)@, r) == old(self)@.try_acquire(token@, now as nat, ttl as nat),
            final(self).user() == old(self).user(),
    {
        let free = match &self.holder {
            Some(_) => now >= self.expires_at,
            None => true,
        };
        if free {
            self.holder = Some(token.clone());
            self.expires_at = now + ttl;
        }
        free
    }

    /// Takes the lease under a fresh random fencing token, returned when
    /// the lease was free.
    pub fn acquire(&mut self, now: u64, ttl: u64) -> (r: Option<String>)
        requires
            now + ttl <= u64::MAX,
        ensures
            r is Some <==> old(self)@.owner_at(now as nat) is None,
            r matches Some(t) ==> final(self)@ == old(self)@.try_acquire(t@, now as nat, ttl as nat).0
                && t@.len() == 36,
            r is None ==> final(self)@ == old(self)@,
            final(self).user() == old(self).user(),
    {
        let token = random_id();
        if self.try_acquire(&token, now, ttl) {
            Some(token)
        } else {
            None
        }
    }

    /// Extends the lease to `now + ttl` if `token` still holds it.
    pub fn refresh(&mut self, token: &String, now: u64, ttl: u64) -> (r: bool)
        requires
            now + ttl <= u64::MAX,
        ensures
            (final(self)@, r) == old(self)@.refresh(token@, now as nat, ttl as nat),
            final(self).user() == old(self).user(),
    {
        let held = match &self.holder {
            Some(t) => now < self.expires_at && *t == *token,
            None => false,
        };
        if held {
            self.expires_at = now + ttl;
        }
        held
    }

    /// Frees the lease, only when `token` is the one recorded.
    pub fn release(&mut self, token: &String) -> (r: bool)
        ensures
            (final(self)@, r) == old(self)@.release(token@),
            final(self).user() == old(self).user(),
    {
        let mine = match &self.holder {
            Some(t) => *t == *token,
            None => false,
        };
        if mine {
            self.holder = None;
            self.expires_at = 0;
        }
        mine
    }

    /// Whether someone holds the lease at `now`.
    pub fn is_held(&self, now: u64) -> (r: bool)
        ensures
            r == (self@.owner_at(now as nat) is Some),
    {
        match &self.holder {
            Some(_) => now < self.expires_at,
            None => false,
        }
    }
}

} // verus!
