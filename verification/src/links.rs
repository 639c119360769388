//! Fixed-capacity link slot table: small integer tokens handed out
//! from a free-list and reclaimed on unlink. The endpoint keys each
//! live connection by such a token; slot exhaustion is a hard capacity
//! limit requiring explicit reclamation, not a transient condition.

use vstd::prelude::*;

verus! {

/// Maximum number of links to other peers' endpoints.
pub const MAX_LINK_COUNT: usize = 1024;

/// The lowest link token; smaller token values are left to the caller
/// (the endpoint reserves one for its listening socket).
pub const FIRST_LINK_TOKEN: u64 = 100;

/// The slot table: which tokens are free and which are in use.
pub struct Links {
    free_tokens: Vec<u64>,
    used_tokens: Vec<u64>,
}

impl Links {
    /// Tokens still free, in pop order (the last is handed out next).
    pub closed spec fn free(self) -> Seq<u64> {
        self.free_tokens@
    }

    /// Tokens currently in use, oldest first.
    pub closed spec fn used(self) -> Seq<u64> {
        self.used_tokens@
    }

    /// No token is listed twice, no token is both free and in use, and
    /// together they exhaust the fixed capacity.
    pub open spec fn wf(self) -> bool {
        &&& self.free().len() + self.used().len() == MAX_LINK_COUNT
        &&& forall|i: int, j: int|
            0 <= i < j < self.free().len() ==> #[trigger] self.free()[i]
                != #[trigger] self.free()[j]
        &&& forall|i: int, j: int|
            0 <= i < j < self.used().len() ==> #[trigger] self.used()[i]
                != #[trigger] self.used()[j]
        &&& forall|i: int, j: int|
            0 <= i < self.free().len() && 0 <= j < self.used().len()
                ==> #[trigger] self.free()[i] != #[trigger] self.used()[j]
        &&& forall|i: int|
            0 <= i < self.free().len() ==> FIRST_LINK_TOKEN <= #[trigger] self.free()[i]
                < FIRST_LINK_TOKEN + MAX_LINK_COUNT
        &&& forall|i: int|
            0 <= i < self.used().len() ==> FIRST_LINK_TOKEN <= #[trigger] self.used()[i]
                < FIRST_LINK_TOKEN + MAX_LINK_COUNT
    }

    /// A token is currently allocated.
    pub open spec fn is_used(self, token: u64) -> bool {
        self.used().contains(token)
    }

    /// A fresh table: every token free, none in use.
    pub fn new() -> (r: Self)
        ensures
            r.wf(),
            r.used() == Seq::<u64>::empty(),
            r.free().len() == MAX_LINK_COUNT,
            forall|i: int|
                0 <= i < MAX_LINK_COUNT ==> #[trigger] r.free()[i] == FIRST_LINK_TOKEN + i,
    {
        let mut free_tokens: Vec<u64> = Vec::new();
        let mut k: usize = 0;
        while k < MAX_LINK_COUNT
            invariant
                k <= MAX_LINK_COUNT,
                free_tokens@.len() == k,
                forall|i: int|
                    0 <= i < k ==> #[trigger] free_tokens@[i] == FIRST_LINK_TOKEN + i,
            decreases MAX_LINK_COUNT - k,
        {
            free_tokens.push(FIRST_LINK_TOKEN + (k as u64));
            k += 1;
        }
        let r = Links { free_tokens, used_tokens: Vec::new() };
        proof {
            assert(r.used() =~= Seq::<u64>::empty());
        }
        r
    }

    /// How many more links can be taken before the capacity limit.
    pub fn free_count(&self) -> (r: usize)
        ensures
            r == self.free().len(),
    {
        self.free_tokens.len()
    }

    /// Tries to allocate a slot: hands out the next free token, or
    /// nothing when all slots are taken — the caller must then reject
    /// the connection.
    pub fn link(&mut self) -> (r: Option<u64>)
        requires
            old(self).wf(),
        ensures
            final(self).wf(),
            old(self).free().len() == 0 ==> r is None && final(self).free() == old(self).free()
                && final(self).used() == old(self).used(),
            old(self).free().len() > 0 ==> r is Some && r->0 == old(self).free().last()
                && final(self).free() == old(self).free().drop_last() && final(self).used()
                == old(self).used().push(r->0),
            r is Some ==> final(self).is_used(r->0),
    {
        let ghost f0 = self.free_tokens@;
        let ghost u0 = self.used_tokens@;
        match self.free_tokens.pop() {
            Some(token) => {
                self.used_tokens.push(token);
                proof {
                    assert(self.free_tokens@ =~= f0.drop_last());
                    assert(self.used_tokens@ =~= u0.push(token));
                    assert(self.used()[u0.len() as int] == token);
                }
                Some(token)
            }
            None => None,
        }
    }

    /// Releases a used token back to the free-list; reports whether the
    /// token was in use at all.
    pub fn unlink(&mut self, token: u64) -> (r: bool)
        requires
            old(self).wf(),
        ensures
            final(self).wf(),
            r == old(self).is_used(token),
            !r ==> final(self).free() == old(self).free() && final(self).used() == old(
                self,
            ).used(),
            r ==> final(self).used() == old(self).used().remove(old(self).used().index_of(token))
                && final(self).free() == old(self).free().push(token),
            !final(self).is_used(token),
    {
        let ghost u0 = self.used_tokens@;
        let ghost f0 = self.free_tokens@;
        let n = self.used_tokens.len();
        let mut i: usize = 0;
        while i < n
            invariant
                self.used_tokens@ == u0,
                self.free_tokens@ == f0,
                u0 == old(self).used(),
                f0 == old(self).free(),
                self.wf(),
                n == u0.len(),
                i <= n,
                forall|k: int| 0 <= k < i ==> u0[k] != token,
            decreases n - i,
        {
            if self.used_tokens[i] == token {
                self.used_tokens.remove(i);
                self.free_tokens.push(token);
                proof {
                    assert(u0[i as int] == token);
                    assert(u0.contains(token));
                    assert(u0.index_of(token) == i as int) by {
                        let j = u0.index_of(token);
                        if j != i as int {
                            assert(u0[j] == token && u0[i as int] == token);
                            assert(false);
                        }
                    }
                    assert(!self.used_tokens@.contains(token)) by {
                        if self.used_tokens@.contains(token) {
                            let k = choose|k: int|
                                0 <= k < self.used_tokens@.len() && self.used_tokens@[k] == token;
                            if k < i as int {
                                assert(u0[k] == token);
                            } else {
                                assert(u0[k + 1] == token);
                            }
                            assert(false);
                        }
                    }
                    assert forall|a: int, b: int|
                        0 <= a < b < self.used_tokens@.len() implies self.used_tokens@[a]
                        != self.used_tokens@[b] by {
                        let m = i as int;
                        if b < m {
                            assert(u0[a] == self.used_tokens@[a] && u0[b] == self.used_tokens@[b]);
                        } else if a < m {
                            assert(u0[a] == self.used_tokens@[a] && u0[b + 1]
                                == self.used_tokens@[b]);
                        } else {
                            assert(u0[a + 1] == self.used_tokens@[a] && u0[b + 1]
                                == self.used_tokens@[b]);
                        }
                    }
                }
                return true;
            }
            i += 1;
        }
        proof {
            if u0.contains(token) {
                let k = choose|k: int| 0 <= k < u0.len() && u0[k] == token;
                assert(false);
            }
        }
        false
    }

    /// Whether the token names a live slot.
    pub fn get(&self, token: u64) -> (r: bool)
        ensures
            r == self.is_used(token),
    {
        let n = self.used_tokens.len();
        let mut i: usize = 0;
        while i < n
            invariant
                n == self.used().len(),
                i <= n,
                forall|k: int| 0 <= k < i ==> self.used()[k] != token,
            decreases n - i,
        {
            if self.used_tokens[i] == token {
                proof {
                    assert(self.used()[i as int] == token);
                }
                return true;
            }
            i += 1;
        }
        proof {
            if self.used().contains(token) {
                let k = choose|k: int| 0 <= k < self.used().len() && self.used()[k] == token;
                assert(false);
            }
        }
        false
    }
}

} // verus!
