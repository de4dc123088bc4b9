//! Contributions collected from other participants, keyed by sender index.
use vstd::prelude::*;
use crate::error::FrostError;
use crate::group::{be_nat, group_order, scalar_from_slice};

verus! {

/// Byte contributions keyed by sender index; each index at most once, never 0.
pub struct Contributions {
    users: Vec<u16>,
    data: Vec<Vec<u8>>,
}

impl Contributions {
    pub closed spec fn users(&self) -> Seq<u16> {
        self.users@
    }

    pub closed spec fn data(&self) -> Seq<Seq<u8>> {
        self.data@.map_values(|v: Vec<u8>| v@)
    }

    pub closed spec fn wf(&self) -> bool {
        &&& self.users@.len() == self.data@.len()
        &&& forall|i: int, j: int|
            0 <= i < j < self.users@.len() ==> self.users@[i] != self.users@[j]
        &&& forall|i: int| 0 <= i < self.users@.len() ==> self.users@[i] != 0
    }

    /// A well-formed collection holds one contribution per sender.
    pub proof fn lemma_lengths(&self)
        requires
            self.wf(),
        ensures
            self.data().len() == self.users().len(),
    {
    }

    /// The contribution of `k`, where the index appears.
    pub open spec fn has(&self, k: u16) -> bool {
        self.users().contains(k)
    }

    pub open spec fn entry(&self, k: u16) -> Seq<u8> {
        self.data()[self.users().index_of(k)]
    }

    pub fn new() -> (r: Self)
        ensures
            r.wf(),
            r.users().len() == 0,
    {
        Contributions { users: Vec::new(), data: Vec::new() }
    }

    pub fn len(&self) -> (r: usize)
        requires
            self.wf(),
        ensures
            r == self.users().len(),
    {
        self.users.len()
    }

    /// Records `bytes` as the contribution of `user`. Index 0 and a second
    /// contribution from the same index are refused and change nothing.
    pub fn add(&mut self, user: u16, bytes: &[u8]) -> (r: Result<(), FrostError>)
        requires
            old(self).wf(),
        ensures
            final(self).wf(),
            user == 0 ==> r == Err::<(), FrostError>(FrostError::IndexOutOfRange { user }),
            user != 0 && old(self).has(user) ==> r == Err::<(), FrostError>(FrostError::DuplicateIndex { user }),
            r.is_err() ==> final(self).users() == old(self).users() && final(self).data() == old(self).data(),
            user != 0 && !old(self).has(user) ==> r.is_ok(),
            r.is_ok() ==> final(self).users() == old(self).users().push(user)
                && final(self).data() == old(self).data().push(bytes@),
            user != 0 ==> final(self).has(user),
    {
        if user == 0 {
            return Err(FrostError::IndexOutOfRange { user });
        }
        match self.find(user) {
            Some(_) => Err(FrostError::DuplicateIndex { user }),
            None => {
                let mut v: Vec<u8> = Vec::new();
                v.extend_from_slice(bytes);
                assert(v@ =~= bytes@);
                self.users.push(user);
                self.data.push(v);
                assert(self.data() =~= old(self).data().push(bytes@));
                assert(self.users()[self.users().len() - 1] == user);
                Ok(())
            },
        }
    }

    /// Records `bytes`, a canonical 32-byte scalar, as the contribution of
    /// `user`. Another width, a value not below the group order, and a second
    /// contribution from one index are refused and change nothing.
    pub fn add_scalar(&mut self, user: u16, bytes: &[u8]) -> (r: Result<(), FrostError>)
        requires
            old(self).wf(),
            user != 0,
        ensures
            final(self).wf(),
            bytes@.len() != 32 ==> r == Err::<(), FrostError>(FrostError::InvalidLength),
            bytes@.len() == 32 && be_nat(bytes@) >= group_order() ==> r == Err::<(), FrostError>(FrostError::NonCanonicalScalar),
            bytes@.len() == 32 && be_nat(bytes@) < group_order() && old(self).has(user)
                ==> r == Err::<(), FrostError>(FrostError::DuplicateIndex { user }),
            r.is_err() ==> final(self).users() == old(self).users() && final(self).data() == old(self).data(),
            bytes@.len() == 32 && be_nat(bytes@) < group_order() && !old(self).has(user) ==> r.is_ok(),
            r.is_ok() ==> final(self).users() == old(self).users().push(user)
                && final(self).data() == old(self).data().push(bytes@) && final(self).has(user),
    {
        if bytes.len() != 32 {
            return Err(FrostError::InvalidLength);
        }
        if scalar_from_slice(bytes).is_none() {
            return Err(FrostError::NonCanonicalScalar);
        }
        self.add(user, bytes)
    }

    /// The position of `k`'s contribution.
    pub fn find(&self, k: u16) -> (r: Option<usize>)
        requires
            self.wf(),
        ensures
            r.is_some() <==> self.has(k),
            r.is_some() ==> r.unwrap() == self.users().index_of(k) && r.unwrap() < self.users().len(),
    {
        let mut i: usize = 0;
        while i < self.users.len()
            invariant
                self.wf(),
                i <= self.users@.len(),
                forall|j: int| 0 <= j < i ==> self.users@[j] != k,
            decreases self.users@.len() - i,
        {
            if self.users[i] == k {
                proof {
                    assert(self.users().contains(k));
                    let j = self.users().index_of(k);
                    assert(self.users()[j] == k);
                }
                return Some(i);
            }
            i = i + 1;
        }
        None
    }

    /// Every sender is a participant of a group of `n` other than `own`.
    pub open spec fn senders_ok(&self, n: u16, own: u16) -> bool {
        forall|i: int|
            0 <= i < self.users().len() ==> 1 <= #[trigger] self.users()[i] <= n && self.users()[i] != own
    }

    /// Checks that every sender is a participant of a group of `n` other than
    /// `own`; otherwise names the first that is not.
    pub fn check_senders(&self, n: u16, own: u16) -> (r: Result<(), FrostError>)
        requires
            self.wf(),
        ensures
            r.is_ok() <==> self.senders_ok(n, own),
            r matches Err(e) ==> exists|i: int|
                0 <= i < self.users().len() && e == (FrostError::IndexOutOfRange { user: #[trigger] self.users()[i] })
                    && (self.users()[i] > n || self.users()[i] == own),
    {
        let mut i: usize = 0;
        while i < self.users.len()
            invariant
                self.wf(),
                i <= self.users@.len(),
                forall|j: int| 0 <= j < i ==> 1 <= #[trigger] self.users@[j] <= n && self.users@[j] != own,
            decreases self.users@.len() - i,
        {
            let user = self.users[i];
            if user > n || user == own {
                assert(self.users()[i as int] == user);
                return Err(FrostError::IndexOutOfRange { user });
            }
            i = i + 1;
        }
        Ok(())
    }

    /// The contribution at position `i`.
    pub fn bytes_at(&self, i: usize) -> (r: &Vec<u8>)
        requires
            self.wf(),
            i < self.users().len(),
        ensures
            r@ == self.data()[i as int],
    {
        &self.data[i]
    }

    /// The sender at position `i`.
    pub fn user_at(&self, i: usize) -> (r: u16)
        requires
            self.wf(),
            i < self.users().len(),
        ensures
            r == self.users()[i as int],
    {
        self.users[i]
    }
}

} // verus!
