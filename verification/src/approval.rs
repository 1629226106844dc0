//! Two-administrator approval at a checkpoint: an administrative request
//! reaches the port server only once two different administrators have
//! submitted it. Registration and authentication requests pass at once.
use vstd::prelude::*;
use crate::messages::{CheckpointRequest, Command, command_of};
use crate::text::{nat_text, owned, push_str, push_u64};

verus! {

/// The key under which a request waits: its command, worker and checkpoint
/// (0 where absent), joined by `_`.
pub open spec fn request_key(command: Seq<char>, worker_id: Option<u32>, checkpoint_id: Option<u32>) -> Seq<char> {
    command + "_"@ + nat_text(
        match worker_id {
            Some(w) => w as nat,
            None => 0,
        },
    ) + "_"@ + nat_text(
        match checkpoint_id {
            Some(c) => c as nat,
            None => 0,
        },
    )
}

pub open spec fn key_of(request: CheckpointRequest) -> Seq<char> {
    request_key(request.command@, request.worker_id, request.checkpoint_id)
}

/// Requests that need no approval.
pub open spec fn passes_unapproved(command: Seq<char>) -> bool {
    command_of(command) == Command::InitRequest || command_of(command) == Command::Authenticate
}

/// The key under which a request waits.
pub fn request_key_text(request: &CheckpointRequest) -> (r: String)
    ensures
        r@ == key_of(*request),
{
    let mut s = request.command.clone();
    push_str(&mut s, "_");
    let w: u64 = match request.worker_id {
        Some(w) => w as u64,
        None => 0,
    };
    push_u64(&mut s, w);
    push_str(&mut s, "_");
    let c: u64 = match request.checkpoint_id {
        Some(c) => c as u64,
        None => 0,
    };
    push_u64(&mut s, c);
    s
}

/// What becomes of a submitted request.
#[derive(Clone, Copy, Debug, PartialEq, Eq, Structural)]
pub enum Approval {
    /// Send it to the port server now.
    Forward,
    /// Wait for another administrator.
    Waiting,
}

/// What submitting a request does to the waiting requests: registration
/// and authentication pass at once; another request waits under its key
/// until a different administrator submits it, and then passes and stops
/// waiting.
pub open spec fn submit_step(pending: Map<Seq<char>, u32>, command: Seq<char>, key: Seq<char>, admin: u32) -> (
    Approval,
    Map<Seq<char>, u32>,
) {
    if passes_unapproved(command) {
        (Approval::Forward, pending)
    } else if !pending.contains_key(key) {
        (Approval::Waiting, pending.insert(key, admin))
    } else if pending[key] != admin {
        (Approval::Forward, pending.remove(key))
    } else {
        (Approval::Waiting, pending)
    }
}

/// An administrative request that nobody submitted yet waits at the first
/// submission, and passes when a different administrator submits it; after
/// that, nothing waits under its key any more.
pub proof fn lemma_second_admin_forwards(
    pending: Map<Seq<char>, u32>,
    command: Seq<char>,
    key: Seq<char>,
    first: u32,
    second: u32,
)
    requires
        !passes_unapproved(command),
        !pending.contains_key(key),
        first != second,
    ensures
        submit_step(pending, command, key, first).0 == Approval::Waiting,
        submit_step(submit_step(pending, command, key, first).1, command, key, second) == (Approval::Forward, pending),
{
    assert(pending.insert(key, first).remove(key) =~= pending);
}

/// One administrator alone never gets an administrative request through,
/// however often it is submitted.
pub proof fn lemma_same_admin_waits(pending: Map<Seq<char>, u32>, command: Seq<char>, key: Seq<char>, admin: u32)
    requires
        !passes_unapproved(command),
        !pending.contains_key(key),
    ensures
        submit_step(pending, command, key, admin).0 == Approval::Waiting,
        submit_step(submit_step(pending, command, key, admin).1, command, key, admin) == submit_step(
            pending,
            command,
            key,
            admin,
        ),
{
}

/// The requests that wait for a second administrator, each with the
/// administrator who submitted it first.
pub struct PendingApprovals {
    keys: Vec<String>,
    admins: Vec<u32>,
}

pub open spec fn pairs_map(keys: Seq<Seq<char>>, admins: Seq<u32>) -> Map<Seq<char>, u32>
    decreases keys.len(),
{
    if keys.len() == 0 || admins.len() == 0 {
        Map::empty()
    } else {
        pairs_map(keys.drop_last(), admins.drop_last()).insert(keys.last(), admins.last())
    }
}

pub open spec fn distinct(keys: Seq<Seq<char>>) -> bool {
    forall|i: int, j: int| 0 <= i < j < keys.len() ==> keys[i] != keys[j]
}

proof fn lemma_pairs_map_index(keys: Seq<Seq<char>>, admins: Seq<u32>)
    requires
        keys.len() == admins.len(),
        distinct(keys),
    ensures
        forall|i: int| 0 <= i < keys.len() ==> #[trigger] pairs_map(keys, admins).contains_key(keys[i])
            && pairs_map(keys, admins)[keys[i]] == admins[i],
        forall|k: Seq<char>| #[trigger] pairs_map(keys, admins).contains_key(k) ==> keys.contains(k),
    decreases keys.len(),
{
    if keys.len() > 0 {
        let k2 = keys.drop_last();
        let a2 = admins.drop_last();
        lemma_pairs_map_index(k2, a2);
        assert forall|i: int| 0 <= i < keys.len() implies #[trigger] pairs_map(keys, admins).contains_key(keys[i])
            && pairs_map(keys, admins)[keys[i]] == admins[i] by {
            if i < keys.len() - 1 {
                assert(k2[i] == keys[i]);
                assert(pairs_map(k2, a2).contains_key(k2[i]));
                assert(keys[i] != keys.last());
            }
        }
        assert forall|k: Seq<char>| #[trigger] pairs_map(keys, admins).contains_key(k) implies keys.contains(k) by {
            if k != keys.last() {
                assert(pairs_map(k2, a2).contains_key(k));
                let j = choose|j: int| 0 <= j < k2.len() && k2[j] == k;
                assert(keys[j] == k);
            } else {
                assert(keys[keys.len() - 1] == k);
            }
        }
    }
}

proof fn lemma_pairs_map_remove(keys: Seq<Seq<char>>, admins: Seq<u32>, i: int)
    requires
        keys.len() == admins.len(),
        distinct(keys),
        0 <= i < keys.len(),
    ensures
        pairs_map(keys.remove(i), admins.remove(i)) == pairs_map(keys, admins).remove(keys[i]),
    decreases keys.len(),
{
    let k2 = keys.drop_last();
    let a2 = admins.drop_last();
    if i == keys.len() - 1 {
        assert(keys.remove(i) == k2);
        assert(admins.remove(i) == a2);
        lemma_pairs_map_index(k2, a2);
        assert(!pairs_map(k2, a2).contains_key(keys[i])) by {
            if pairs_map(k2, a2).contains_key(keys[i]) {
                let j = choose|j: int| 0 <= j < k2.len() && k2[j] == keys[i];
                assert(keys[j] == keys[i]);
            }
        }
        assert(pairs_map(k2, a2) == pairs_map(keys, admins).remove(keys[i]));
    } else {
        lemma_pairs_map_remove(k2, a2, i);
        assert(keys.remove(i).drop_last() == k2.remove(i));
        assert(admins.remove(i).drop_last() == a2.remove(i));
        assert(keys.remove(i).last() == keys.last());
        assert(admins.remove(i).last() == admins.last());
        assert(keys.last() != keys[i]);
        assert(pairs_map(keys.remove(i), admins.remove(i)) == pairs_map(k2.remove(i), a2.remove(i)).insert(
            keys.last(),
            admins.last(),
        ));
        assert(pairs_map(keys.remove(i), admins.remove(i)) == pairs_map(keys, admins).remove(keys[i]));
    }
}

pub open spec fn string_views(v: Seq<String>) -> Seq<Seq<char>> {
    v.map_values(|s: String| s@)
}

impl PendingApprovals {
    /// The waiting requests, by key, with their first administrator.
    pub closed spec fn view(&self) -> Map<Seq<char>, u32> {
        pairs_map(string_views(self.keys@), self.admins@)
    }

    pub closed spec fn wf(&self) -> bool {
        &&& self.keys@.len() == self.admins@.len()
        &&& distinct(string_views(self.keys@))
    }

    /// Nothing waits.
    pub fn new() -> (r: PendingApprovals)
        ensures
            r.wf(),
            r.view() == Map::<Seq<char>, u32>::empty(),
    {
        PendingApprovals { keys: Vec::new(), admins: Vec::new() }
    }

    /// Administrator `admin_id` submits `request`. Registration and
    /// authentication pass at once. Another request waits under its key;
    /// it passes, and stops waiting, when a different administrator submits
    /// it again.
    pub fn submit(&mut self, request: &CheckpointRequest, admin_id: u32) -> (r: Approval)
        requires
            old(self).wf(),
        ensures
            final(self).wf(),
            (r, final(self).view()) == submit_step(old(self).view(), request.command@, key_of(*request), admin_id),
            passes_unapproved(request.command@) ==> r == Approval::Forward && final(self).view() == old(self).view(),
            !passes_unapproved(request.command@) ==> {
                let key = key_of(*request);
                if !old(self).view().contains_key(key) {
                    r == Approval::Waiting && final(self).view() == old(self).view().insert(key, admin_id)
                } else if old(self).view()[key] != admin_id {
                    r == Approval::Forward && final(self).view() == old(self).view().remove(key)
                } else {
                    r == Approval::Waiting && final(self).view() == old(self).view()
                }
            },
    {
        let command = Command::from_text(request.command.as_str());
        if command == Command::InitRequest || command == Command::Authenticate {
            return Approval::Forward;
        }
        let key = request_key_text(request);
        let ghost ks = string_views(self.keys@);
        proof {
            lemma_pairs_map_index(ks, self.admins@);
        }
        let mut i: usize = 0;
        while i < self.keys.len() && !(self.keys[i] == key)
            invariant
                i <= self.keys@.len(),
                ks == string_views(self.keys@),
                forall|j: int| 0 <= j < i ==> ks[j] != key@,
            decreases self.keys@.len() - i,
        {
            assert(ks[i as int] == self.keys@[i as int]@);
            i = i + 1;
        }
        if i < self.keys.len() {
            assert(ks[i as int] == key@) by {
                assert(ks[i as int] == self.keys@[i as int]@);
            }
            if self.admins[i] != admin_id {
                let ghost old_admins = self.admins@;
                self.keys.remove(i);
                self.admins.remove(i);
                proof {
                    assert(string_views(self.keys@) == ks.remove(i as int));
                    lemma_pairs_map_remove(ks, old_admins, i as int);
                }
                Approval::Forward
            } else {
                Approval::Waiting
            }
        } else {
            proof {
                assert(!ks.contains(key@));
            }
            let ghost old_admins = self.admins@;
            self.keys.push(key);
            self.admins.push(admin_id);
            proof {
                let nk = string_views(self.keys@);
                assert(nk == ks.push(key@));
                assert(nk.drop_last() == ks);
                assert(self.admins@.drop_last() == old_admins);
            }
            Approval::Waiting
        }
    }
}

} // verus!
