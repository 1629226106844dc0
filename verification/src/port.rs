//! The port server's decisions: the two authentication factors, the
//! per-checkpoint authentication state machine and its timeout, the
//! handling of administrative requests, and the lines of its audit log.
//! Database lookups, the network and the log file are the caller's.
use vstd::prelude::*;
use vstd::utf8::{decode_utf8, valid_utf8};
use crate::codec::utf8_text;
use crate::messages::{
    CheckpointReply, CheckpointState, DatabaseReply, DatabaseRequest, role_names, Role, command_of,
    Command,
};
use crate::text::{
    comma_list, comma_list_contains, int_text, option_text, owned, parse_u32, push_option_u64,
    push_str, push_u64, text_eq, text_to_u32, trim, trim_end_char, trim_end_matching, trim_text,
};

verus! {

pub open spec fn opt_text(o: Option<String>) -> Seq<char> {
    match o {
        Some(s) => s@,
        None => Seq::empty(),
    }
}

fn text_or_empty(o: &Option<String>) -> (r: &str)
    ensures
        r@ == opt_text(*o),
{
    match o {
        Some(s) => {
            let r = s.as_str();
            assert(r@ == s@);
            r
        },
        None => {
            proof {
                reveal_strlit("");
            }
            ""
        },
    }
}

// ---------------------------------------------------------------------
// First factor: the card
// ---------------------------------------------------------------------
/// A worker known to the port server passes the card check when the
/// checkpoint admits the worker's role; a failed lookup refuses.
pub fn rfid_local_decision(role_name: Option<&str>, allowed_roles: Option<&str>) -> (r: bool)
    ensures
        r == (match (role_name, allowed_roles) {
            (Some(role), Some(allowed)) => comma_list(allowed@).contains(role@),
            _ => false,
        }),
{
    match (role_name, allowed_roles) {
        (Some(role), Some(allowed)) => comma_list_contains(allowed, role),
        _ => false,
    }
}

/// The request that asks the central database about a worker at a checkpoint.
pub fn central_auth_request(checkpoint_id: u32, worker_id: u32, worker_fingerprint: Option<String>) -> (r: DatabaseRequest)
    ensures
        r.command@ == "AUTHENTICATE"@,
        r.checkpoint_id == Some(checkpoint_id),
        r.worker_id == Some(worker_id),
        r.worker_fingerprint == worker_fingerprint,
        (DatabaseRequest { checkpoint_id: None, worker_id: None, worker_fingerprint: None, ..r }).is_bare(),
{
    let mut r = DatabaseRequest::bare("AUTHENTICATE");
    r.checkpoint_id = Some(checkpoint_id);
    r.worker_id = Some(worker_id);
    r.worker_fingerprint = worker_fingerprint;
    r
}

/// A central reply that the card check can read: unless it reports an
/// error, it names the worker, a known role and the checkpoint's location.
pub open spec fn rfid_reply_readable(reply: DatabaseReply) -> bool {
    reply.status@ != "error"@ ==> {
        &&& reply.role_id matches Some(role) && role < 4
        &&& reply.worker_id is Some
        &&& reply.location is Some
    }
}

/// The card check against the central database: the reply is no error, it
/// is about this worker, the checkpoint admits the worker's role, and the
/// worker may enter the checkpoint's location.
pub open spec fn rfid_central_granted(rfid: u32, reply: DatabaseReply) -> bool {
    &&& reply.status@ != "error"@
    &&& reply.worker_id == Some(rfid)
    &&& comma_list(opt_text(reply.authorized_roles)).contains(role_names()[reply.role_id->0 as int])
    &&& comma_list(opt_text(reply.allowed_locations)).contains(opt_text(reply.location))
}

pub fn rfid_central_decision(rfid: u32, reply: &DatabaseReply) -> (r: bool)
    requires
        rfid_reply_readable(*reply),
    ensures
        r == rfid_central_granted(rfid, *reply),
{
    if text_eq(reply.status.as_str(), "error") {
        return false;
    }
    let role_id = match reply.role_id {
        Some(x) => x,
        None => 0,
    };
    let role = match Role::as_str(role_id as usize) {
        Some(name) => name,
        None => "",
    };
    let same_worker = match reply.worker_id {
        Some(w) => w == rfid,
        None => false,
    };
    same_worker && comma_list_contains(text_or_empty(&reply.authorized_roles), role)
        && comma_list_contains(text_or_empty(&reply.allowed_locations), text_or_empty(&reply.location))
}

// ---------------------------------------------------------------------
// Second factor: the fingerprint
// ---------------------------------------------------------------------
/// How a fingerprint check ended, as the audit log records it.
#[derive(Clone, Copy, Debug, PartialEq, Eq, Structural)]
pub enum FingerprintOutcome {
    MissingData,
    InvalidFormat,
    Success,
    NoMatch,
    LocalDbError,
    Mismatch,
    CentralDbError,
    Incomplete,
}

pub open spec fn fingerprint_status_text(o: FingerprintOutcome) -> Option<Seq<char>> {
    match o {
        FingerprintOutcome::MissingData => Some("Failed - Missing data"@),
        FingerprintOutcome::InvalidFormat => Some("Failed - Invalid format"@),
        FingerprintOutcome::Success => Some("Success"@),
        FingerprintOutcome::NoMatch => Some("Failed - No Match"@),
        FingerprintOutcome::LocalDbError => Some("Failed - DB Error"@),
        FingerprintOutcome::Mismatch => Some("Failed - Mismatch"@),
        FingerprintOutcome::CentralDbError => Some("Failed - DB error"@),
        FingerprintOutcome::Incomplete => None,
    }
}

impl FingerprintOutcome {
    /// Whether the worker passes.
    pub fn granted(self) -> (r: bool)
        ensures
            r == (self == FingerprintOutcome::Success),
    {
        match self {
            FingerprintOutcome::Success => true,
            _ => false,
        }
    }

    /// The status the audit log records; an incomplete central reply is not logged.
    pub fn log_status(self) -> (r: Option<&'static str>)
        ensures
            match fingerprint_status_text(self) {
                Some(t) => r matches Some(x) && x@ == t,
                None => r is None,
            },
    {
        match self {
            FingerprintOutcome::MissingData => Some("Failed - Missing data"),
            FingerprintOutcome::InvalidFormat => Some("Failed - Invalid format"),
            FingerprintOutcome::Success => Some("Success"),
            FingerprintOutcome::NoMatch => Some("Failed - No Match"),
            FingerprintOutcome::LocalDbError => Some("Failed - DB Error"),
            FingerprintOutcome::Mismatch => Some("Failed - Mismatch"),
            FingerprintOutcome::CentralDbError => Some("Failed - DB error"),
            FingerprintOutcome::Incomplete => None,
        }
    }
}

/// Before any lookup: the card, the scan and the checkpoint must all be
/// given, and the scan must be a fingerprint number.
pub fn fingerprint_precheck(rfid: Option<u32>, fingerprint: Option<&str>, checkpoint_id: Option<u32>) -> (r: Result<u32, FingerprintOutcome>)
    ensures
        match (rfid, fingerprint, checkpoint_id) {
            (Some(_), Some(f), Some(_)) => match parse_u32(f@) {
                Some(v) => r == Ok::<u32, FingerprintOutcome>(v as u32),
                None => r == Err::<u32, FingerprintOutcome>(FingerprintOutcome::InvalidFormat),
            },
            _ => r == Err::<u32, FingerprintOutcome>(FingerprintOutcome::MissingData),
        },
{
    match (rfid, fingerprint, checkpoint_id) {
        (Some(_), Some(f), Some(_)) => match text_to_u32(f) {
            Some(v) => Ok(v),
            None => Err(FingerprintOutcome::InvalidFormat),
        },
        _ => Err(FingerprintOutcome::MissingData),
    }
}

/// A worker known to the port server: the scan must be the stored fingerprint.
pub fn fingerprint_local_outcome(scanned: u32, stored: Option<u32>) -> (r: FingerprintOutcome)
    ensures
        r == (match stored {
            Some(s) => if s == scanned { FingerprintOutcome::Success } else { FingerprintOutcome::NoMatch },
            None => FingerprintOutcome::LocalDbError,
        }),
{
    match stored {
        Some(s) => if s == scanned { FingerprintOutcome::Success } else { FingerprintOutcome::NoMatch },
        None => FingerprintOutcome::LocalDbError,
    }
}

pub open spec fn fingerprint_central_spec(rfid: u32, scanned: Seq<char>, reply: Option<DatabaseReply>) -> FingerprintOutcome {
    match reply {
        None => FingerprintOutcome::CentralDbError,
        Some(r) => if r.status@ != "success"@ {
            FingerprintOutcome::CentralDbError
        } else {
            match (r.worker_id, r.worker_fingerprint) {
                (Some(w), Some(f)) => if w == rfid && f@ == scanned {
                    FingerprintOutcome::Success
                } else {
                    FingerprintOutcome::Mismatch
                },
                _ => FingerprintOutcome::Incomplete,
            }
        },
    }
}

/// A worker unknown to the port server: the central database must answer
/// with this worker and this fingerprint.
pub fn fingerprint_central_outcome(rfid: u32, scanned: &str, reply: Option<&DatabaseReply>) -> (r: FingerprintOutcome)
    ensures
        r == fingerprint_central_spec(rfid, scanned@, match reply { Some(x) => Some(*x), None => None }),
{
    match reply {
        None => FingerprintOutcome::CentralDbError,
        Some(r) => {
            if !text_eq(r.status.as_str(), "success") {
                FingerprintOutcome::CentralDbError
            } else {
                match (&r.worker_id, &r.worker_fingerprint) {
                    (Some(w), Some(f)) => {
                        if *w == rfid && text_eq(f.as_str(), scanned) {
                            FingerprintOutcome::Success
                        } else {
                            FingerprintOutcome::Mismatch
                        }
                    },
                    _ => FingerprintOutcome::Incomplete,
                }
            }
        },
    }
}

/// A worker unknown to the port server passes the central check exactly
/// when the central database answers with success, with this worker, and
/// with a stored fingerprint equal to the scanned one, character for
/// character; so no other scan passes against the same answer.
pub proof fn lemma_central_fingerprint_exact(rfid: u32, scanned: Seq<char>, other: Seq<char>, reply: Option<DatabaseReply>)
    ensures
        (fingerprint_central_spec(rfid, scanned, reply) == FingerprintOutcome::Success) == {
            &&& reply is Some
            &&& reply->0.status@ == "success"@
            &&& reply->0.worker_id == Some(rfid)
            &&& reply->0.worker_fingerprint is Some
            &&& reply->0.worker_fingerprint->0@ == scanned
        },
        fingerprint_central_spec(rfid, scanned, reply) == FingerprintOutcome::Success && fingerprint_central_spec(
            rfid,
            other,
            reply,
        ) == FingerprintOutcome::Success ==> scanned == other,
{
}

/// A worker's record, as the port server keeps it after a central check.
pub struct CacheEntry {
    pub worker_id: u32,
    pub name: String,
    pub fingerprint: String,
    pub role_id: u32,
    pub allowed_locations: String,
    pub rfid_data: u32,
}

/// The record to keep from a central reply, when it has every part.
pub fn cache_entry(reply: &DatabaseReply) -> (r: Option<CacheEntry>)
    ensures
        match r {
            Some(e) => {
                &&& reply.worker_id == Some(e.worker_id)
                &&& reply.worker_name == Some(e.name)
                &&& reply.worker_fingerprint == Some(e.fingerprint)
                &&& reply.role_id == Some(e.role_id)
                &&& reply.allowed_locations == Some(e.allowed_locations)
                &&& reply.rfid_data == Some(e.rfid_data)
            },
            None => reply.worker_id is None || reply.worker_name is None || reply.worker_fingerprint is None
                || reply.role_id is None || reply.allowed_locations is None || reply.rfid_data is None,
        },
{
    match (&reply.worker_id, &reply.worker_name, &reply.worker_fingerprint, &reply.role_id, &reply.allowed_locations, &reply.rfid_data) {
        (Some(w), Some(n), Some(f), Some(role), Some(l), Some(d)) => Some(CacheEntry {
            worker_id: *w,
            name: n.clone(),
            fingerprint: f.clone(),
            role_id: *role,
            allowed_locations: l.clone(),
            rfid_data: *d,
        }),
        _ => None,
    }
}

// ---------------------------------------------------------------------
// The authentication state machine of one checkpoint
// ---------------------------------------------------------------------
/// Which factor a request is checked against.
#[derive(Clone, Copy, Debug, PartialEq, Eq, Structural)]
pub enum AuthCheck {
    Rfid,
    Fingerprint,
}

pub open spec fn check_spec(state: CheckpointState) -> Option<AuthCheck> {
    match state {
        CheckpointState::WaitForRfid => Some(AuthCheck::Rfid),
        CheckpointState::WaitForFingerprint => Some(AuthCheck::Fingerprint),
        _ => None,
    }
}

/// The factor that a checkpoint in `state` expects; in a final state no
/// request is accepted.
pub fn check_for_state(state: CheckpointState) -> (r: Option<AuthCheck>)
    ensures
        r == check_spec(state),
{
    match state {
        CheckpointState::WaitForRfid => Some(AuthCheck::Rfid),
        CheckpointState::WaitForFingerprint => Some(AuthCheck::Fingerprint),
        _ => None,
    }
}

/// A checkpoint waiting for a card has its request checked against the
/// card, one waiting for a fingerprint against the fingerprint, and one in
/// a final state accepts none: the two waiting states expect different
/// factors.
pub proof fn lemma_factor_by_state(state: CheckpointState)
    ensures
        (check_spec(state) == Some(AuthCheck::Rfid)) == (state == CheckpointState::WaitForRfid),
        (check_spec(state) == Some(AuthCheck::Fingerprint)) == (state == CheckpointState::WaitForFingerprint),
        (check_spec(state) is None) == (state == CheckpointState::AuthSuccessful || state
            == CheckpointState::AuthFailed),
{
}

/// The state right after a check: a passed card leads to the fingerprint,
/// a passed fingerprint to success, a failure to failure.
pub open spec fn after_check(state: CheckpointState, passed: bool) -> CheckpointState {
    if !passed {
        CheckpointState::AuthFailed
    } else if state == CheckpointState::WaitForRfid {
        CheckpointState::WaitForFingerprint
    } else {
        CheckpointState::AuthSuccessful
    }
}

pub open spec fn is_final(state: CheckpointState) -> bool {
    state == CheckpointState::AuthSuccessful || state == CheckpointState::AuthFailed
}

/// The state in which the checkpoint waits for its next request: a final
/// state is held while it is reported, then the checkpoint waits for a card.
pub open spec fn resting(state: CheckpointState) -> CheckpointState {
    if is_final(state) {
        CheckpointState::WaitForRfid
    } else {
        state
    }
}

/// What a checkpoint is told after a check.
pub open spec fn reply_ok(reply: CheckpointReply, state: CheckpointState, worker_id: u32, checkpoint_id: Option<u32>) -> bool {
    if is_final(state) {
        &&& reply.status@ == "success"@
        &&& reply.checkpoint_id is None
        &&& reply.worker_id is None
        &&& reply.auth_response == Some(state)
        &&& reply.rfid_ver == Some(true)
        &&& reply.fingerprint is None
        &&& reply.data is None
    } else {
        &&& reply.status@ == "success"@
        &&& reply.checkpoint_id == checkpoint_id
        &&& reply.worker_id == Some(worker_id)
        &&& reply.auth_response == Some(state)
        &&& reply.rfid_ver == Some(true)
        &&& reply.fingerprint is None
        &&& reply.data is None
    }
}

/// One step of the state machine: the reply to send, the state while it is
/// sent, whether that state is held (for five seconds) before the
/// checkpoint waits again, and the state afterwards.
pub struct AuthStep {
    pub reply: CheckpointReply,
    pub state: CheckpointState,
    pub hold: bool,
    pub state_after: CheckpointState,
}

pub fn auth_step(state: CheckpointState, worker_id: u32, checkpoint_id: Option<u32>, passed: bool) -> (r: AuthStep)
    requires
        check_spec(state) is Some,
    ensures
        r.state == after_check(state, passed),
        r.hold == is_final(r.state),
        r.state_after == resting(r.state),
        reply_ok(r.reply, r.state, worker_id, checkpoint_id),
{
    let next = if !passed {
        CheckpointState::AuthFailed
    } else if state == CheckpointState::WaitForRfid {
        CheckpointState::WaitForFingerprint
    } else {
        CheckpointState::AuthSuccessful
    };
    if next == CheckpointState::WaitForFingerprint {
        let reply = CheckpointReply {
            status: owned("success"),
            checkpoint_id: checkpoint_id,
            worker_id: Some(worker_id),
            fingerprint: None,
            data: None,
            auth_response: Some(CheckpointState::WaitForFingerprint),
            rfid_ver: Some(true),
        };
        AuthStep { reply, state: next, hold: false, state_after: next }
    } else {
        AuthStep {
            reply: CheckpointReply::auth_reply(next),
            state: next,
            hold: true,
            state_after: CheckpointState::WaitForRfid,
        }
    }
}

/// A checkpoint never gets stuck: after every check it rests in a state
/// that accepts the next request.
pub proof fn lemma_always_accepts_next(state: CheckpointState, passed: bool)
    requires
        check_spec(state) is Some,
    ensures
        check_spec(resting(after_check(state, passed))) is Some,
{
}

/// Access is granted only by a passed fingerprint check, and the
/// fingerprint is asked for only after a passed card check: a checkpoint
/// that rests waiting for a card needs both factors, in that order.
pub proof fn lemma_success_needs_both_factors(state: CheckpointState, passed: bool)
    requires
        check_spec(state) is Some,
    ensures
        after_check(state, passed) == CheckpointState::AuthSuccessful ==> state
            == CheckpointState::WaitForFingerprint && passed,
        resting(after_check(state, passed)) == CheckpointState::WaitForFingerprint ==> state
            == CheckpointState::WaitForRfid && passed,
        after_check(CheckpointState::WaitForRfid, passed) != CheckpointState::AuthSuccessful,
{
}

// ---------------------------------------------------------------------
// Fingerprint timeout
// ---------------------------------------------------------------------
/// How long a checkpoint waits for a fingerprint, in nanoseconds.
pub open spec fn fingerprint_timeout_ns() -> int {
    15_000_000_000
}

/// What the port server remembers between two polls of a checkpoint: the
/// state it saw last, and when the checkpoint started waiting for a fingerprint.
#[derive(Clone, Copy, Debug)]
pub struct TimeoutTracker {
    pub previous_state: CheckpointState,
    pub since_ns: u128,
}

/// What one poll does: the tracker afterwards, and whether the checkpoint
/// timed out.
pub open spec fn poll_spec(t: TimeoutTracker, state: Option<CheckpointState>, now_ns: u128) -> (TimeoutTracker, bool) {
    match state {
        None => (t, false),
        Some(s) => {
            let since = if s == CheckpointState::WaitForFingerprint && t.previous_state
                != CheckpointState::WaitForFingerprint {
                now_ns
            } else {
                t.since_ns
            };
            let timed_out = s == CheckpointState::WaitForFingerprint && now_ns - since > fingerprint_timeout_ns();
            (
                TimeoutTracker {
                    previous_state: if timed_out { CheckpointState::WaitForRfid } else { s },
                    since_ns: since,
                },
                timed_out,
            )
        },
    }
}

/// A checkpoint that starts waiting for a fingerprint at `start` and is
/// polled again at `later` times out then exactly when more than fifteen
/// seconds have passed; a timed-out checkpoint is tracked as waiting for a
/// card.
pub proof fn lemma_fingerprint_timeout(t: TimeoutTracker, start: u128, later: u128)
    requires
        t.previous_state != CheckpointState::WaitForFingerprint,
        start <= later,
    ensures
        !poll_spec(t, Some(CheckpointState::WaitForFingerprint), start).1,
        poll_spec(poll_spec(t, Some(CheckpointState::WaitForFingerprint), start).0, Some(CheckpointState::WaitForFingerprint), later).1
            == (later - start > fingerprint_timeout_ns()),
        poll_spec(poll_spec(t, Some(CheckpointState::WaitForFingerprint), start).0, Some(CheckpointState::WaitForFingerprint), later).1
            ==> poll_spec(poll_spec(t, Some(CheckpointState::WaitForFingerprint), start).0, Some(CheckpointState::WaitForFingerprint), later).0.previous_state
            == CheckpointState::WaitForRfid,
{
}

impl TimeoutTracker {
    /// Tracking starts at `now_ns`, as if the checkpoint waited for a card.
    pub fn new(now_ns: u128) -> (r: TimeoutTracker)
        ensures
            r.previous_state == CheckpointState::WaitForRfid,
            r.since_ns == now_ns,
    {
        TimeoutTracker { previous_state: CheckpointState::WaitForRfid, since_ns: now_ns }
    }

    /// One poll at `now_ns` of a checkpoint in `state` (None when it is
    /// gone): whether it has waited too long for its fingerprint, in which
    /// case the caller puts it back to waiting for a card.
    pub fn poll(&mut self, state: Option<CheckpointState>, now_ns: u128) -> (timed_out: bool)
        requires
            old(self).since_ns <= now_ns,
        ensures
            (*final(self), timed_out) == poll_spec(*old(self), state, now_ns),
            final(self).since_ns == (if state == Some(CheckpointState::WaitForFingerprint) && old(self).previous_state
                != CheckpointState::WaitForFingerprint { now_ns } else { old(self).since_ns }),
            timed_out == (state == Some(CheckpointState::WaitForFingerprint) && now_ns - final(self).since_ns
                > fingerprint_timeout_ns()),
            final(self).previous_state == (match state {
                Some(s) => if timed_out { CheckpointState::WaitForRfid } else { s },
                None => old(self).previous_state,
            }),
            final(self).since_ns <= now_ns,
    {
        match state {
            None => false,
            Some(s) => {
                if s == CheckpointState::WaitForFingerprint && self.previous_state != CheckpointState::WaitForFingerprint {
                    self.since_ns = now_ns;
                }
                let timed_out = s == CheckpointState::WaitForFingerprint && now_ns - self.since_ns > 15_000_000_000;
                self.previous_state = if timed_out { CheckpointState::WaitForRfid } else { s };
                timed_out
            },
        }
    }
}

// ---------------------------------------------------------------------
// Administrative requests relayed to the central database
// ---------------------------------------------------------------------
/// A change that the port server makes to its own records.
#[derive(Clone, Copy, Debug, PartialEq, Eq, Structural)]
pub enum LocalChange {
    Delete { worker_id: u32 },
    Update { worker_id: u32 },
}

/// What to do after the central database answered an administrative request.
pub enum DatabasePlan {
    Reply(DatabaseReply),
    Local(LocalChange),
}

pub open spec fn is_error_reply(r: DatabaseReply) -> bool {
    r.status@ == "error"@ && r.is_bare()
}

pub open spec fn is_init_reply(r: DatabaseReply, checkpoint_id: u32) -> bool {
    r.status@ == "success"@ && r.checkpoint_id == Some(checkpoint_id) && (DatabaseReply { checkpoint_id: None, ..r }).is_bare()
}

pub open spec fn checkpoint_or_zero(c: Option<u32>) -> u32 {
    match c {
        Some(x) => x,
        None => 0,
    }
}

pub fn plan_database_reply(request: &DatabaseRequest, db_reply: &DatabaseReply) -> (r: Result<DatabasePlan, String>)
    requires
        db_reply.status@ == "success"@ && command_of(request.command@) == Command::Enroll ==> db_reply.worker_id is Some,
    ensures
        db_reply.status@ != "success"@ ==> (r matches Ok(DatabasePlan::Reply(x)) && is_error_reply(x)),
        db_reply.status@ == "success"@ ==> match command_of(request.command@) {
            Command::Enroll => r matches Ok(DatabasePlan::Reply(x)) && x.status@ == "success"@
                && x.worker_id == db_reply.worker_id && (DatabaseReply { worker_id: None, ..x }).is_bare(),
            Command::Delete => match request.worker_id {
                Some(w) => r matches Ok(DatabasePlan::Local(c)) && c == LocalChange::Delete { worker_id: w },
                None => r matches Err(e) && e@ == "Worker ID is missing in the request"@,
            },
            Command::Update => match (request.worker_id, request.role_id, request.location) {
                (None, _, _) => r matches Err(e) && e@ == "Worker ID is missing in the request"@,
                (Some(_), None, _) => r matches Err(e) && e@ == "Role ID is missing in the request"@,
                (Some(_), Some(_), None) => r matches Err(e) && e@ == "Allowed locations are missing in the request"@,
                (Some(w), Some(_), Some(_)) => r matches Ok(DatabasePlan::Local(c)) && c == LocalChange::Update { worker_id: w },
            },
            _ => r matches Ok(DatabasePlan::Reply(x)) && is_init_reply(x, checkpoint_or_zero(request.checkpoint_id)),
        },
{
    if !text_eq(db_reply.status.as_str(), "success") {
        return Ok(DatabasePlan::Reply(DatabaseReply::error()));
    }
    match Command::from_text(request.command.as_str()) {
        Command::Enroll => {
            let w = match db_reply.worker_id {
                Some(w) => w,
                None => 0,
            };
            Ok(DatabasePlan::Reply(DatabaseReply::success(w)))
        },
        Command::Delete => match request.worker_id {
            Some(w) => Ok(DatabasePlan::Local(LocalChange::Delete { worker_id: w })),
            None => Err(owned("Worker ID is missing in the request")),
        },
        Command::Update => {
            let w = match request.worker_id {
                Some(w) => w,
                None => {
                    return Err(owned("Worker ID is missing in the request"));
                },
            };
            if request.role_id.is_none() {
                return Err(owned("Role ID is missing in the request"));
            }
            if request.location.is_none() {
                return Err(owned("Allowed locations are missing in the request"));
            }
            Ok(DatabasePlan::Local(LocalChange::Update { worker_id: w }))
        },
        _ => {
            let c = match request.checkpoint_id {
                Some(c) => c,
                None => 0,
            };
            Ok(DatabasePlan::Reply(DatabaseReply::init_reply(c)))
        },
    }
}

/// The reply after a local change: it succeeds when the worker was known
/// here and the change was made.
pub fn reply_after_local_change(request: &DatabaseRequest, known: bool, changed: bool) -> (r: DatabaseReply)
    ensures
        known && changed ==> is_init_reply(r, checkpoint_or_zero(request.checkpoint_id)),
        !(known && changed) ==> is_error_reply(r),
{
    if known && changed {
        let c = match request.checkpoint_id {
            Some(c) => c,
            None => 0,
        };
        DatabaseReply::init_reply(c)
    } else {
        DatabaseReply::error()
    }
}

/// A checkpoint's registration needs its location and the roles it admits.
pub fn init_request_fields(request: &DatabaseRequest) -> (r: Result<(String, String), String>)
    ensures
        match (request.location, request.authorized_roles) {
            (Some(l), Some(a)) => r matches Ok((x, y)) && x == l && y == a,
            (None, _) => r matches Err(e) && e@ == "Location is missing in request"@,
            (Some(_), None) => r matches Err(e) && e@ == "Allowed roles are missing in request"@,
        },
{
    match (&request.location, &request.authorized_roles) {
        (Some(l), Some(a)) => Ok((l.clone(), a.clone())),
        (None, _) => Err(owned("Location is missing in request")),
        (Some(_), None) => Err(owned("Allowed roles are missing in request")),
    }
}

/// The central answer to a registration: an error is passed on (None), a
/// success must carry the checkpoint's identifier.
pub fn registration_outcome(db_reply: &DatabaseReply) -> (r: Result<Option<u32>, String>)
    ensures
        db_reply.status@ != "success"@ ==> r == Ok::<Option<u32>, String>(None),
        db_reply.status@ == "success"@ ==> match db_reply.checkpoint_id {
            Some(c) => r == Ok::<Option<u32>, String>(Some(c)),
            None => r matches Err(e) && e@ == "Central database didn't return a checkpoint ID"@,
        },
{
    if !text_eq(db_reply.status.as_str(), "success") {
        return Ok(None);
    }
    match db_reply.checkpoint_id {
        Some(c) => Ok(Some(c)),
        None => Err(owned("Central database didn't return a checkpoint ID")),
    }
}

// ---------------------------------------------------------------------
// The audit log
// ---------------------------------------------------------------------
pub open spec fn opt_u64(v: Option<u64>) -> Option<int> {
    match v {
        Some(x) => Some(x as int),
        None => None,
    }
}

pub open spec fn opt_u32(v: Option<u32>) -> Option<int> {
    match v {
        Some(x) => Some(x as int),
        None => None,
    }
}

pub open spec fn log_entry_spec(
    timestamp: Seq<char>,
    worker_id: Option<u64>,
    checkpoint_id: Option<u32>,
    method: Seq<char>,
    status: Seq<char>,
) -> Seq<char> {
    "["@ + timestamp + "] Worker ID: "@ + option_text(opt_u64(worker_id)) + ", Checkpoint ID: "@
        + option_text(opt_u32(checkpoint_id)) + ", Method: "@ + method + ", Status: "@ + status + "\n"@
}

/// One entry of the audit log.
pub fn log_entry(timestamp: &str, worker_id: Option<u64>, checkpoint_id: Option<u32>, method: &str, status: &str) -> (r: String)
    ensures
        r@ == log_entry_spec(timestamp@, worker_id, checkpoint_id, method@, status@),
{
    let mut s = owned("[");
    push_str(&mut s, timestamp);
    push_str(&mut s, "] Worker ID: ");
    push_option_u64(&mut s, worker_id);
    push_str(&mut s, ", Checkpoint ID: ");
    let c: Option<u64> = match checkpoint_id {
        Some(x) => Some(x as u64),
        None => None,
    };
    push_option_u64(&mut s, c);
    push_str(&mut s, ", Method: ");
    push_str(&mut s, method);
    push_str(&mut s, ", Status: ");
    push_str(&mut s, status);
    push_str(&mut s, "\n");
    s
}

pub open spec fn or_zero_u64(v: Option<u64>) -> int {
    match v {
        Some(x) => x as int,
        None => 0,
    }
}

pub open spec fn log_console_spec(worker_id: Option<u64>, checkpoint_id: Option<u32>, method: Seq<char>, status: Seq<char>) -> Option<Seq<char>> {
    let w = int_text(or_zero_u64(worker_id));
    let c = int_text(checkpoint_or_zero(checkpoint_id) as int);
    if method == "RFID"@ || method == "Fingerprint"@ {
        if status == "Successful"@ {
            Some("[LOG] Authentication success: Worker "@ + w + " at Checkpoint "@ + c)
        } else {
            Some("[LOG] Authentication failed: Worker "@ + w + " at Checkpoint "@ + c)
        }
    } else if method == "RoleChange"@ {
        Some("[LOG] Role changed for Worker "@ + w + " to "@ + status)
    } else if method == "AdminAuth"@ {
        Some("[LOG] Admin authenticated: "@ + w)
    } else {
        None
    }
}

/// The console line that accompanies a log entry, if any.
pub fn log_console(worker_id: Option<u64>, checkpoint_id: Option<u32>, method: &str, status: &str) -> (r: Option<String>)
    ensures
        match log_console_spec(worker_id, checkpoint_id, method@, status@) {
            Some(t) => r matches Some(x) && x@ == t,
            None => r is None,
        },
{
    let w: u64 = match worker_id {
        Some(x) => x,
        None => 0,
    };
    let c: u64 = match checkpoint_id {
        Some(x) => x as u64,
        None => 0,
    };
    if text_eq(method, "RFID") || text_eq(method, "Fingerprint") {
        let mut s = if text_eq(status, "Successful") {
            owned("[LOG] Authentication success: Worker ")
        } else {
            owned("[LOG] Authentication failed: Worker ")
        };
        push_u64(&mut s, w);
        push_str(&mut s, " at Checkpoint ");
        push_u64(&mut s, c);
        Some(s)
    } else if text_eq(method, "RoleChange") {
        let mut s = owned("[LOG] Role changed for Worker ");
        push_u64(&mut s, w);
        push_str(&mut s, " to ");
        push_str(&mut s, status);
        Some(s)
    } else if text_eq(method, "AdminAuth") {
        let mut s = owned("[LOG] Admin authenticated: ");
        push_u64(&mut s, w);
        Some(s)
    } else {
        None
    }
}

// ---------------------------------------------------------------------
// Requests from checkpoints
// ---------------------------------------------------------------------
/// The text of a request as a checkpoint sends it: UTF-8, without trailing
/// NUL characters and surrounding whitespace; `None` where the bytes are
/// not UTF-8.
pub fn parse_request(buffer: Vec<u8>) -> (r: Option<String>)
    ensures
        r is Some <==> valid_utf8(buffer@),
        r matches Some(s) ==> s@ == trim(trim_end_char(decode_utf8(buffer@), '\0')),
{
    match utf8_text(buffer) {
        Some(s) => {
            let t = trim_end_matching(s.as_str(), '\0');
            Some(trim_text(t.as_str()))
        },
        None => None,
    }
}

} // verus!
