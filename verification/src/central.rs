//! The central database's decisions: which work a port server's request
//! asks for, and what it is answered once the tables have been read or
//! written; and the key exchange that hands each port server the symmetric
//! key of their traffic.
use vstd::prelude::*;
use crate::codec::{base64_decoded, base64_encoded, hex_string, hex_text};
use crate::messages::{command_of, Command, DatabaseReply, DatabaseRequest};
use crate::poly::{generate_iv, generate_key, ints, max_abs, Poly};
use crate::rlwe::{params_ok, Parameters};
use crate::rlwe_text::{
    encrypt_string, is_encryption, key_a, key_b, key_fits, key_numbers, max_abs_of, plain_ascii, poly_of_range,
    text_poly,
};
use crate::text::parse_i64_list;

verus! {

/// The work a request asks of the central database.
#[derive(Debug)]
#[allow(inconsistent_fields)]
pub enum CentralAction {
    /// Register a checkpoint at a location for some roles.
    AddCheckpoint { location: Option<String>, authorized_roles: Option<String> },
    /// Look up what a worker may do at a checkpoint.
    Authenticate { checkpoint_id: Option<u32>, worker_id: u32 },
    /// Enroll a worker, unless one of the same name and role exists.
    Enroll {
        worker_name: Option<String>,
        worker_fingerprint: Option<String>,
        role_id: Option<u32>,
        location: Option<String>,
    },
    /// Change a worker's role and locations.
    Update { worker_id: Option<u32>, role_id: Option<u32>, location: Option<String> },
    /// Remove a worker.
    Delete { worker_id: Option<u32> },
    /// Hand out a fresh symmetric key, encrypted for this public key.
    KeyExchange { public_key: String },
    /// Nothing to do: the command is unknown.
    Reject,
}

/// The action for a request, by its command; an `AUTHENTICATE` needs a
/// worker and a `KEY_EXCHANGE` a public key.
pub fn central_action(req: &DatabaseRequest) -> (r: CentralAction)
    requires
        command_of(req.command@) == Command::Authenticate ==> req.worker_id is Some,
        command_of(req.command@) == Command::KeyExchange ==> req.public_key is Some,
    ensures
        match command_of(req.command@) {
            Command::InitRequest => r == (CentralAction::AddCheckpoint {
                location: req.location,
                authorized_roles: req.authorized_roles,
            }),
            Command::Authenticate => r == (CentralAction::Authenticate {
                checkpoint_id: req.checkpoint_id,
                worker_id: req.worker_id.unwrap(),
            }),
            Command::Enroll => r == (CentralAction::Enroll {
                worker_name: req.worker_name,
                worker_fingerprint: req.worker_fingerprint,
                role_id: req.role_id,
                location: req.location,
            }),
            Command::Update => r == (CentralAction::Update {
                worker_id: req.worker_id,
                role_id: req.role_id,
                location: req.location,
            }),
            Command::Delete => r == (CentralAction::Delete { worker_id: req.worker_id }),
            Command::KeyExchange => r == (CentralAction::KeyExchange { public_key: req.public_key.unwrap() }),
            Command::Unknown => r == CentralAction::Reject,
        },
{
    match Command::from_text(req.command.as_str()) {
        Command::InitRequest => CentralAction::AddCheckpoint {
            location: req.location.clone(),
            authorized_roles: req.authorized_roles.clone(),
        },
        Command::Authenticate => CentralAction::Authenticate {
            checkpoint_id: req.checkpoint_id,
            worker_id: match req.worker_id {
                Some(w) => w,
                None => 0,
            },
        },
        Command::Enroll => CentralAction::Enroll {
            worker_name: req.worker_name.clone(),
            worker_fingerprint: req.worker_fingerprint.clone(),
            role_id: req.role_id,
            location: req.location.clone(),
        },
        Command::Update => CentralAction::Update {
            worker_id: req.worker_id,
            role_id: req.role_id,
            location: req.location.clone(),
        },
        Command::Delete => CentralAction::Delete { worker_id: req.worker_id },
        Command::KeyExchange => CentralAction::KeyExchange {
            public_key: match &req.public_key {
                Some(k) => k.clone(),
                None => String::new(),
            },
        },
        Command::Unknown => CentralAction::Reject,
    }
}

/// The answer to a checkpoint's registration: its new row identifier (cut
/// to 32 bits) where the insertion succeeded, an error otherwise.
pub fn init_reply_for(inserted_row: Option<i64>) -> (r: DatabaseReply)
    ensures
        match inserted_row {
            Some(row) => r.status@ == "success"@ && r.checkpoint_id == Some(row as u32) && (DatabaseReply {
                checkpoint_id: None,
                ..r
            }).is_bare(),
            None => r.status@ == "error"@ && r.is_bare(),
        },
{
    match inserted_row {
        Some(row) => DatabaseReply::init_reply(#[verifier::truncate] (row as u32)),
        None => DatabaseReply::error(),
    }
}

/// What a lookup of a worker at a checkpoint found.
#[derive(Debug)]
pub struct WorkerRecord {
    pub fingerprint: String,
    pub allowed_locations: String,
    pub name: String,
    pub role_id: u32,
}

/// The answer to an authentication: an error unless the worker exists and
/// both the checkpoint and the worker were read; then what they hold.
pub fn authenticate_reply_for(
    checkpoint_id: Option<u32>,
    worker_id: u32,
    worker_exists: bool,
    checkpoint: Option<(String, String)>,
    worker: Option<WorkerRecord>,
) -> (r: DatabaseReply)
    ensures
        (worker_exists && checkpoint is Some && worker is Some) ==> {
            let (location, allowed_roles) = checkpoint.unwrap();
            let w = worker.unwrap();
            &&& r.status@ == "success"@
            &&& r.checkpoint_id == Some(match checkpoint_id {
                Some(c) => c,
                None => 0u32,
            })
            &&& r.worker_id == Some(worker_id)
            &&& r.worker_fingerprint == Some(w.fingerprint)
            &&& r.role_id == Some(w.role_id)
            &&& r.authorized_roles == Some(allowed_roles)
            &&& r.location == Some(location)
            &&& r.allowed_locations == Some(w.allowed_locations)
            &&& r.worker_name == Some(w.name)
        },
        !(worker_exists && checkpoint is Some && worker is Some) ==> r.status@ == "error"@ && r.is_bare(),
{
    if !worker_exists {
        return DatabaseReply::error();
    }
    match checkpoint {
        Some((location, allowed_roles)) => match worker {
            Some(w) => DatabaseReply::auth_reply(
                match checkpoint_id {
                    Some(c) => c,
                    None => 0,
                },
                worker_id,
                w.fingerprint,
                w.role_id,
                allowed_roles,
                location,
                w.allowed_locations,
                w.name,
            ),
            None => DatabaseReply::error(),
        },
        None => DatabaseReply::error(),
    }
}

/// The answer to an enrollment: an error where a worker of that name and
/// role already exists or the insertion failed; otherwise the new worker's
/// row identifier, cut to 32 bits.
pub fn enroll_reply_for(already_enrolled: bool, inserted_row: Option<i64>) -> (r: DatabaseReply)
    ensures
        (!already_enrolled && inserted_row is Some) ==> r.status@ == "success"@ && r.worker_id == Some(
            inserted_row.unwrap() as u32,
        ) && (DatabaseReply { worker_id: None, ..r }).is_bare(),
        (already_enrolled || inserted_row is None) ==> r.status@ == "error"@ && r.is_bare(),
{
    if already_enrolled {
        return DatabaseReply::error();
    }
    match inserted_row {
        Some(row) => DatabaseReply::success(#[verifier::truncate] (row as u32)),
        None => DatabaseReply::error(),
    }
}

/// The answer to an update: success with the new locations and role where
/// a row changed; an error where none did or the statement failed.
pub fn update_reply_for(affected: Option<usize>, location: Option<String>, role_id: Option<u32>) -> (r: DatabaseReply)
    requires
        (affected matches Some(a) && a > 0) ==> location is Some && role_id is Some,
    ensures
        (affected matches Some(a) && a > 0) ==> r.status@ == "success"@ && r.allowed_locations == location
            && r.role_id == role_id && (DatabaseReply { allowed_locations: None, role_id: None, ..r }).is_bare(),
        !(affected matches Some(a) && a > 0) ==> r.status@ == "error"@ && r.is_bare(),
{
    match affected {
        Some(a) => {
            if a > 0 {
                match (location, role_id) {
                    (Some(l), Some(id)) => DatabaseReply::update_success(l, id),
                    _ => DatabaseReply::error(),
                }
            } else {
                DatabaseReply::error()
            }
        },
        None => DatabaseReply::error(),
    }
}

/// The answer to a removal: success (naming worker 0) where a row went, an
/// error where none did or the statement failed.
pub fn delete_reply_for(affected: Option<usize>) -> (r: DatabaseReply)
    ensures
        (affected matches Some(a) && a > 0) ==> r.status@ == "success"@ && r.worker_id == Some(0u32) && (
        DatabaseReply { worker_id: None, ..r }).is_bare(),
        !(affected matches Some(a) && a > 0) ==> r.status@ == "error"@ && r.is_bare(),
{
    match affected {
        Some(a) => {
            if a > 0 {
                DatabaseReply::success(0)
            } else {
                DatabaseReply::error()
            }
        },
        None => DatabaseReply::error(),
    }
}

/// A key exchange's result: the reply for the port server, and the key and
/// IV the central database keeps, as hexadecimal text.
#[derive(Debug)]
pub struct KeyExchange {
    pub reply: DatabaseReply,
    pub aes_key_hex: String,
    pub iv_hex: String,
}

/// A public key text that `encrypt_string` can encrypt 32 and 16 bytes
/// under.
pub open spec fn public_key_usable(pk: Seq<char>, p: &Parameters) -> bool {
    &&& key_numbers(pk).len() >= p.n
    &&& key_fits(key_b(key_numbers(pk), p.n as int), key_a(key_numbers(pk), p.n as int), p)
}

/// Whether `(x.len() + n) * (x.len() * max_abs(x))` stays within 64 bits.
fn part_fits(x: &Poly, n: usize) -> (r: bool)
    ensures
        r == ((ints(x@).len() + n) * (ints(x@).len() * max_abs(ints(x@))) <= i64::MAX),
{
    let m = max_abs_of(x.coeffs()) as u128;
    let l = x.coeffs().len() as u128;
    assert(l * m <= 0xffff_ffff_ffff_ffffu128 * 0xffff_ffff_ffff_ffffu128) by (nonlinear_arith)
        requires
            l <= 0xffff_ffff_ffff_ffffu128,
            m <= 0xffff_ffff_ffff_ffffu128,
    ;
    let lm: u128 = l * m;
    match (l + n as u128).checked_mul(lm) {
        Some(total) => total <= 0x7fff_ffff_ffff_ffffu128,
        None => false,
    }
}

/// Whether a public key text is one `key_exchange_for` can encrypt under.
pub fn usable_public_key(pk: &String, params: &Parameters) -> (r: bool)
    ensures
        r == public_key_usable(pk@, params),
{
    let nums = parse_i64_list(pk.as_str());
    let n = params.n;
    if nums.len() < n {
        return false;
    }
    let b = poly_of_range(&nums, 0, n);
    let a = poly_of_range(&nums, n, nums.len());
    proof {
        assert(nums@.subrange(0, n as int) == nums@.take(n as int));
        assert(nums@.subrange(n as int, nums@.len() as int) == nums@.skip(n as int));
    }
    part_fits(&b, n) && part_fits(&a, n)
}

/// Draws a fresh AES key and IV, encrypts each for the port server's
/// public key, and keeps them as hexadecimal text.
pub fn key_exchange_for(public_key: &String, params: &Parameters) -> (r: KeyExchange)
    requires
        params_ok(params),
        public_key_usable(public_key@, params),
        (44 + params.n) * (params.q * params.q) <= i64::MAX,
    ensures
        exists|key: Seq<u8>, iv: Seq<u8>|
            {
                &&& key.len() == 32
                &&& iv.len() == 16
                &&& r.aes_key_hex@ == hex_text(key)
                &&& r.iv_hex@ == hex_text(iv)
                &&& r.reply.status@ == "success"@
                &&& (DatabaseReply { encrypted_aes_key: None, encrypted_iv: None, ..r.reply }).is_bare()
                &&& r.reply.encrypted_aes_key matches Some(k) && is_encryption(
                    k@,
                    key_b(key_numbers(public_key@), params.n as int),
                    key_a(key_numbers(public_key@), params.n as int),
                    text_poly(base64_encoded(key)),
                    params,
                )
                &&& r.reply.encrypted_iv matches Some(v) && is_encryption(
                    v@,
                    key_b(key_numbers(public_key@), params.n as int),
                    key_a(key_numbers(public_key@), params.n as int),
                    text_poly(base64_encoded(iv)),
                    params,
                )
                &&& plain_ascii(base64_encoded(key)) && base64_decoded(base64_encoded(key)) == Some(key)
                &&& plain_ascii(base64_encoded(iv)) && base64_decoded(base64_encoded(iv)) == Some(iv)
                &&& base64_encoded(key).len() == 44 && base64_encoded(iv).len() == 24
            },
{
    let aes_key = generate_key();
    let iv = generate_iv();
    let key_slice = aes_key.as_slice();
    let iv_slice = iv.as_slice();
    assert(crate::codec::base64_len(32) == 44);
    assert(crate::codec::base64_len(16) == 24);
    assert((24 + params.n) * (params.q * params.q) <= (44 + params.n) * (params.q * params.q)) by (nonlinear_arith)
        requires
            params.q * params.q >= 0,
    ;
    let encrypted_key = encrypt_string(public_key, key_slice, params, None);
    let encrypted_iv = encrypt_string(public_key, iv_slice, params, None);
    let reply = DatabaseReply::key_exchange_reply(encrypted_key, encrypted_iv);
    let aes_key_hex = hex_string(key_slice);
    let iv_hex = hex_string(iv_slice);
    KeyExchange { reply, aes_key_hex, iv_hex }
}

} // verus!
