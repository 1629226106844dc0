//! The messages exchanged between checkpoints, port servers and the central
//! database, and the roles of role-based access.
use vstd::prelude::*;
use crate::text::{ascii_lower, ascii_upper, ascii_uppercase, eq_ignore_ascii_case, equal_ignore_ascii_case, owned, text_eq};

verus! {

// ---------------------------------------------------------------------
// Roles
// ---------------------------------------------------------------------
/// The roles, by identifier.
pub open spec fn role_names() -> Seq<Seq<char>> {
    seq!["Admin"@, "Worker"@, "Manager"@, "Security"@]
}

/// The role names, by identifier.
pub fn role_table() -> (r: Vec<&'static str>)
    ensures
        r@.len() == 4,
        forall|i: int| 0 <= i < 4 ==> (#[trigger] r@[i])@ == role_names()[i],
{
    vec!["Admin", "Worker", "Manager", "Security"]
}

/// Each role's name identifies it: no other role's name matches it, ASCII
/// case ignored, so looking a role's name up gives the role back.
pub proof fn lemma_role_names_identify(i: int)
    requires
        0 <= i < 4,
    ensures
        eq_ignore_ascii_case(role_names()[i], role_names()[i]),
        forall|j: int| 0 <= j < 4 && j != i ==> !eq_ignore_ascii_case(#[trigger] role_names()[j], role_names()[i]),
{
    reveal_strlit("Admin");
    reveal_strlit("Worker");
    reveal_strlit("Manager");
    reveal_strlit("Security");
}

/// A role's name, in any ASCII case, names that role and no other: the
/// lookup `Role::from_str` makes of such a text gives the role back. This
/// holds of the name in ASCII upper case too.
pub proof fn lemma_role_lookup(i: int, text: Seq<char>)
    requires
        0 <= i < 4,
        eq_ignore_ascii_case(role_names()[i], text),
    ensures
        forall|j: int| 0 <= j < 4 ==> (eq_ignore_ascii_case(#[trigger] role_names()[j], text) <==> j == i),
        eq_ignore_ascii_case(role_names()[i], ascii_uppercase(role_names()[i])),
{
    lemma_role_names_identify(i);
    assert forall|j: int| 0 <= j < 4 && eq_ignore_ascii_case(#[trigger] role_names()[j], text) implies j == i by {
        assert(eq_ignore_ascii_case(role_names()[j], role_names()[i])) by {
            assert forall|k: int| 0 <= k < role_names()[j].len() implies ascii_lower(#[trigger] role_names()[j][k])
                == ascii_lower(role_names()[i][k]) by {
                assert(ascii_lower(role_names()[j][k]) == ascii_lower(text[k]));
                assert(ascii_lower(role_names()[i][k]) == ascii_lower(text[k]));
            }
        }
    }
    let name = role_names()[i];
    assert forall|k: int| 0 <= k < name.len() implies ascii_lower(#[trigger] name[k]) == ascii_lower(
        ascii_uppercase(name)[k],
    ) by {
        let c = name[k];
        assert(ascii_uppercase(name)[k] == ascii_upper(c));
    }
}

/// Role-based access: the roles are Admin (0), Worker (1), Manager (2) and Security (3).
#[derive(Debug, PartialEq, Eq, Structural)]
pub struct Role;

impl Role {
    /// The identifier of the first role named `role`, ASCII case ignored.
    pub fn from_str(role: &str) -> (r: Option<usize>)
        ensures
            match r {
                Some(i) => i < 4 && eq_ignore_ascii_case(role_names()[i as int], role@) && forall|j: int|
                    0 <= j < i ==> !eq_ignore_ascii_case(#[trigger] role_names()[j], role@),
                None => forall|j: int| 0 <= j < 4 ==> !eq_ignore_ascii_case(#[trigger] role_names()[j], role@),
            },
    {
        let table = role_table();
        let mut i: usize = 0;
        while i < table.len()
            invariant
                table@.len() == 4,
                forall|k: int| 0 <= k < 4 ==> (#[trigger] table@[k])@ == role_names()[k],
                i <= 4,
                forall|j: int| 0 <= j < i ==> !eq_ignore_ascii_case(#[trigger] role_names()[j], role@),
            decreases 4 - i,
        {
            if equal_ignore_ascii_case(table[i], role) {
                return Some(i);
            }
            i = i + 1;
        }
        None
    }

    /// The name of role `id`, if there is such a role.
    pub fn as_str(id: usize) -> (r: Option<&'static str>)
        ensures
            id < 4 ==> (r matches Some(name) && name@ == role_names()[id as int]),
            id >= 4 ==> r is None,
    {
        let table = role_table();
        if id < table.len() {
            Some(table[id])
        } else {
            None
        }
    }

    /// All role names, by identifier.
    pub fn all_roles() -> (r: Vec<&'static str>)
        ensures
            r@.len() == 4,
            forall|i: int| 0 <= i < 4 ==> (#[trigger] r@[i])@ == role_names()[i],
    {
        role_table()
    }
}

// ---------------------------------------------------------------------
// Checkpoint <-> port server
// ---------------------------------------------------------------------
/// Where a checkpoint's two-factor authentication stands.
#[derive(Clone, Copy, Debug, PartialEq, Eq, Structural)]
pub enum CheckpointState {
    WaitForRfid,
    WaitForFingerprint,
    AuthSuccessful,
    AuthFailed,
}

/// A port server's answer to a checkpoint.
#[derive(Clone, Debug)]
pub struct CheckpointReply {
    pub status: String,
    pub checkpoint_id: Option<u32>,
    pub worker_id: Option<u32>,
    pub fingerprint: Option<String>,
    pub data: Option<String>,
    pub auth_response: Option<CheckpointState>,
    pub rfid_ver: Option<bool>,
}

/// A checkpoint's request to its port server.
#[derive(Clone, Debug)]
pub struct CheckpointRequest {
    pub command: String,
    pub checkpoint_id: Option<u32>,
    pub worker_id: Option<u32>,
    pub worker_fingerprint: Option<String>,
    pub location: Option<String>,
    pub authorized_roles: Option<String>,
    pub role_id: Option<u32>,
    pub worker_name: Option<String>,
}

pub open spec fn opt_view(s: Option<String>) -> Option<Seq<char>> {
    match s {
        Some(x) => Some(x@),
        None => None,
    }
}

impl CheckpointRequest {
    /// Registers a checkpoint at `location` admitting `authorized_roles`.
    pub fn init_request(location: String, authorized_roles: String) -> (r: CheckpointRequest)
        ensures
            r.command@ == "INIT_REQUEST"@,
            r.checkpoint_id is None,
            r.worker_id is None,
            r.worker_fingerprint is None,
            r.location == Some(location),
            r.authorized_roles == Some(authorized_roles),
            r.role_id is None,
            r.worker_name is None,
    {
        CheckpointRequest {
            command: owned("INIT_REQUEST"),
            checkpoint_id: None,
            worker_id: None,
            worker_fingerprint: None,
            location: Some(location),
            authorized_roles: Some(authorized_roles),
            role_id: None,
            worker_name: None,
        }
    }

    /// First factor: a worker's card was read at a checkpoint.
    pub fn rfid_auth_request(checkpoint_id: u32, worker_id: u32) -> (r: CheckpointRequest)
        ensures
            r.command@ == "AUTHENTICATE"@,
            r.checkpoint_id == Some(checkpoint_id),
            r.worker_id == Some(worker_id),
            r.worker_fingerprint matches Some(f) && f@ == "dummy hash"@,
            r.location is None,
            r.authorized_roles is None,
            r.role_id is None,
            r.worker_name is None,
    {
        CheckpointRequest {
            command: owned("AUTHENTICATE"),
            checkpoint_id: Some(checkpoint_id),
            worker_id: Some(worker_id),
            worker_fingerprint: Some(owned("dummy hash")),
            location: None,
            authorized_roles: None,
            role_id: None,
            worker_name: None,
        }
    }

    /// Second factor: a worker's fingerprint was scanned at a checkpoint.
    pub fn fingerprint_auth_req(checkpoint_id: u32, worker_id: u32, worker_fingerprint: String) -> (r: CheckpointRequest)
        ensures
            r.command@ == "AUTHENTICATE"@,
            r.checkpoint_id == Some(checkpoint_id),
            r.worker_id == Some(worker_id),
            r.worker_fingerprint == Some(worker_fingerprint),
            r.location is None,
            r.authorized_roles is None,
            r.role_id is None,
            r.worker_name is None,
    {
        CheckpointRequest {
            command: owned("AUTHENTICATE"),
            checkpoint_id: Some(checkpoint_id),
            worker_id: Some(worker_id),
            worker_fingerprint: Some(worker_fingerprint),
            location: None,
            authorized_roles: None,
            role_id: None,
            worker_name: None,
        }
    }

    /// Enrolls a new worker.
    pub fn enroll_req(
        checkpoint_id: u32,
        worker_name: String,
        worker_fingerprint: String,
        location: String,
        role_id: u32,
    ) -> (r: CheckpointRequest)
        ensures
            r.command@ == "ENROLL"@,
            r.checkpoint_id == Some(checkpoint_id),
            r.worker_id is None,
            r.worker_fingerprint == Some(worker_fingerprint),
            r.location == Some(location),
            r.authorized_roles is None,
            r.role_id == Some(role_id),
            r.worker_name == Some(worker_name),
    {
        CheckpointRequest {
            command: owned("ENROLL"),
            checkpoint_id: Some(checkpoint_id),
            worker_id: None,
            worker_fingerprint: Some(worker_fingerprint),
            location: Some(location),
            authorized_roles: None,
            role_id: Some(role_id),
            worker_name: Some(worker_name),
        }
    }

    /// Changes a worker's role and allowed locations.
    pub fn update_req(checkpoint_id: u32, worker_id: u32, new_role_id: u32, new_location: String) -> (r: CheckpointRequest)
        ensures
            r.command@ == "UPDATE"@,
            r.checkpoint_id == Some(checkpoint_id),
            r.worker_id == Some(worker_id),
            r.worker_fingerprint is None,
            r.location == Some(new_location),
            r.authorized_roles is None,
            r.role_id == Some(new_role_id),
            r.worker_name is None,
    {
        CheckpointRequest {
            command: owned("UPDATE"),
            checkpoint_id: Some(checkpoint_id),
            worker_id: Some(worker_id),
            worker_fingerprint: None,
            location: Some(new_location),
            authorized_roles: None,
            role_id: Some(new_role_id),
            worker_name: None,
        }
    }

    /// Removes a worker.
    pub fn delete_req(checkpoint_id: u32, worker_id: u32) -> (r: CheckpointRequest)
        ensures
            r.command@ == "DELETE"@,
            r.checkpoint_id == Some(checkpoint_id),
            r.worker_id == Some(worker_id),
            r.worker_fingerprint is None,
            r.location is None,
            r.authorized_roles is None,
            r.role_id is None,
            r.worker_name is None,
    {
        CheckpointRequest {
            command: owned("DELETE"),
            checkpoint_id: Some(checkpoint_id),
            worker_id: Some(worker_id),
            worker_fingerprint: None,
            location: None,
            authorized_roles: None,
            role_id: None,
            worker_name: None,
        }
    }
}

impl CheckpointReply {
    /// The reply that reports a failure.
    pub fn error() -> (r: CheckpointReply)
        ensures
            r.status@ == "error"@,
            r.checkpoint_id is None,
            r.worker_id is None,
            r.fingerprint is None,
            r.data is None,
            r.auth_response is None,
            r.rfid_ver == Some(false),
    {
        CheckpointReply {
            status: owned("error"),
            checkpoint_id: None,
            worker_id: None,
            fingerprint: None,
            data: None,
            auth_response: None,
            rfid_ver: Some(false),
        }
    }

    /// The outcome of an authentication step.
    pub fn auth_reply(state: CheckpointState) -> (r: CheckpointReply)
        ensures
            r.status@ == "success"@,
            r.checkpoint_id is None,
            r.worker_id is None,
            r.fingerprint is None,
            r.data is None,
            r.auth_response == Some(state),
            r.rfid_ver == Some(true),
    {
        CheckpointReply {
            status: owned("success"),
            checkpoint_id: None,
            worker_id: None,
            fingerprint: None,
            data: None,
            auth_response: Some(state),
            rfid_ver: Some(true),
        }
    }

    /// The reply to a request that waits for a second administrator.
    pub fn waiting() -> (r: CheckpointReply)
        ensures
            r.status@ == "waiting"@,
            r.checkpoint_id is None,
            r.worker_id is None,
            r.fingerprint is None,
            r.data is None,
            r.auth_response is None,
            r.rfid_ver is None,
    {
        CheckpointReply {
            status: owned("waiting"),
            checkpoint_id: None,
            worker_id: None,
            fingerprint: None,
            data: None,
            auth_response: None,
            rfid_ver: None,
        }
    }
}

// ---------------------------------------------------------------------
// Port server <-> central database
// ---------------------------------------------------------------------
/// A port server's request to the central database.
#[derive(Clone, Debug)]
pub struct DatabaseRequest {
    pub command: String,
    pub checkpoint_id: Option<u32>,
    pub worker_id: Option<u32>,
    pub rfid_data: Option<u32>,
    pub worker_name: Option<String>,
    pub worker_fingerprint: Option<String>,
    pub location: Option<String>,
    pub authorized_roles: Option<String>,
    pub role_id: Option<u32>,
    pub encrypted_aes_key: Option<String>,
    pub encrypted_iv: Option<String>,
    pub public_key: Option<String>,
}

/// The central database's answer.
#[derive(Clone, Debug)]
pub struct DatabaseReply {
    pub status: String,
    pub checkpoint_id: Option<u32>,
    pub worker_id: Option<u32>,
    pub rfid_data: Option<u32>,
    pub worker_fingerprint: Option<String>,
    pub role_id: Option<u32>,
    pub authorized_roles: Option<String>,
    pub location: Option<String>,
    pub auth_response: Option<CheckpointState>,
    pub allowed_locations: Option<String>,
    pub worker_name: Option<String>,
    pub encrypted_aes_key: Option<String>,
    pub encrypted_iv: Option<String>,
    pub public_key: Option<String>,
}

impl DatabaseRequest {
    /// A request with the command and nothing else.
    pub fn bare(command: &str) -> (r: DatabaseRequest)
        ensures
            r.command@ == command@,
            r.is_bare(),
    {
        DatabaseRequest {
            command: owned(command),
            checkpoint_id: None,
            worker_id: None,
            rfid_data: None,
            worker_name: None,
            worker_fingerprint: None,
            location: None,
            authorized_roles: None,
            role_id: None,
            encrypted_aes_key: None,
            encrypted_iv: None,
            public_key: None,
        }
    }

    pub open spec fn is_bare(&self) -> bool {
        &&& self.checkpoint_id is None
        &&& self.worker_id is None
        &&& self.rfid_data is None
        &&& self.worker_name is None
        &&& self.worker_fingerprint is None
        &&& self.location is None
        &&& self.authorized_roles is None
        &&& self.role_id is None
        &&& self.encrypted_aes_key is None
        &&& self.encrypted_iv is None
        &&& self.public_key is None
    }
}

impl DatabaseReply {
    /// Whether every field but the status is empty.
    pub open spec fn is_bare(&self) -> bool {
        &&& self.checkpoint_id is None
        &&& self.worker_id is None
        &&& self.rfid_data is None
        &&& self.worker_fingerprint is None
        &&& self.role_id is None
        &&& self.authorized_roles is None
        &&& self.location is None
        &&& self.auth_response is None
        &&& self.allowed_locations is None
        &&& self.worker_name is None
        &&& self.encrypted_aes_key is None
        &&& self.encrypted_iv is None
        &&& self.public_key is None
    }

    fn bare(status: &str) -> (r: DatabaseReply)
        ensures
            r.status@ == status@,
            r.is_bare(),
    {
        DatabaseReply {
            status: owned(status),
            checkpoint_id: None,
            worker_id: None,
            rfid_data: None,
            worker_fingerprint: None,
            role_id: None,
            authorized_roles: None,
            location: None,
            auth_response: None,
            allowed_locations: None,
            worker_name: None,
            encrypted_aes_key: None,
            encrypted_iv: None,
            public_key: None,
        }
    }

    /// Success, naming a worker.
    pub fn success(worker_id: u32) -> (r: DatabaseReply)
        ensures
            r.status@ == "success"@,
            r.worker_id == Some(worker_id),
            (DatabaseReply { worker_id: None, ..r }).is_bare(),
    {
        let mut r = DatabaseReply::bare("success");
        r.worker_id = Some(worker_id);
        r
    }

    /// Success of an update, with the worker's new locations and role.
    pub fn update_success(allowed_locations: String, role_id: u32) -> (r: DatabaseReply)
        ensures
            r.status@ == "success"@,
            r.allowed_locations == Some(allowed_locations),
            r.role_id == Some(role_id),
            (DatabaseReply { allowed_locations: None, role_id: None, ..r }).is_bare(),
    {
        let mut r = DatabaseReply::bare("success");
        r.allowed_locations = Some(allowed_locations);
        r.role_id = Some(role_id);
        r
    }

    /// Failure.
    pub fn error() -> (r: DatabaseReply)
        ensures
            r.status@ == "error"@,
            r.is_bare(),
    {
        DatabaseReply::bare("error")
    }

    /// What the central database knows of a worker at a checkpoint.
    pub fn auth_reply(
        checkpoint_id: u32,
        worker_id: u32,
        worker_fingerprint: String,
        role_id: u32,
        authorized_roles: String,
        location: String,
        allowed_locations: String,
        worker_name: String,
    ) -> (r: DatabaseReply)
        ensures
            r.status@ == "success"@,
            r.checkpoint_id == Some(checkpoint_id),
            r.worker_id == Some(worker_id),
            r.worker_fingerprint == Some(worker_fingerprint),
            r.role_id == Some(role_id),
            r.authorized_roles == Some(authorized_roles),
            r.location == Some(location),
            r.allowed_locations == Some(allowed_locations),
            r.worker_name == Some(worker_name),
            r.rfid_data is None,
            r.auth_response is None,
            r.encrypted_aes_key is None,
            r.encrypted_iv is None,
            r.public_key is None,
    {
        let mut r = DatabaseReply::bare("success");
        r.checkpoint_id = Some(checkpoint_id);
        r.worker_id = Some(worker_id);
        r.worker_fingerprint = Some(worker_fingerprint);
        r.role_id = Some(role_id);
        r.authorized_roles = Some(authorized_roles);
        r.location = Some(location);
        r.allowed_locations = Some(allowed_locations);
        r.worker_name = Some(worker_name);
        r
    }

    /// A checkpoint's registration, with its identifier.
    pub fn init_reply(checkpoint_id: u32) -> (r: DatabaseReply)
        ensures
            r.status@ == "success"@,
            r.checkpoint_id == Some(checkpoint_id),
            (DatabaseReply { checkpoint_id: None, ..r }).is_bare(),
    {
        let mut r = DatabaseReply::bare("success");
        r.checkpoint_id = Some(checkpoint_id);
        r
    }

    /// The answer to a key exchange: the symmetric key and IV, each encrypted
    /// for the asking port server.
    pub fn key_exchange_reply(encrypted_aes_key: String, encrypted_iv: String) -> (r: DatabaseReply)
        ensures
            r.status@ == "success"@,
            r.encrypted_aes_key == Some(encrypted_aes_key),
            r.encrypted_iv == Some(encrypted_iv),
            (DatabaseReply { encrypted_aes_key: None, encrypted_iv: None, ..r }).is_bare(),
    {
        let mut r = DatabaseReply::bare("success");
        r.encrypted_aes_key = Some(encrypted_aes_key);
        r.encrypted_iv = Some(encrypted_iv);
        r
    }
}

// ---------------------------------------------------------------------
// Commands
// ---------------------------------------------------------------------
/// The commands that requests carry.
#[derive(Clone, Copy, Debug, PartialEq, Eq, Structural)]
pub enum Command {
    InitRequest,
    Authenticate,
    Enroll,
    Update,
    Delete,
    KeyExchange,
    Unknown,
}

pub open spec fn command_of(text: Seq<char>) -> Command {
    if text == "INIT_REQUEST"@ {
        Command::InitRequest
    } else if text == "AUTHENTICATE"@ {
        Command::Authenticate
    } else if text == "ENROLL"@ {
        Command::Enroll
    } else if text == "UPDATE"@ {
        Command::Update
    } else if text == "DELETE"@ {
        Command::Delete
    } else if text == "KEY_EXCHANGE"@ {
        Command::KeyExchange
    } else {
        Command::Unknown
    }
}

/// Each command text names its own command and no other text does: a
/// request's command is told by its text exactly, and distinct texts give
/// distinct commands.
pub proof fn lemma_command_texts(t: Seq<char>)
    ensures
        (command_of(t) == Command::InitRequest) == (t == "INIT_REQUEST"@),
        (command_of(t) == Command::Authenticate) == (t == "AUTHENTICATE"@),
        (command_of(t) == Command::Enroll) == (t == "ENROLL"@),
        (command_of(t) == Command::Update) == (t == "UPDATE"@),
        (command_of(t) == Command::Delete) == (t == "DELETE"@),
        (command_of(t) == Command::KeyExchange) == (t == "KEY_EXCHANGE"@),
        (command_of(t) == Command::Unknown) == (t != "INIT_REQUEST"@ && t != "AUTHENTICATE"@ && t != "ENROLL"@
            && t != "UPDATE"@ && t != "DELETE"@ && t != "KEY_EXCHANGE"@),
{
    reveal_strlit("INIT_REQUEST");
    reveal_strlit("AUTHENTICATE");
    reveal_strlit("ENROLL");
    reveal_strlit("UPDATE");
    reveal_strlit("DELETE");
    reveal_strlit("KEY_EXCHANGE");
    assert("INIT_REQUEST"@[0] == 'I');
    assert("AUTHENTICATE"@[0] == 'A');
    assert("ENROLL"@[0] == 'E');
    assert("UPDATE"@[0] == 'U');
    assert("DELETE"@[0] == 'D');
    assert("KEY_EXCHANGE"@[0] == 'K');
}

impl Command {
    /// The command a request's text names.
    pub fn from_text(text: &str) -> (r: Command)
        ensures
            r == command_of(text@),
    {
        if text_eq(text, "INIT_REQUEST") {
            Command::InitRequest
        } else if text_eq(text, "AUTHENTICATE") {
            Command::Authenticate
        } else if text_eq(text, "ENROLL") {
            Command::Enroll
        } else if text_eq(text, "UPDATE") {
            Command::Update
        } else if text_eq(text, "DELETE") {
            Command::Delete
        } else if text_eq(text, "KEY_EXCHANGE") {
            Command::KeyExchange
        } else {
            Command::Unknown
        }
    }
}

} // verus!
