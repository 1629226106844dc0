use rusqlite::Connection;
use twic::messages::{CheckpointState, DatabaseReply};
use twic::port::{
    auth_step, check_for_state, fingerprint_central_outcome, fingerprint_local_outcome, fingerprint_precheck,
    log_console, log_entry, parse_request, rfid_central_decision, rfid_local_decision, AuthCheck, FingerprintOutcome,
    TimeoutTracker,
};

fn setup_test_db() -> Connection {
    let conn = Connection::open_in_memory().unwrap();
    conn.execute(
        "CREATE TABLE roles (
            id INTEGER PRIMARY KEY,
            name TEXT NOT NULL
        )",
        [],
    )
    .unwrap();
    conn.execute(
        "CREATE TABLE employees (
            id INTEGER PRIMARY KEY,
            name TEXT NOT NULL,
            fingerprint_id INTEGER NOT NULL,
            role_id INTEGER NOT NULL,
            allowed_locations TEXT NOT NULL,
            rfid_data INTEGER NOT NULL,
            FOREIGN KEY (role_id) REFERENCES roles (id)
        )",
        [],
    )
    .unwrap();
    conn.execute("INSERT INTO roles (id, name) VALUES (1, 'Admin'), (2, 'Worker')", []).unwrap();
    conn.execute(
        "INSERT INTO employees
         (id, name, fingerprint_id, role_id, allowed_locations, rfid_data) VALUES
         (1, 'Admin User', 12345, 1, 'Gate1,Gate2', 1001),
         (2, 'Regular Worker', 67890, 2, 'Gate2', 1002)",
        [],
    )
    .unwrap();
    conn
}

fn check_local_db(conn: &Connection, id: u64) -> bool {
    conn.query_row("SELECT EXISTS(SELECT 1 FROM employees WHERE id = ?)", [id as i64], |row| row.get(0))
        .unwrap_or(false)
}

/// The fingerprint check as the port server runs it, without a central
/// database to fall back on.
fn authenticate_fingerprint(conn: &Connection, rfid: Option<u32>, fingerprint: Option<&str>, checkpoint: Option<u32>) -> bool {
    let scanned = match fingerprint_precheck(rfid, fingerprint, checkpoint) {
        Ok(v) => v,
        Err(outcome) => return outcome.granted(),
    };
    let rfid = rfid.unwrap();
    if check_local_db(conn, rfid as u64) {
        let stored: Option<u32> = conn
            .query_row("SELECT fingerprint_id FROM employees WHERE id = ?", [rfid], |row| row.get(0))
            .ok();
        fingerprint_local_outcome(scanned, stored).granted()
    } else {
        fingerprint_central_outcome(rfid, fingerprint.unwrap(), None).granted()
    }
}

/// The card check as the port server runs it, without a central database.
fn authenticate_rfid(conn: &Connection, rfid: Option<u32>, checkpoint: Option<u32>) -> bool {
    let (rfid, checkpoint) = match (rfid, checkpoint) {
        (Some(r), Some(c)) => (r, c),
        _ => return false,
    };
    if !check_local_db(conn, rfid as u64) {
        return false;
    }
    let role: Option<String> = conn
        .query_row(
            "SELECT roles.name FROM employees JOIN roles ON employees.role_id = roles.id WHERE employees.id = ?",
            [rfid],
            |row| row.get(0),
        )
        .ok();
    let allowed: Option<String> =
        conn.query_row("SELECT allowed_roles FROM checkpoints WHERE id = ?", [checkpoint], |row| row.get(0)).ok();
    rfid_local_decision(role.as_deref(), allowed.as_deref())
}

#[test]
fn test_fingerprint_auth() {
    let conn = setup_test_db();
    assert!(authenticate_fingerprint(&conn, Some(1), Some("12345"), Some(1)));
    assert!(!authenticate_fingerprint(&conn, Some(1), Some("99999"), Some(1)));
    assert!(!authenticate_fingerprint(&conn, Some(999), Some("12345"), Some(1)));
}

#[test]
fn test_add_worker() {
    let conn = setup_test_db();
    let added = conn.execute(
        "INSERT OR REPLACE INTO employees (id, name, fingerprint_id, role_id, allowed_locations, rfid_data)
         VALUES (?1, ?2, ?3, ?4, ?5, ?6)",
        (3i64, "New Worker".to_string(), 54321u32, 2i32, "Gate1".to_string(), 1003u32),
    );
    assert!(added.is_ok());
    assert!(check_local_db(&conn, 3));
}

#[test]
fn test_rfid_auth() {
    let conn = setup_test_db();
    conn.execute(
        "CREATE TABLE checkpoints (
            id INTEGER PRIMARY KEY,
            location TEXT NOT NULL,
            allowed_roles TEXT NOT NULL
        )",
        [],
    )
    .unwrap();
    conn.execute(
        "INSERT INTO checkpoints (id, location, allowed_roles) VALUES
        (1, 'Gate1', 'Admin,Worker'),
        (2, 'Gate2', 'Admin')",
        [],
    )
    .unwrap();
    assert!(authenticate_rfid(&conn, Some(1), Some(1)));
    assert!(!authenticate_rfid(&conn, Some(2), Some(2)));
}

#[test]
fn rfid_local_decision_trims_entries() {
    assert!(rfid_local_decision(Some("Worker"), Some(" Admin , Worker ")));
    assert!(!rfid_local_decision(Some("worker"), Some("Admin,Worker")));
    assert!(!rfid_local_decision(None, Some("Admin")));
    assert!(!rfid_local_decision(Some("Admin"), None));
}

fn central_reply(worker_id: u32, role_id: u32, roles: &str, locations: &str, location: &str) -> DatabaseReply {
    DatabaseReply::auth_reply(
        1,
        worker_id,
        "12345".to_string(),
        role_id,
        roles.to_string(),
        location.to_string(),
        locations.to_string(),
        "Admin User".to_string(),
    )
}

#[test]
fn rfid_central_decision_checks_worker_role_and_location() {
    assert!(rfid_central_decision(7, &central_reply(7, 0, "Admin,Worker", "Gate1,Gate2", "Gate2")));
    assert!(!rfid_central_decision(8, &central_reply(7, 0, "Admin,Worker", "Gate1,Gate2", "Gate2")));
    assert!(!rfid_central_decision(7, &central_reply(7, 2, "Admin,Worker", "Gate1,Gate2", "Gate2")));
    assert!(!rfid_central_decision(7, &central_reply(7, 1, "Admin,Worker", "Gate1", "Gate2")));
    assert!(!rfid_central_decision(7, &DatabaseReply::error()));
}

#[test]
fn fingerprint_precheck_outcomes() {
    assert_eq!(fingerprint_precheck(Some(1), Some("42"), Some(1)).ok(), Some(42));
    assert_eq!(fingerprint_precheck(Some(1), Some("x42"), Some(1)).err(), Some(FingerprintOutcome::InvalidFormat));
    assert_eq!(fingerprint_precheck(None, Some("42"), Some(1)).err(), Some(FingerprintOutcome::MissingData));
    assert_eq!(fingerprint_precheck(Some(1), Some("42"), None).err(), Some(FingerprintOutcome::MissingData));
}

#[test]
fn fingerprint_central_outcomes() {
    let mut reply = DatabaseReply::success(5);
    reply.worker_fingerprint = Some("777".to_string());
    assert_eq!(fingerprint_central_outcome(5, "777", Some(&reply)), FingerprintOutcome::Success);
    assert_eq!(fingerprint_central_outcome(5, "778", Some(&reply)), FingerprintOutcome::Mismatch);
    assert_eq!(fingerprint_central_outcome(6, "777", Some(&reply)), FingerprintOutcome::Mismatch);
    assert_eq!(
        fingerprint_central_outcome(5, "777", Some(&DatabaseReply::success(5))),
        FingerprintOutcome::Incomplete
    );
    assert_eq!(
        fingerprint_central_outcome(5, "777", Some(&DatabaseReply::error())),
        FingerprintOutcome::CentralDbError
    );
    assert_eq!(fingerprint_local_outcome(3, None), FingerprintOutcome::LocalDbError);
    assert_eq!(FingerprintOutcome::LocalDbError.log_status(), Some("Failed - DB Error"));
    assert_eq!(FingerprintOutcome::Incomplete.log_status(), None);
}

#[test]
fn auth_needs_card_then_fingerprint() {
    assert_eq!(check_for_state(CheckpointState::WaitForRfid), Some(AuthCheck::Rfid));
    assert_eq!(check_for_state(CheckpointState::AuthFailed), None);
    let first = auth_step(CheckpointState::WaitForRfid, 9, Some(3), true);
    assert_eq!(first.state, CheckpointState::WaitForFingerprint);
    assert!(!first.hold);
    assert_eq!(first.reply.worker_id, Some(9));
    assert_eq!(first.reply.checkpoint_id, Some(3));
    let second = auth_step(first.state_after, 9, Some(3), true);
    assert_eq!(second.state, CheckpointState::AuthSuccessful);
    assert!(second.hold);
    assert_eq!(second.state_after, CheckpointState::WaitForRfid);
    assert_eq!(second.reply.auth_response, Some(CheckpointState::AuthSuccessful));
    let failed = auth_step(CheckpointState::WaitForRfid, 9, Some(3), false);
    assert_eq!(failed.state, CheckpointState::AuthFailed);
    assert_eq!(failed.state_after, CheckpointState::WaitForRfid);
}

#[test]
fn fingerprint_wait_times_out_after_fifteen_seconds() {
    let second: u128 = 1_000_000_000;
    let mut t = TimeoutTracker::new(0);
    assert!(!t.poll(Some(CheckpointState::WaitForFingerprint), 10 * second));
    assert!(!t.poll(Some(CheckpointState::WaitForFingerprint), 25 * second));
    assert!(t.poll(Some(CheckpointState::WaitForFingerprint), 25 * second + 1));
    assert_eq!(t.previous_state, CheckpointState::WaitForRfid);
    assert!(!t.poll(None, 100 * second));
}

#[test]
fn log_lines() {
    assert_eq!(
        log_entry("2024-01-01 10:00:00", Some(1), Some(2), "RFID", "Failed"),
        "[2024-01-01 10:00:00] Worker ID: Some(1), Checkpoint ID: Some(2), Method: RFID, Status: Failed\n"
    );
    assert_eq!(
        log_entry("t", None, None, "Fingerprint", "Success"),
        "[t] Worker ID: None, Checkpoint ID: None, Method: Fingerprint, Status: Success\n"
    );
    assert_eq!(
        log_console(Some(4), Some(5), "RFID", "Successful"),
        Some("[LOG] Authentication success: Worker 4 at Checkpoint 5".to_string())
    );
    assert_eq!(
        log_console(Some(4), None, "Fingerprint", "Failed"),
        Some("[LOG] Authentication failed: Worker 4 at Checkpoint 0".to_string())
    );
    assert_eq!(log_console(Some(4), None, "RoleChange", "Admin"), Some("[LOG] Role changed for Worker 4 to Admin".to_string()));
    assert_eq!(log_console(None, None, "Other", "x"), None);
}

#[test]
fn request_text_is_trimmed() {
    assert_eq!(parse_request(b"  {\"a\":1}\n\0\0".to_vec()), Some("{\"a\":1}".to_string()));
    assert_eq!(parse_request(vec![0xff, 0xfe]), None);
}
