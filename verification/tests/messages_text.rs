use twic::messages::{CheckpointReply, CheckpointRequest, CheckpointState, Command, DatabaseReply, DatabaseRequest, Role};
use twic::text::{
    comma_list_contains, equal_ignore_ascii_case, i64_to_text, join_i64, parse_i64_list, parse_i64_list_strict,
    text_to_i32, text_to_i64, text_to_u32, text_to_u64, trim_end_matching, trim_text, u64_to_text,
};

#[test]
fn roles_by_name_and_number() {
    assert_eq!(Role::from_str("Admin"), Some(0));
    assert_eq!(Role::from_str("worker"), Some(1));
    assert_eq!(Role::from_str("MANAGER"), Some(2));
    assert_eq!(Role::from_str("Security"), Some(3));
    assert_eq!(Role::from_str("Guest"), None);
    assert_eq!(Role::as_str(3), Some("Security"));
    assert_eq!(Role::as_str(4), None);
    assert_eq!(Role::all_roles(), vec!["Admin", "Worker", "Manager", "Security"]);
    for id in 0..4 {
        assert_eq!(Role::from_str(Role::as_str(id).unwrap()), Some(id));
        assert_eq!(Role::from_str(&Role::as_str(id).unwrap().to_uppercase()), Some(id));
    }
}

#[test]
fn checkpoint_requests() {
    let r = CheckpointRequest::init_request("Gate1".to_string(), "Admin,Worker".to_string());
    assert_eq!(r.command, "INIT_REQUEST");
    assert_eq!(r.location.as_deref(), Some("Gate1"));
    let r = CheckpointRequest::rfid_auth_request(3, 42);
    assert_eq!(r.command, "AUTHENTICATE");
    assert_eq!(r.worker_fingerprint.as_deref(), Some("dummy hash"));
    let r = CheckpointRequest::enroll_req(3, "Ann".to_string(), "55".to_string(), "Gate2".to_string(), 1);
    assert_eq!(r.command, "ENROLL");
    assert_eq!(r.role_id, Some(1));
    assert_eq!(r.worker_id, None);
    let r = CheckpointRequest::update_req(3, 8, 2, "Gate1".to_string());
    assert_eq!((r.worker_id, r.role_id), (Some(8), Some(2)));
    let r = CheckpointRequest::delete_req(3, 8);
    assert_eq!(r.command, "DELETE");
}

#[test]
fn checkpoint_replies() {
    let e = CheckpointReply::error();
    assert_eq!(e.status, "error");
    assert_eq!(e.auth_response, None);
    let a = CheckpointReply::auth_reply(CheckpointState::AuthFailed);
    assert_eq!(a.status, "success");
    assert_eq!(a.auth_response, Some(CheckpointState::AuthFailed));
    assert_eq!(a.rfid_ver, Some(true));
    let w = CheckpointReply::waiting();
    assert_eq!(w.status, "waiting");
}

#[test]
fn database_replies() {
    let s = DatabaseReply::success(12);
    assert_eq!((s.status.as_str(), s.worker_id), ("success", Some(12)));
    let u = DatabaseReply::update_success("Gate1".to_string(), 2);
    assert_eq!((u.allowed_locations.as_deref(), u.role_id), (Some("Gate1"), Some(2)));
    let i = DatabaseReply::init_reply(7);
    assert_eq!(i.checkpoint_id, Some(7));
    assert_eq!(DatabaseReply::error().status, "error");
    let k = DatabaseReply::key_exchange_reply("1,2".to_string(), "3".to_string());
    assert_eq!(k.encrypted_iv.as_deref(), Some("3"));
    let b = DatabaseRequest::bare("KEY_EXCHANGE");
    assert_eq!(b.command, "KEY_EXCHANGE");
    assert_eq!(b.public_key, None);
}

#[test]
fn commands_by_text() {
    assert_eq!(Command::from_text("INIT_REQUEST"), Command::InitRequest);
    assert_eq!(Command::from_text("KEY_EXCHANGE"), Command::KeyExchange);
    assert_eq!(Command::from_text("delete"), Command::Unknown);
}

#[test]
fn numbers_as_text() {
    assert_eq!(u64_to_text(0), "0");
    assert_eq!(u64_to_text(18446744073709551615), "18446744073709551615");
    assert_eq!(i64_to_text(-9223372036854775808), "-9223372036854775808");
    assert_eq!(text_to_u32("+42"), Some(42));
    assert_eq!(text_to_u32("4294967296"), None);
    assert_eq!(text_to_u32(" 1"), None);
    assert_eq!(text_to_u64("18446744073709551615"), Some(u64::MAX));
    assert_eq!(text_to_i64("-9223372036854775808"), Some(i64::MIN));
    assert_eq!(text_to_i64("9223372036854775808"), None);
    assert_eq!(text_to_i32("-"), None);
    for v in [0i64, 7, -7, i64::MAX, i64::MIN] {
        assert_eq!(text_to_i64(&i64_to_text(v)), Some(v));
    }
}

#[test]
fn lists_of_numbers() {
    let v = vec![3i64, -1, 0, 9223372036854775807];
    let joined = join_i64(&v);
    assert_eq!(joined, "3,-1,0,9223372036854775807");
    assert_eq!(parse_i64_list(&joined), v);
    assert_eq!(parse_i64_list_strict(&joined), Some(v));
    assert_eq!(parse_i64_list("1,x, 2,3"), vec![1, 3]);
    assert_eq!(parse_i64_list_strict("1,x,3"), None);
    assert_eq!(parse_i64_list(""), Vec::<i64>::new());
}

#[test]
fn text_helpers() {
    assert!(comma_list_contains("Admin, Worker", "Worker"));
    assert!(!comma_list_contains("Admin,Worker", "Manager"));
    assert!(equal_ignore_ascii_case("GaTe1", "gate1"));
    assert!(!equal_ignore_ascii_case("Gate1", "Gate12"));
    assert_eq!(trim_text("\t hi there \n"), "hi there");
    assert_eq!(trim_end_matching("ab\0\0", '\0'), "ab");
}
