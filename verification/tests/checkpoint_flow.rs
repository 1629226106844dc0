use twic::checkpoint::{
    checkpoint_start, checkpoint_step, fingerprint_json_text, mode_of, submission_request, CardRead, Change,
    CheckpointAction, CheckpointEvent, CheckpointPhase, Mode, Notice,
};
use twic::messages::{CheckpointReply, CheckpointState};
use twic::tui::Submission;

fn reply(status: &str, checkpoint_id: Option<u32>) -> CheckpointReply {
    CheckpointReply {
        status: status.to_string(),
        checkpoint_id,
        worker_id: None,
        fingerprint: None,
        data: None,
        auth_response: None,
        rfid_ver: None,
    }
}

fn registered(id: u32) -> CheckpointReply {
    reply("success", Some(id))
}

fn shows(actions: &[CheckpointAction], notice: Notice) -> bool {
    actions.iter().any(|a| matches!(a, CheckpointAction::Show(n) if *n == notice))
}

#[test]
fn modes_by_name() {
    assert_eq!(mode_of("tui"), Mode::Dashboard);
    assert_eq!(mode_of("authenticate"), Mode::Authenticate);
    assert_eq!(mode_of("other"), Mode::Unknown);
}

#[test]
fn registration_sends_init_and_retries_while_waiting() {
    let (phase, actions) = checkpoint_start(Mode::Authenticate, "Gate1".to_string(), "Admin,Worker".to_string());
    assert_eq!(phase, CheckpointPhase::Registering { mode: Mode::Authenticate, first: true });
    match &actions[..] {
        [CheckpointAction::Send { request, admin: 1 }] => {
            assert_eq!(request.command, "INIT_REQUEST");
            assert_eq!(request.location.as_deref(), Some("Gate1"));
            assert_eq!(request.authorized_roles.as_deref(), Some("Admin,Worker"));
        }
        other => panic!("unexpected {:?}", other),
    }
    let (phase, actions) = checkpoint_step(phase, "Gate1", CheckpointEvent::Reply(CheckpointReply::waiting()));
    assert_eq!(phase, CheckpointPhase::Registering { mode: Mode::Authenticate, first: false });
    assert!(matches!(&actions[..], [CheckpointAction::Sleep(5), CheckpointAction::Resend { admin: 1 }]));
    let (phase, actions) = checkpoint_step(phase, "Gate1", CheckpointEvent::Reply(registered(7)));
    assert_eq!(phase, CheckpointPhase::AwaitCard { checkpoint_id: 7 });
    assert!(matches!(
        &actions[..],
        [CheckpointAction::Registered(7), CheckpointAction::Show(Notice::PleaseScan), CheckpointAction::ReadCard]
    ));
}

#[test]
fn lost_server_at_registration_exits() {
    let phase = CheckpointPhase::Registering { mode: Mode::Dashboard, first: true };
    let (phase, actions) = checkpoint_step(phase, "Gate1", CheckpointEvent::Reply(CheckpointReply::error()));
    assert_eq!(phase, CheckpointPhase::Finished);
    assert!(matches!(&actions[..], [CheckpointAction::Exit]));
}

#[test]
fn card_then_fingerprint_grants_access() {
    let phase = CheckpointPhase::AwaitCard { checkpoint_id: 7 };
    let (phase, actions) = checkpoint_step(phase, "Gate1", CheckpointEvent::Card(CardRead::Token(42)));
    assert_eq!(phase, CheckpointPhase::CardCheck { checkpoint_id: 7, worker_id: 42 });
    match &actions[..] {
        [CheckpointAction::Show(Notice::Validating), CheckpointAction::Send { request, admin: 1 }] => {
            assert_eq!(request.command, "AUTHENTICATE");
            assert_eq!(request.worker_id, Some(42));
            assert_eq!(request.checkpoint_id, Some(7));
        }
        other => panic!("unexpected {:?}", other),
    }
    let card_ok = CheckpointReply::auth_reply(CheckpointState::WaitForFingerprint);
    let (phase, actions) = checkpoint_step(phase, "Gate1", CheckpointEvent::Reply(card_ok));
    assert_eq!(phase, CheckpointPhase::AwaitFingerprint { checkpoint_id: 7, worker_id: 42 });
    assert!(matches!(&actions[..], [CheckpointAction::Show(Notice::ScanFingerprint), CheckpointAction::ScanFingerprint]));
    let (phase, actions) = checkpoint_step(phase, "Gate1", CheckpointEvent::Fingerprint(None));
    match &actions[..] {
        [_, CheckpointAction::Send { request, .. }] => assert_eq!(request.worker_fingerprint.as_deref(), Some("961")),
        other => panic!("unexpected {:?}", other),
    }
    let granted = CheckpointReply::auth_reply(CheckpointState::AuthSuccessful);
    let (phase, actions) = checkpoint_step(phase, "Gate1", CheckpointEvent::Reply(granted));
    assert_eq!(phase, CheckpointPhase::AwaitCard { checkpoint_id: 7 });
    assert!(shows(&actions, Notice::AccessGranted));
    assert!(!shows(&actions, Notice::AccessDenied));
}

#[test]
fn refused_card_asks_for_the_next_card() {
    let phase = CheckpointPhase::CardCheck { checkpoint_id: 7, worker_id: 42 };
    let refused = CheckpointReply::auth_reply(CheckpointState::AuthFailed);
    let (phase, actions) = checkpoint_step(phase, "Gate1", CheckpointEvent::Reply(refused));
    assert_eq!(phase, CheckpointPhase::AwaitCard { checkpoint_id: 7 });
    assert!(shows(&actions, Notice::AccessDenied));
    assert!(!shows(&actions, Notice::AccessGranted));
    let (phase, actions) = checkpoint_step(phase, "Gate1", CheckpointEvent::Card(CardRead::Failed));
    assert_eq!(phase, CheckpointPhase::AwaitCard { checkpoint_id: 7 });
    assert!(shows(&actions, Notice::ScanError));
}

#[test]
fn two_administrators_release_a_change() {
    let phase = CheckpointPhase::Dashboard { checkpoint_id: 3, worker_id: 9 };
    let sub = Submission::Delete { employee_id: "5".to_string() };
    let (phase, actions) = checkpoint_step(phase, "Gate1", CheckpointEvent::Submitted(Some(sub)));
    assert_eq!(phase, CheckpointPhase::FirstApproval { done: Change::Delete });
    assert!(matches!(&actions[..], [CheckpointAction::Send { admin: 1, .. }]));
    let (phase, actions) = checkpoint_step(phase, "Gate1", CheckpointEvent::Reply(CheckpointReply::waiting()));
    assert_eq!(phase, CheckpointPhase::SecondApproval { done: Change::Delete });
    assert!(matches!(&actions[..], [CheckpointAction::Resend { admin: 2 }]));
    let (phase, actions) = checkpoint_step(phase, "Gate1", CheckpointEvent::Reply(reply("success", None)));
    assert_eq!(phase, CheckpointPhase::Finished);
    assert!(matches!(&actions[..], [CheckpointAction::Show(Notice::Deleted), CheckpointAction::Stop]));
}

#[test]
fn submissions_become_requests() {
    let enroll = Submission::Enroll {
        name: "Ann".to_string(),
        biometric: "17".to_string(),
        role_id: "x".to_string(),
        location: "Gate2".to_string(),
    };
    let r = submission_request(&enroll, 3, 9, "Gate1");
    assert_eq!(r.command, "ENROLL");
    assert_eq!(r.worker_fingerprint.as_deref(), Some("{\"fingerprints\":{\"3\":17}}"));
    assert_eq!(r.role_id, Some(0));
    assert_eq!(r.location.as_deref(), Some("Gate2"));
    assert_eq!(r.worker_name.as_deref(), Some("Ann"));
    let update = Submission::Update { employee_id: "5".to_string(), role_id: "2".to_string() };
    let r = submission_request(&update, 3, 9, "Gate1");
    assert_eq!((r.command.as_str(), r.worker_id, r.role_id), ("UPDATE", Some(9), Some(2)));
    assert_eq!(r.location.as_deref(), Some("Gate1"));
    assert_eq!(fingerprint_json_text(12, 0), "{\"fingerprints\":{\"12\":0}}");
}
