use twic::approval::{request_key_text, Approval, PendingApprovals};
use twic::lcd::{display_bytes, init_commands, nibbles, pulse, LCD_CHR, LCD_CMD, LCD_LINE_1, LCD_LINE_2};
use twic::messages::CheckpointRequest;
use twic::prototype::{after_card_answer, after_finger_answer, CardReader, PersonNext};
use twic::sensors::{fingerprint_scan_result, last_line_text, rfid_data_result, script_outcome, token_id_result};
use twic::tui::{App, Key, KeyPress, Submission};

fn press(app: &mut App, code: Key) {
    app.on_key_event(KeyPress { code, control: false });
}

fn type_text(app: &mut App, text: &str) {
    for c in text.chars() {
        press(app, Key::Char(c));
    }
}

#[test]
fn dashboard_enrolls_an_employee() {
    let mut app = App::new();
    app.start();
    assert!(app.is_running());
    let screen = app.screen();
    assert_eq!(screen.title, "Main Menu (q, Esc, Ctrl+C: quit)");
    assert_eq!(screen.rows.len(), 3);
    assert!(screen.rows[0].reversed);
    press(&mut app, Key::Enter);
    press(&mut app, Key::Enter);
    type_text(&mut app, "Ann");
    press(&mut app, Key::Backspace);
    type_text(&mut app, "n");
    press(&mut app, Key::Enter);
    press(&mut app, Key::Down);
    press(&mut app, Key::Enter);
    type_text(&mut app, "55");
    press(&mut app, Key::Enter);
    let screen = app.screen();
    assert_eq!(screen.rows[0].text, "Name: Ann");
    assert_eq!(screen.rows[1].text, "Biometric: 55");
    assert!(screen.rows[1].reversed && !screen.rows[1].underlined);
    app.on_key_event(KeyPress { code: Key::Char('s'), control: true });
    assert!(!app.is_running());
    match app.take_submission() {
        Some(Submission::Enroll { name, biometric, role_id, location }) => {
            assert_eq!((name.as_str(), biometric.as_str(), role_id.as_str(), location.as_str()), ("Ann", "55", "", ""));
        }
        _ => panic!("no enrollment"),
    }
    assert!(app.take_submission().is_none());
}

#[test]
fn dashboard_quits_and_navigates() {
    let mut app = App::new();
    app.start();
    press(&mut app, Key::Down);
    press(&mut app, Key::Down);
    press(&mut app, Key::Down);
    press(&mut app, Key::Enter);
    assert_eq!(app.screen().title, "Delete Employee (Enter: edit field, Ctrl+S: submit, Esc: cancel)");
    press(&mut app, Key::Esc);
    assert_eq!(app.screen().rows[2].text, "Delete existing employee");
    assert!(app.screen().rows[2].reversed);
    press(&mut app, Key::Char('k'));
    assert!(app.screen().rows[1].reversed);
    press(&mut app, Key::Char('q'));
    assert!(!app.is_running());
    let mut app = App::default();
    app.start();
    app.on_key_event(KeyPress { code: Key::Char('c'), control: true });
    assert!(!app.is_running());
}

#[test]
fn typing_q_while_editing_quits() {
    let mut app = App::new();
    app.start();
    press(&mut app, Key::Enter);
    press(&mut app, Key::Enter);
    type_text(&mut app, "x");
    press(&mut app, Key::Char('q'));
    assert!(!app.is_running());
    assert_eq!(app.screen().rows[0].text, "Name: x");
}

#[test]
fn two_admins_approve_a_request() {
    let mut pending = PendingApprovals::new();
    let delete = CheckpointRequest::delete_req(3, 8);
    assert_eq!(request_key_text(&delete), "DELETE_8_3");
    assert_eq!(pending.submit(&delete, 1), Approval::Waiting);
    assert_eq!(pending.submit(&delete, 1), Approval::Waiting);
    assert_eq!(pending.submit(&delete, 2), Approval::Forward);
    assert_eq!(pending.submit(&delete, 2), Approval::Waiting);
    let auth = CheckpointRequest::rfid_auth_request(3, 8);
    assert_eq!(pending.submit(&auth, 1), Approval::Forward);
    let init = CheckpointRequest::init_request("Gate1".to_string(), "Admin".to_string());
    assert_eq!(request_key_text(&init), "INIT_REQUEST_0_0");
    assert_eq!(pending.submit(&init, 1), Approval::Forward);
}

#[test]
fn lcd_bytes() {
    assert_eq!(nibbles(0x41, LCD_CHR), (0x49, 0x19));
    assert_eq!(nibbles(0x01, LCD_CMD), (0x08, 0x18));
    assert_eq!(pulse(0x49), (0x4D, 0x49));
    assert_eq!(pulse(0x4D), (0x4D, 0x49));
    assert_eq!(init_commands(), vec![0x33, 0x32, 0x06, 0x0C, 0x28, 0x01]);
    assert_eq!(display_bytes("Hi", LCD_LINE_1), vec![(LCD_LINE_1, LCD_CMD), (b'H', LCD_CHR), (b'i', LCD_CHR)]);
    assert_eq!(display_bytes("é", LCD_LINE_2), vec![(LCD_LINE_2, LCD_CMD), (0xE9, LCD_CHR)]);
    for b in 0..=255u8 {
        let (hi, lo) = nibbles(b, LCD_CHR);
        assert_eq!((hi & 0xF0) | ((lo & 0xF0) >> 4), b);
    }
}

#[test]
fn sensor_script_output() {
    assert_eq!(rfid_data_result(true, " 1001\n", ""), Ok(1001));
    assert_eq!(rfid_data_result(false, "", "boom"), Err("Python script failed: boom".to_string()));
    assert_eq!(rfid_data_result(true, "ab", ""), Err("Unexpected output from Python script: 'ab'".to_string()));
    assert_eq!(
        rfid_data_result(true, "99999999999", ""),
        Err("Parse error: number too large to fit in target type".to_string())
    );
    assert_eq!(rfid_data_result(true, "  ", ""), Err("Parse error: cannot parse integer from empty string".to_string()));
    assert_eq!(token_id_result(true, "99999999999", ""), Ok(99999999999));
    assert_eq!(fingerprint_scan_result(true, "7\n", ""), Ok(7));
    assert_eq!(
        fingerprint_scan_result(true, "none", ""),
        Err("Unexpected output from fingerprint scan: 'none'".to_string())
    );
    assert_eq!(script_outcome(true, "x", "y"), Ok(true));
    assert_eq!(script_outcome(false, "Write failed: ", "busy"), Err("Write failed: busy".to_string()));
    assert_eq!(last_line_text("a\nb\r\n"), Some("b".to_string()));
    assert_eq!(last_line_text("a\nb"), Some("b".to_string()));
    assert_eq!(last_line_text(""), None);
}

#[test]
fn prototype_machine_and_person() {
    let mut reader = CardReader::new();
    let out = reader.step("7");
    assert_eq!(out.sent, vec!["2"]);
    assert!(!out.stop);
    let out = reader.step("x");
    assert_eq!(out.said, vec!["Received invalid input."]);
    let out = reader.step("43");
    assert_eq!(out.sent, vec!["0"]);
    assert_eq!(out.said, vec!["Card recognized, please use fingerprint scanner."]);
    let out = reader.step("3");
    assert_eq!(out.sent, vec!["5"]);
    assert_eq!(out.said, vec!["Welcome!"]);
    let mut reader = CardReader::new();
    for _ in 0..3 {
        assert!(!reader.step("1").stop);
    }
    let out = reader.step("1");
    assert!(out.stop);
    assert_eq!(out.said, vec!["Card not recognized.", "Too many attempts. Please contact the main office."]);
    assert_eq!(after_card_answer(Some("0")), PersonNext::Finger);
    assert_eq!(after_card_answer(Some("1")), PersonNext::Stop);
    assert_eq!(after_card_answer(None), PersonNext::Card);
    assert_eq!(after_finger_answer(Some("5")), PersonNext::Stop);
    assert_eq!(after_finger_answer(Some("4")), PersonNext::Finger);
}
