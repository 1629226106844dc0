//! A checkpoint's side of the system: it registers with its port server,
//! then either lets two administrators submit a change through the
//! dashboard, or authenticates workers, card first and fingerprint second.
//! Each step takes what just happened and says what to do next.
use vstd::prelude::*;
use crate::messages::{CheckpointReply, CheckpointRequest, CheckpointState};
use crate::text::{nat_text, owned, parse_u32, push_str, push_u64, text_eq, text_to_u32};
use crate::tui::{Submission, SubmissionView};

verus! {

/// What the checkpoint was started to do.
#[derive(Clone, Copy, Debug, PartialEq, Eq, Structural)]
pub enum Mode {
    /// Administrators change the worker database through the dashboard.
    Dashboard,
    /// Workers are authenticated, card then fingerprint.
    Authenticate,
    /// An unknown function was asked for.
    Unknown,
}

/// The mode a function name asks for: `tui` or `authenticate`.
pub open spec fn mode_spec(name: Seq<char>) -> Mode {
    if name == "tui"@ {
        Mode::Dashboard
    } else if name == "authenticate"@ {
        Mode::Authenticate
    } else {
        Mode::Unknown
    }
}

pub fn mode_of(name: &str) -> (r: Mode)
    ensures
        r == mode_spec(name@),
{
    if text_eq(name, "tui") {
        Mode::Dashboard
    } else if text_eq(name, "authenticate") {
        Mode::Authenticate
    } else {
        Mode::Unknown
    }
}

/// A message on the checkpoint's display.
#[derive(Clone, Copy, Debug, PartialEq, Eq, Structural)]
pub enum Notice {
    PleaseScan,
    ScanError,
    Validating,
    AccessDenied,
    ScanFingerprint,
    AccessGranted,
    InitFailed,
    Enrolled,
    Updated,
    Deleted,
    Error,
}

/// The kind of change a dashboard submission asks for.
#[derive(Clone, Copy, Debug, PartialEq, Eq, Structural)]
pub enum Change {
    Enroll,
    Update,
    Delete,
}

/// What the display says once a change went through.
pub open spec fn change_notice(c: Change) -> Notice {
    match c {
        Change::Enroll => Notice::Enrolled,
        Change::Update => Notice::Updated,
        Change::Delete => Notice::Deleted,
    }
}

fn notice_of(c: Change) -> (r: Notice)
    ensures
        r == change_notice(c),
{
    match c {
        Change::Enroll => Notice::Enrolled,
        Change::Update => Notice::Updated,
        Change::Delete => Notice::Deleted,
    }
}

/// Where the checkpoint stands.
#[derive(Clone, Copy, Debug, PartialEq, Eq, Structural)]
pub enum CheckpointPhase {
    /// Waiting for the answer to the registration; `first` until it is
    /// sent again.
    Registering { mode: Mode, first: bool },
    /// Registered as `checkpoint_id`; reading the administrator's card.
    AdminCard { checkpoint_id: u32 },
    /// The dashboard is open for the administrator with `worker_id`.
    Dashboard { checkpoint_id: u32, worker_id: u32 },
    /// The first administrator's submission was sent.
    FirstApproval { done: Change },
    /// The second administrator's submission was sent.
    SecondApproval { done: Change },
    /// Waiting for a card.
    AwaitCard { checkpoint_id: u32 },
    /// The card of `worker_id` is being checked.
    CardCheck { checkpoint_id: u32, worker_id: u32 },
    /// Waiting for the fingerprint of `worker_id`.
    AwaitFingerprint { checkpoint_id: u32, worker_id: u32 },
    /// The fingerprint of `worker_id` is being checked.
    FingerprintCheck { checkpoint_id: u32, worker_id: u32 },
    /// Nothing more to do.
    Finished,
}

/// What reading a card gave.
#[derive(Clone, Copy, Debug, PartialEq, Eq, Structural)]
pub enum CardRead {
    /// The card's token.
    Token(u64),
    /// The card could not be read.
    Failed,
}

/// What just happened.
#[derive(Debug)]
pub enum CheckpointEvent {
    /// The port server answered.
    Reply(CheckpointReply),
    /// A card was read.
    Card(CardRead),
    /// A fingerprint was scanned: its identifier, or `None` where the
    /// scanner failed.
    Fingerprint(Option<u32>),
    /// The dashboard closed, with a submission or without one.
    Submitted(Option<Submission>),
}

/// What to do next.
#[derive(Debug)]
pub enum CheckpointAction {
    /// Send a request as administrator `admin`.
    Send { request: CheckpointRequest, admin: u32 },
    /// Send the last request again, as administrator `admin`.
    Resend { admin: u32 },
    /// Show a message.
    Show(Notice),
    /// Wait so many seconds.
    Sleep(u64),
    /// Read a card.
    ReadCard,
    /// Scan a fingerprint.
    ScanFingerprint,
    /// Open the dashboard.
    OpenDashboard,
    /// The checkpoint was registered under this identifier.
    Registered(u32),
    /// Report that the function asked for is unknown.
    ReportUnknown,
    /// Stop with a failure: the port server is lost or the administrator's
    /// card could not be read.
    Exit,
    /// Stop.
    Stop,
}

/// A request's contents.
pub struct RequestView {
    pub command: Seq<char>,
    pub checkpoint_id: Option<u32>,
    pub worker_id: Option<u32>,
    pub worker_fingerprint: Option<Seq<char>>,
    pub location: Option<Seq<char>>,
    pub authorized_roles: Option<Seq<char>>,
    pub role_id: Option<u32>,
    pub worker_name: Option<Seq<char>>,
}

pub open spec fn text_view(s: Option<String>) -> Option<Seq<char>> {
    match s {
        Some(x) => Some(x@),
        None => None,
    }
}

pub open spec fn request_view(r: CheckpointRequest) -> RequestView {
    RequestView {
        command: r.command@,
        checkpoint_id: r.checkpoint_id,
        worker_id: r.worker_id,
        worker_fingerprint: text_view(r.worker_fingerprint),
        location: text_view(r.location),
        authorized_roles: text_view(r.authorized_roles),
        role_id: r.role_id,
        worker_name: text_view(r.worker_name),
    }
}

/// An action, with the request it sends by its contents.
pub enum ActionView {
    Send { request: RequestView, admin: u32 },
    Resend { admin: u32 },
    Show(Notice),
    Sleep(u64),
    ReadCard,
    ScanFingerprint,
    OpenDashboard,
    Registered(u32),
    ReportUnknown,
    Exit,
    Stop,
}

pub open spec fn action_view(a: CheckpointAction) -> ActionView {
    match a {
        CheckpointAction::Send { request, admin } => ActionView::Send { request: request_view(request), admin },
        CheckpointAction::Resend { admin } => ActionView::Resend { admin },
        CheckpointAction::Show(n) => ActionView::Show(n),
        CheckpointAction::Sleep(s) => ActionView::Sleep(s),
        CheckpointAction::ReadCard => ActionView::ReadCard,
        CheckpointAction::ScanFingerprint => ActionView::ScanFingerprint,
        CheckpointAction::OpenDashboard => ActionView::OpenDashboard,
        CheckpointAction::Registered(c) => ActionView::Registered(c),
        CheckpointAction::ReportUnknown => ActionView::ReportUnknown,
        CheckpointAction::Exit => ActionView::Exit,
        CheckpointAction::Stop => ActionView::Stop,
    }
}

pub open spec fn actions_view(v: Seq<CheckpointAction>) -> Seq<ActionView> {
    v.map_values(|a: CheckpointAction| action_view(a))
}

// ---------------------------------------------------------------------
// Requests
// ---------------------------------------------------------------------
/// A request with only a command and a checkpoint set.
pub open spec fn bare_request(command: Seq<char>, checkpoint_id: Option<u32>) -> RequestView {
    RequestView {
        command,
        checkpoint_id,
        worker_id: None,
        worker_fingerprint: None,
        location: None,
        authorized_roles: None,
        role_id: None,
        worker_name: None,
    }
}

pub open spec fn init_view(location: Seq<char>, roles: Seq<char>) -> RequestView {
    RequestView { location: Some(location), authorized_roles: Some(roles), ..bare_request("INIT_REQUEST"@, None) }
}

pub open spec fn card_view(checkpoint_id: u32, worker_id: u32) -> RequestView {
    RequestView {
        worker_id: Some(worker_id),
        worker_fingerprint: Some("dummy hash"@),
        ..bare_request("AUTHENTICATE"@, Some(checkpoint_id))
    }
}

pub open spec fn finger_view(checkpoint_id: u32, worker_id: u32, fingerprint: Seq<char>) -> RequestView {
    RequestView {
        worker_id: Some(worker_id),
        worker_fingerprint: Some(fingerprint),
        ..bare_request("AUTHENTICATE"@, Some(checkpoint_id))
    }
}

/// The fingerprint sent for a scan: its identifier, or `961` where the
/// scanner failed.
pub open spec fn scanned_text(scan: Option<u32>) -> Seq<char> {
    match scan {
        Some(x) => nat_text(x as nat),
        None => nat_text(961),
    }
}

/// A number typed into the dashboard, or `0` where it is not a `u32`.
pub open spec fn typed_u32(s: Seq<char>) -> u32 {
    match parse_u32(s) {
        Some(v) => v as u32,
        None => 0,
    }
}

/// The JSON text `{"fingerprints":{"<checkpoint>":<fingerprint>}}`.
pub open spec fn fingerprint_json(checkpoint_id: u32, fingerprint_id: u32) -> Seq<char> {
    "{\"fingerprints\":{\""@ + nat_text(checkpoint_id as nat) + "\":"@ + nat_text(fingerprint_id as nat) + "}}"@
}

/// The request a dashboard submission makes at checkpoint `checkpoint_id`
/// in `location`, by the administrator `worker_id`: an enrolment with the
/// form's fields (the biometric as fingerprint JSON), or an update or
/// removal of the administrator's own record.
pub open spec fn submission_view(sub: SubmissionView, checkpoint_id: u32, worker_id: u32, location: Seq<char>) -> RequestView {
    match sub {
        SubmissionView::Enroll { name, biometric, role_id, location: place } => RequestView {
            worker_fingerprint: Some(fingerprint_json(checkpoint_id, typed_u32(biometric))),
            location: Some(place),
            role_id: Some(typed_u32(role_id)),
            worker_name: Some(name),
            ..bare_request("ENROLL"@, Some(checkpoint_id))
        },
        SubmissionView::Update { employee_id, role_id } => RequestView {
            worker_id: Some(worker_id),
            location: Some(location),
            role_id: Some(typed_u32(role_id)),
            ..bare_request("UPDATE"@, Some(checkpoint_id))
        },
        SubmissionView::Delete { employee_id } => RequestView {
            worker_id: Some(worker_id),
            ..bare_request("DELETE"@, Some(checkpoint_id))
        },
    }
}

/// The kind of change a submission asks for.
pub open spec fn done_notice(sub: SubmissionView) -> Change {
    match sub {
        SubmissionView::Enroll { .. } => Change::Enroll,
        SubmissionView::Update { .. } => Change::Update,
        SubmissionView::Delete { .. } => Change::Delete,
    }
}

/// The fingerprint JSON text of an enrolment.
pub fn fingerprint_json_text(checkpoint_id: u32, fingerprint_id: u32) -> (r: String)
    ensures
        r@ == fingerprint_json(checkpoint_id, fingerprint_id),
{
    let mut s = String::new();
    push_str(&mut s, "{\"fingerprints\":{\"");
    push_u64(&mut s, checkpoint_id as u64);
    push_str(&mut s, "\":");
    push_u64(&mut s, fingerprint_id as u64);
    push_str(&mut s, "}}");
    proof {
        assert(s@ =~= fingerprint_json(checkpoint_id, fingerprint_id));
    }
    s
}

fn typed_number(s: &String) -> (r: u32)
    ensures
        r == typed_u32(s@),
{
    match text_to_u32(s.as_str()) {
        Some(v) => v,
        None => 0,
    }
}

/// The request a dashboard submission makes.
pub fn submission_request(sub: &Submission, checkpoint_id: u32, worker_id: u32, location: &str) -> (r: CheckpointRequest)
    ensures
        request_view(r) == submission_view(sub.view(), checkpoint_id, worker_id, location@),
{
    match sub {
        Submission::Enroll { name, biometric, role_id, location: place } => {
            let fingerprint = fingerprint_json_text(checkpoint_id, typed_number(biometric));
            CheckpointRequest::enroll_req(checkpoint_id, name.clone(), fingerprint, place.clone(), typed_number(role_id))
        },
        Submission::Update { employee_id: _, role_id } => {
            CheckpointRequest::update_req(checkpoint_id, worker_id, typed_number(role_id), owned(location))
        },
        Submission::Delete { employee_id: _ } => CheckpointRequest::delete_req(checkpoint_id, worker_id),
    }
}

fn done_of(sub: &Submission) -> (r: Change)
    ensures
        r == done_notice(sub.view()),
{
    match sub {
        Submission::Enroll { .. } => Change::Enroll,
        Submission::Update { .. } => Change::Update,
        Submission::Delete { .. } => Change::Delete,
    }
}

// ---------------------------------------------------------------------
// Steps
// ---------------------------------------------------------------------
/// The reply that stands for a lost connection.
pub open spec fn reply_is_error(r: CheckpointReply) -> bool {
    &&& r.status@ == "error"@
    &&& r.checkpoint_id is None
    &&& r.worker_id is None
    &&& r.fingerprint is None
    &&& r.data is None
    &&& r.auth_response is None
    &&& r.rfid_ver == Some(false)
}

fn is_error_reply(r: &CheckpointReply) -> (b: bool)
    ensures
        b == reply_is_error(*r),
{
    text_eq(r.status.as_str(), "error") && r.checkpoint_id.is_none() && r.worker_id.is_none()
        && r.fingerprint.is_none() && r.data.is_none() && r.auth_response.is_none() && match r.rfid_ver {
        Some(v) => !v,
        None => false,
    }
}

/// How a checkpoint starts: it sends its registration.
pub open spec fn start_spec(mode: Mode, location: Seq<char>, roles: Seq<char>) -> (CheckpointPhase, Seq<ActionView>) {
    (
        CheckpointPhase::Registering { mode, first: true },
        seq![ActionView::Send { request: init_view(location, roles), admin: 1 }],
    )
}

/// The step after registration succeeded as `c`.
pub open spec fn registered_spec(mode: Mode, c: u32) -> (CheckpointPhase, Seq<ActionView>) {
    match mode {
        Mode::Dashboard => (CheckpointPhase::AdminCard { checkpoint_id: c }, seq![ActionView::Registered(c), ActionView::ReadCard]),
        Mode::Authenticate => (
            CheckpointPhase::AwaitCard { checkpoint_id: c },
            seq![ActionView::Registered(c), ActionView::Show(Notice::PleaseScan), ActionView::ReadCard],
        ),
        Mode::Unknown => (CheckpointPhase::Finished, seq![ActionView::Registered(c), ActionView::ReportUnknown, ActionView::Stop]),
    }
}

/// Back to waiting for a card, after `before`.
pub open spec fn next_card(c: u32, before: Seq<ActionView>) -> (CheckpointPhase, Seq<ActionView>) {
    (CheckpointPhase::AwaitCard { checkpoint_id: c }, before + seq![ActionView::Show(Notice::PleaseScan), ActionView::ReadCard])
}

pub open spec fn lost() -> (CheckpointPhase, Seq<ActionView>) {
    (CheckpointPhase::Finished, seq![ActionView::Exit])
}

/// What the display says after a fingerprint check.
pub open spec fn verdict(r: CheckpointReply) -> Seq<ActionView> {
    match r.auth_response {
        Some(CheckpointState::AuthFailed) => seq![ActionView::Show(Notice::AccessDenied), ActionView::Sleep(2)],
        Some(CheckpointState::AuthSuccessful) => seq![ActionView::Show(Notice::AccessGranted), ActionView::Sleep(2)],
        _ => Seq::empty(),
    }
}

/// One step of the checkpoint: from `phase`, on `event`, the next phase and
/// the actions to take. An event that does not fit the phase changes
/// nothing.
pub open spec fn checkpoint_step_spec(phase: CheckpointPhase, location: Seq<char>, event: CheckpointEvent) -> (
    CheckpointPhase,
    Seq<ActionView>,
) {
    match (phase, event) {
        (CheckpointPhase::Registering { mode, first }, CheckpointEvent::Reply(r)) => if first && reply_is_error(r) {
            lost()
        } else if r.status@ == "waiting"@ {
            (CheckpointPhase::Registering { mode, first: false }, seq![ActionView::Sleep(5), ActionView::Resend { admin: 1 }])
        } else if r.status@ != "success"@ {
            (CheckpointPhase::Finished, seq![ActionView::Show(Notice::InitFailed), ActionView::Sleep(5), ActionView::Stop])
        } else {
            match r.checkpoint_id {
                Some(c) => registered_spec(mode, c),
                None => (CheckpointPhase::Finished, seq![ActionView::Stop]),
            }
        },
        (CheckpointPhase::AdminCard { checkpoint_id: c }, CheckpointEvent::Card(read)) => match read {
            CardRead::Token(w) => if w <= u32::MAX {
                (CheckpointPhase::Dashboard { checkpoint_id: c, worker_id: w as u32 }, seq![ActionView::OpenDashboard])
            } else {
                lost()
            },
            CardRead::Failed => lost(),
        },
        (CheckpointPhase::Dashboard { checkpoint_id: c, worker_id: w }, CheckpointEvent::Submitted(sub)) => match sub {
            Some(s) => (
                CheckpointPhase::FirstApproval { done: done_notice(s.view()) },
                seq![ActionView::Send { request: submission_view(s.view(), c, w, location), admin: 1 }],
            ),
            None => (CheckpointPhase::Finished, seq![ActionView::Stop]),
        },
        (CheckpointPhase::FirstApproval { done }, CheckpointEvent::Reply(r)) => if reply_is_error(r) {
            lost()
        } else if r.status@ != "waiting"@ {
            (CheckpointPhase::Finished, seq![ActionView::Show(Notice::Error), ActionView::Stop])
        } else {
            (CheckpointPhase::SecondApproval { done }, seq![ActionView::Resend { admin: 2 }])
        },
        (CheckpointPhase::SecondApproval { done }, CheckpointEvent::Reply(r)) => if reply_is_error(r) {
            lost()
        } else if r.status@ == "success"@ {
            (CheckpointPhase::Finished, seq![ActionView::Show(change_notice(done)), ActionView::Stop])
        } else {
            (CheckpointPhase::Finished, seq![ActionView::Show(Notice::Error), ActionView::Stop])
        },
        (CheckpointPhase::AwaitCard { checkpoint_id: c }, CheckpointEvent::Card(read)) => match read {
            CardRead::Token(w) => if w <= u32::MAX {
                (
                    CheckpointPhase::CardCheck { checkpoint_id: c, worker_id: w as u32 },
                    seq![
                        ActionView::Show(Notice::Validating),
                        ActionView::Send { request: card_view(c, w as u32), admin: 1 },
                    ],
                )
            } else {
                next_card(c, Seq::empty())
            },
            CardRead::Failed => next_card(c, seq![ActionView::Show(Notice::ScanError), ActionView::Sleep(2)]),
        },
        (CheckpointPhase::CardCheck { checkpoint_id: c, worker_id: w }, CheckpointEvent::Reply(r)) => if reply_is_error(r) {
            lost()
        } else if r.auth_response == Some(CheckpointState::AuthFailed) {
            next_card(c, seq![ActionView::Show(Notice::AccessDenied), ActionView::Sleep(2)])
        } else {
            (
                CheckpointPhase::AwaitFingerprint { checkpoint_id: c, worker_id: w },
                seq![ActionView::Show(Notice::ScanFingerprint), ActionView::ScanFingerprint],
            )
        },
        (CheckpointPhase::AwaitFingerprint { checkpoint_id: c, worker_id: w }, CheckpointEvent::Fingerprint(scan)) => (
            CheckpointPhase::FingerprintCheck { checkpoint_id: c, worker_id: w },
            seq![
                ActionView::Show(Notice::Validating),
                ActionView::Send { request: finger_view(c, w, scanned_text(scan)), admin: 1 },
            ],
        ),
        (CheckpointPhase::FingerprintCheck { checkpoint_id: c, worker_id: w }, CheckpointEvent::Reply(r)) => if reply_is_error(r) {
            lost()
        } else {
            next_card(c, verdict(r) + seq![ActionView::Sleep(1)])
        },
        _ => (phase, Seq::empty()),
    }
}

/// The registration a checkpoint starts with.
pub fn checkpoint_start(mode: Mode, location: String, roles: String) -> (r: (CheckpointPhase, Vec<CheckpointAction>))
    ensures
        (r.0, actions_view(r.1@)) == start_spec(mode, location@, roles@),
{
    let request = CheckpointRequest::init_request(location, roles);
    let v = vec![CheckpointAction::Send { request, admin: 1 }];
    proof {
        assert(actions_view(v@) =~= start_spec(mode, location@, roles@).1);
    }
    (CheckpointPhase::Registering { mode, first: true }, v)
}

fn lost_step() -> (r: (CheckpointPhase, Vec<CheckpointAction>))
    ensures
        (r.0, actions_view(r.1@)) == lost(),
{
    let v = vec![CheckpointAction::Exit];
    assert(actions_view(v@) =~= lost().1);
    (CheckpointPhase::Finished, v)
}

fn next_card_step(c: u32, before: Vec<CheckpointAction>) -> (r: (CheckpointPhase, Vec<CheckpointAction>))
    ensures
        (r.0, actions_view(r.1@)) == next_card(c, actions_view(before@)),
{
    let mut v = before;
    let ghost b = v@;
    v.push(CheckpointAction::Show(Notice::PleaseScan));
    v.push(CheckpointAction::ReadCard);
    assert(actions_view(v@) =~= next_card(c, actions_view(b)).1);
    (CheckpointPhase::AwaitCard { checkpoint_id: c }, v)
}

fn registered_step(mode: Mode, c: u32) -> (r: (CheckpointPhase, Vec<CheckpointAction>))
    ensures
        (r.0, actions_view(r.1@)) == registered_spec(mode, c),
{
    match mode {
        Mode::Dashboard => {
            let v = vec![CheckpointAction::Registered(c), CheckpointAction::ReadCard];
            assert(actions_view(v@) =~= registered_spec(mode, c).1);
            (CheckpointPhase::AdminCard { checkpoint_id: c }, v)
        },
        Mode::Authenticate => {
            let v = vec![CheckpointAction::Registered(c), CheckpointAction::Show(Notice::PleaseScan), CheckpointAction::ReadCard];
            assert(actions_view(v@) =~= registered_spec(mode, c).1);
            (CheckpointPhase::AwaitCard { checkpoint_id: c }, v)
        },
        Mode::Unknown => {
            let v = vec![CheckpointAction::Registered(c), CheckpointAction::ReportUnknown, CheckpointAction::Stop];
            assert(actions_view(v@) =~= registered_spec(mode, c).1);
            (CheckpointPhase::Finished, v)
        },
    }
}

fn verdict_actions(r: &CheckpointReply) -> (v: Vec<CheckpointAction>)
    ensures
        actions_view(v@) == verdict(*r) + seq![ActionView::Sleep(1)],
{
    let v = match r.auth_response {
        Some(CheckpointState::AuthFailed) => vec![CheckpointAction::Show(Notice::AccessDenied), CheckpointAction::Sleep(2), CheckpointAction::Sleep(1)],
        Some(CheckpointState::AuthSuccessful) => vec![CheckpointAction::Show(Notice::AccessGranted), CheckpointAction::Sleep(2), CheckpointAction::Sleep(1)],
        _ => vec![CheckpointAction::Sleep(1)],
    };
    assert(actions_view(v@) =~= verdict(*r) + seq![ActionView::Sleep(1)]);
    v
}

fn scanned_fingerprint(scan: Option<u32>) -> (r: String)
    ensures
        r@ == scanned_text(scan),
{
    let mut s = String::new();
    match scan {
        Some(x) => push_u64(&mut s, x as u64),
        None => push_u64(&mut s, 961),
    }
    s
}

/// One step of the checkpoint.
pub fn checkpoint_step(phase: CheckpointPhase, location: &str, event: CheckpointEvent) -> (r: (CheckpointPhase, Vec<CheckpointAction>))
    ensures
        (r.0, actions_view(r.1@)) == checkpoint_step_spec(phase, location@, event),
{
    let ghost spec = checkpoint_step_spec(phase, location@, event);
    match (phase, event) {
        (CheckpointPhase::Registering { mode, first }, CheckpointEvent::Reply(r)) => {
            if first && is_error_reply(&r) {
                lost_step()
            } else if text_eq(r.status.as_str(), "waiting") {
                let v = vec![CheckpointAction::Sleep(5), CheckpointAction::Resend { admin: 1 }];
                assert(actions_view(v@) =~= spec.1);
                (CheckpointPhase::Registering { mode, first: false }, v)
            } else if !text_eq(r.status.as_str(), "success") {
                let v = vec![CheckpointAction::Show(Notice::InitFailed), CheckpointAction::Sleep(5), CheckpointAction::Stop];
                assert(actions_view(v@) =~= spec.1);
                (CheckpointPhase::Finished, v)
            } else {
                match r.checkpoint_id {
                    Some(c) => registered_step(mode, c),
                    None => {
                        let v = vec![CheckpointAction::Stop];
                        assert(actions_view(v@) =~= spec.1);
                        (CheckpointPhase::Finished, v)
                    },
                }
            }
        },
        (CheckpointPhase::AdminCard { checkpoint_id: c }, CheckpointEvent::Card(read)) => match read {
            CardRead::Token(w) => {
                if w <= 0xffff_ffffu64 {
                    let v = vec![CheckpointAction::OpenDashboard];
                    assert(actions_view(v@) =~= spec.1);
                    (CheckpointPhase::Dashboard { checkpoint_id: c, worker_id: w as u32 }, v)
                } else {
                    lost_step()
                }
            },
            CardRead::Failed => lost_step(),
        },
        (CheckpointPhase::Dashboard { checkpoint_id: c, worker_id: w }, CheckpointEvent::Submitted(sub)) => match sub {
            Some(s) => {
                let done = done_of(&s);
                let request = submission_request(&s, c, w, location);
                let v = vec![CheckpointAction::Send { request, admin: 1 }];
                assert(actions_view(v@) =~= spec.1);
                (CheckpointPhase::FirstApproval { done }, v)
            },
            None => {
                let v = vec![CheckpointAction::Stop];
                assert(actions_view(v@) =~= spec.1);
                (CheckpointPhase::Finished, v)
            },
        },
        (CheckpointPhase::FirstApproval { done }, CheckpointEvent::Reply(r)) => {
            if is_error_reply(&r) {
                lost_step()
            } else if !text_eq(r.status.as_str(), "waiting") {
                let v = vec![CheckpointAction::Show(Notice::Error), CheckpointAction::Stop];
                assert(actions_view(v@) =~= spec.1);
                (CheckpointPhase::Finished, v)
            } else {
                let v = vec![CheckpointAction::Resend { admin: 2 }];
                assert(actions_view(v@) =~= spec.1);
                (CheckpointPhase::SecondApproval { done }, v)
            }
        },
        (CheckpointPhase::SecondApproval { done }, CheckpointEvent::Reply(r)) => {
            if is_error_reply(&r) {
                lost_step()
            } else if text_eq(r.status.as_str(), "success") {
                let v = vec![CheckpointAction::Show(notice_of(done)), CheckpointAction::Stop];
                assert(actions_view(v@) =~= spec.1);
                (CheckpointPhase::Finished, v)
            } else {
                let v = vec![CheckpointAction::Show(Notice::Error), CheckpointAction::Stop];
                assert(actions_view(v@) =~= spec.1);
                (CheckpointPhase::Finished, v)
            }
        },
        (CheckpointPhase::AwaitCard { checkpoint_id: c }, CheckpointEvent::Card(read)) => match read {
            CardRead::Token(w) => {
                if w <= 0xffff_ffffu64 {
                    let worker = w as u32;
                    let request = CheckpointRequest::rfid_auth_request(c, worker);
                    let v = vec![CheckpointAction::Show(Notice::Validating), CheckpointAction::Send { request, admin: 1 }];
                    assert(actions_view(v@) =~= spec.1);
                    (CheckpointPhase::CardCheck { checkpoint_id: c, worker_id: worker }, v)
                } else {
                    let before: Vec<CheckpointAction> = Vec::new();
                    assert(actions_view(before@) =~= Seq::<ActionView>::empty());
                    next_card_step(c, before)
                }
            },
            CardRead::Failed => {
                let before = vec![CheckpointAction::Show(Notice::ScanError), CheckpointAction::Sleep(2)];
                assert(actions_view(before@) =~= seq![ActionView::Show(Notice::ScanError), ActionView::Sleep(2)]);
                next_card_step(c, before)
            },
        },
        (CheckpointPhase::CardCheck { checkpoint_id: c, worker_id: w }, CheckpointEvent::Reply(r)) => {
            if is_error_reply(&r) {
                lost_step()
            } else if r.auth_response == Some(CheckpointState::AuthFailed) {
                let before = vec![CheckpointAction::Show(Notice::AccessDenied), CheckpointAction::Sleep(2)];
                assert(actions_view(before@) =~= seq![ActionView::Show(Notice::AccessDenied), ActionView::Sleep(2)]);
                next_card_step(c, before)
            } else {
                let v = vec![CheckpointAction::Show(Notice::ScanFingerprint), CheckpointAction::ScanFingerprint];
                assert(actions_view(v@) =~= spec.1);
                (CheckpointPhase::AwaitFingerprint { checkpoint_id: c, worker_id: w }, v)
            }
        },
        (CheckpointPhase::AwaitFingerprint { checkpoint_id: c, worker_id: w }, CheckpointEvent::Fingerprint(scan)) => {
            let fingerprint = scanned_fingerprint(scan);
            let request = CheckpointRequest::fingerprint_auth_req(c, w, fingerprint);
            let v = vec![CheckpointAction::Show(Notice::Validating), CheckpointAction::Send { request, admin: 1 }];
            assert(actions_view(v@) =~= spec.1);
            (CheckpointPhase::FingerprintCheck { checkpoint_id: c, worker_id: w }, v)
        },
        (CheckpointPhase::FingerprintCheck { checkpoint_id: c, worker_id: w }, CheckpointEvent::Reply(r)) => {
            if is_error_reply(&r) {
                lost_step()
            } else {
                let before = verdict_actions(&r);
                next_card_step(c, before)
            }
        },
        (p, _) => {
            let v: Vec<CheckpointAction> = Vec::new();
            assert(actions_view(v@) =~= Seq::<ActionView>::empty());
            (p, v)
        },
    }
}

// ---------------------------------------------------------------------
// Laws
// ---------------------------------------------------------------------
/// Access needs both factors: "Access Granted" is shown only
/// on a fingerprint check answered `AuthSuccessful`; a fingerprint check
/// only follows a fingerprint scan of the same worker; and a fingerprint
/// scan only follows a card check of that worker that the port server did
/// not answer with `AuthFailed`.
pub proof fn lemma_granted_needs_card_and_fingerprint(phase: CheckpointPhase, location: Seq<char>, event: CheckpointEvent)
    ensures
        ({
            let (next, acts) = checkpoint_step_spec(phase, location, event);
            &&& (exists|k: int| 0 <= k < acts.len() && acts[k] == ActionView::Show(Notice::AccessGranted)) ==> {
                &&& phase is FingerprintCheck
                &&& event matches CheckpointEvent::Reply(r) && !reply_is_error(r)
                    && r.auth_response == Some(CheckpointState::AuthSuccessful)
            }
            &&& forall|c: u32, w: u32|
                next == CheckpointPhase::FingerprintCheck { checkpoint_id: c, worker_id: w } && phase != next ==> phase
                    == CheckpointPhase::AwaitFingerprint { checkpoint_id: c, worker_id: w }
            &&& forall|c: u32, w: u32|
                next == CheckpointPhase::AwaitFingerprint { checkpoint_id: c, worker_id: w } && phase != next ==> {
                    &&& phase == CheckpointPhase::CardCheck { checkpoint_id: c, worker_id: w }
                    &&& event matches CheckpointEvent::Reply(r) && !reply_is_error(r)
                        && r.auth_response != Some(CheckpointState::AuthFailed)
                }
        }),
{
    let (next, acts) = checkpoint_step_spec(phase, location, event);
    if exists|k: int| 0 <= k < acts.len() && acts[k] == ActionView::Show(Notice::AccessGranted) {
        let k = choose|k: int| 0 <= k < acts.len() && acts[k] == ActionView::Show(Notice::AccessGranted);
        match (phase, event) {
            (CheckpointPhase::FingerprintCheck { checkpoint_id: c, worker_id: w }, CheckpointEvent::Reply(r)) => {
                if !reply_is_error(r) {
                    let tail = seq![ActionView::Sleep(1)];
                    assert(acts == verdict(r) + tail + seq![ActionView::Show(Notice::PleaseScan), ActionView::ReadCard]);
                    if r.auth_response != Some(CheckpointState::AuthSuccessful) {
                        assert(acts[k] != ActionView::Show(Notice::AccessGranted));
                    }
                }
            },
            (CheckpointPhase::AwaitCard { checkpoint_id: c }, CheckpointEvent::Card(read)) => {
                assert(acts[k] != ActionView::Show(Notice::AccessGranted));
            },
            (CheckpointPhase::CardCheck { checkpoint_id: c, worker_id: w }, CheckpointEvent::Reply(r)) => {
                assert(acts[k] != ActionView::Show(Notice::AccessGranted));
            },
            (CheckpointPhase::Registering { mode, first }, CheckpointEvent::Reply(r)) => {
                if !(first && reply_is_error(r)) && r.status@ == "success"@ && r.checkpoint_id is Some {
                    assert(acts == registered_spec(mode, r.checkpoint_id.unwrap()).1);
                }
                assert(acts[k] != ActionView::Show(Notice::AccessGranted));
            },
            _ => {
                assert(acts[k] != ActionView::Show(Notice::AccessGranted));
            },
        }
    }
}

/// A successful registration as `c` goes on by the mode the checkpoint was
/// started in: in dashboard mode it reads the administrator's card, in
/// authentication mode it asks for a worker's card, and only for an unknown
/// mode does it report the mode unknown and stop. It always records `c`.
pub proof fn lemma_registration_by_mode(mode: Mode, first: bool, location: Seq<char>, r: CheckpointReply, c: u32)
    requires
        r.status@ == "success"@,
        r.checkpoint_id == Some(c),
    ensures
        ({
            let (next, acts) = checkpoint_step_spec(
                CheckpointPhase::Registering { mode, first },
                location,
                CheckpointEvent::Reply(r),
            );
            &&& acts.len() > 0 && acts[0] == ActionView::Registered(c)
            &&& mode == Mode::Dashboard ==> next == CheckpointPhase::AdminCard { checkpoint_id: c } && acts.last()
                == ActionView::ReadCard
            &&& mode == Mode::Authenticate ==> next == CheckpointPhase::AwaitCard { checkpoint_id: c } && acts.last()
                == ActionView::ReadCard
            &&& mode == Mode::Unknown ==> next == CheckpointPhase::Finished
            &&& (exists|k: int| 0 <= k < acts.len() && acts[k] == ActionView::ReportUnknown) == (mode == Mode::Unknown)
        }),
{
    reveal_strlit("success");
    reveal_strlit("error");
    reveal_strlit("waiting");
    assert("success"@[0] == 's' && "waiting"@[0] == 'w' && "error"@[0] == 'e');
    assert(!reply_is_error(r));
    assert(r.status@ != "waiting"@);
    let acts = checkpoint_step_spec(CheckpointPhase::Registering { mode, first }, location, CheckpointEvent::Reply(r)).1;
    assert(acts == registered_spec(mode, c).1);
    if mode == Mode::Unknown {
        assert(acts[1] == ActionView::ReportUnknown);
    } else {
        assert forall|k: int| 0 <= k < acts.len() implies acts[k] != ActionView::ReportUnknown by {}
    }
}

/// The function names: `tui` starts the dashboard, `authenticate` the
/// worker checks, and every other name is unknown.
pub proof fn lemma_mode_names(name: Seq<char>)
    ensures
        (mode_spec(name) == Mode::Dashboard) == (name == "tui"@),
        (mode_spec(name) == Mode::Authenticate) == (name == "authenticate"@),
        (mode_spec(name) == Mode::Unknown) == (name != "tui"@ && name != "authenticate"@),
{
    reveal_strlit("tui");
    reveal_strlit("authenticate");
    assert("tui"@.len() == 3 && "authenticate"@.len() == 12);
}

} // verus!
