//! The administrator's terminal dashboard: a menu and three forms (enroll,
//! update, delete), driven key by key. Rendering and reading the terminal
//! are done by the caller; this module decides what each key does and what
//! the screen shows.
use vstd::prelude::*;
use crate::text::{owned, pop_char, push_char, push_str};

verus! {

/// A key, as far as the dashboard tells keys apart.
#[derive(Clone, Copy, Debug, PartialEq, Eq, Structural)]
pub enum Key {
    Char(char),
    Enter,
    Backspace,
    Esc,
    Up,
    Down,
    Tab,
    Other,
}

/// A key press; `control` holds when Control is the one modifier held.
#[derive(Clone, Copy, Debug, PartialEq, Eq, Structural)]
pub struct KeyPress {
    pub code: Key,
    pub control: bool,
}

/// A completed form.
#[derive(Debug)]
pub enum Submission {
    Enroll { name: String, biometric: String, role_id: String, location: String },
    Update { employee_id: String, role_id: String },
    Delete { employee_id: String },
}

/// What the dashboard currently shows.
#[derive(Debug)]
pub enum AppMode {
    Main,
    EnrollForm {
        name: String,
        biometric: String,
        role_id: String,
        location: String,
        active_field: usize,
        editing: bool,
    },
    UpdateForm { employee_id: String, role_id: String, active_field: usize, editing: bool },
    DeleteForm { employee_id: String, editing: bool },
}

/// The dashboard's state.
pub struct App {
    running: bool,
    selected_index: usize,
    mode: AppMode,
    menu_items: Vec<&'static str>,
    submission: Option<Submission>,
}

/// One line of a list on the screen.
pub struct Row {
    pub text: String,
    pub reversed: bool,
    pub underlined: bool,
}

/// What the screen shows: a header, and a titled list.
pub struct Screen {
    pub header: String,
    pub title: String,
    pub rows: Vec<Row>,
}

// ---------------------------------------------------------------------
// The model
// ---------------------------------------------------------------------
pub enum SubmissionView {
    Enroll { name: Seq<char>, biometric: Seq<char>, role_id: Seq<char>, location: Seq<char> },
    Update { employee_id: Seq<char>, role_id: Seq<char> },
    Delete { employee_id: Seq<char> },
}

pub enum ModeView {
    Main,
    Enroll {
        name: Seq<char>,
        biometric: Seq<char>,
        role_id: Seq<char>,
        location: Seq<char>,
        active_field: int,
        editing: bool,
    },
    Update { employee_id: Seq<char>, role_id: Seq<char>, active_field: int, editing: bool },
    Delete { employee_id: Seq<char>, editing: bool },
}

pub struct AppView {
    pub running: bool,
    pub selected_index: int,
    pub mode: ModeView,
    pub submission: Option<SubmissionView>,
}

pub struct RowView {
    pub text: Seq<char>,
    pub reversed: bool,
    pub underlined: bool,
}

impl Submission {
    pub open spec fn view(&self) -> SubmissionView {
        match self {
            Submission::Enroll { name, biometric, role_id, location } => SubmissionView::Enroll {
                name: name@,
                biometric: biometric@,
                role_id: role_id@,
                location: location@,
            },
            Submission::Update { employee_id, role_id } => SubmissionView::Update {
                employee_id: employee_id@,
                role_id: role_id@,
            },
            Submission::Delete { employee_id } => SubmissionView::Delete { employee_id: employee_id@ },
        }
    }
}

impl AppMode {
    pub open spec fn view(&self) -> ModeView {
        match self {
            AppMode::Main => ModeView::Main,
            AppMode::EnrollForm { name, biometric, role_id, location, active_field, editing } =>
                ModeView::Enroll {
                name: name@,
                biometric: biometric@,
                role_id: role_id@,
                location: location@,
                active_field: *active_field as int,
                editing: *editing,
            },
            AppMode::UpdateForm { employee_id, role_id, active_field, editing } => ModeView::Update {
                employee_id: employee_id@,
                role_id: role_id@,
                active_field: *active_field as int,
                editing: *editing,
            },
            AppMode::DeleteForm { employee_id, editing } => ModeView::Delete {
                employee_id: employee_id@,
                editing: *editing,
            },
        }
    }
}

impl Row {
    pub open spec fn view(&self) -> RowView {
        RowView { text: self.text@, reversed: self.reversed, underlined: self.underlined }
    }
}

/// The entries of the main menu.
pub open spec fn menu_texts() -> Seq<Seq<char>> {
    seq!["Enroll new employee"@, "Update existing employee"@, "Delete existing employee"@]
}

/// An empty form of each kind, in menu order.
pub open spec fn empty_form(choice: int) -> ModeView {
    if choice == 0 {
        ModeView::Enroll {
            name: Seq::empty(),
            biometric: Seq::empty(),
            role_id: Seq::empty(),
            location: Seq::empty(),
            active_field: 0,
            editing: false,
        }
    } else if choice == 1 {
        ModeView::Update {
            employee_id: Seq::empty(),
            role_id: Seq::empty(),
            active_field: 0,
            editing: false,
        }
    } else {
        ModeView::Delete { employee_id: Seq::empty(), editing: false }
    }
}

/// A text after Backspace.
pub open spec fn backspace(s: Seq<char>) -> Seq<char> {
    if s.len() > 0 {
        s.drop_last()
    } else {
        s
    }
}

/// The text after one key while it is being edited: Backspace removes the
/// last character, a character key appends it.
pub open spec fn edit(s: Seq<char>, code: Key) -> Seq<char> {
    match code {
        Key::Backspace => backspace(s),
        Key::Char(c) => s.push(c),
        _ => s,
    }
}

/// Moving the highlight in a form with `n` fields.
pub open spec fn move_field(f: int, code: Key, n: int) -> int {
    match code {
        Key::Up => if f > 0 { f - 1 } else { f },
        Key::Char('k') => if f > 0 { f - 1 } else { f },
        Key::Down => if f < n - 1 { f + 1 } else { f },
        Key::Char('j') => if f < n - 1 { f + 1 } else { f },
        Key::Tab => (f + 1) % n,
        _ => f,
    }
}

pub open spec fn is_quit_key(k: KeyPress) -> bool {
    k.code == Key::Char('q') || (k.control && k.code == Key::Char('c'))
}

pub open spec fn is_submit_key(k: KeyPress) -> bool {
    k.control && k.code == Key::Char('s')
}

/// What one key press does to the dashboard.
pub open spec fn key_step(s: AppView, k: KeyPress) -> AppView {
    if is_quit_key(k) {
        AppView { running: false, ..s }
    } else {
        match s.mode {
            ModeView::Main => {
                match k.code {
                    Key::Esc => AppView { running: false, ..s },
                    Key::Up => AppView { selected_index: if s.selected_index > 0 { s.selected_index - 1 } else { s.selected_index }, ..s },
                    Key::Char('k') => AppView { selected_index: if s.selected_index > 0 { s.selected_index - 1 } else { s.selected_index }, ..s },
                    Key::Down => AppView { selected_index: if s.selected_index < 2 { s.selected_index + 1 } else { s.selected_index }, ..s },
                    Key::Char('j') => AppView { selected_index: if s.selected_index < 2 { s.selected_index + 1 } else { s.selected_index }, ..s },
                    Key::Enter => AppView { mode: empty_form(s.selected_index), ..s },
                    _ => s,
                }
            },
            ModeView::Enroll { name, biometric, role_id, location, active_field, editing } => {
                if editing {
                    if k.code == Key::Enter {
                        AppView { mode: ModeView::Enroll { name, biometric, role_id, location, active_field, editing: false }, ..s }
                    } else {
                        AppView {
                            mode: ModeView::Enroll {
                                name: if active_field == 0 { edit(name, k.code) } else { name },
                                biometric: if active_field == 1 { edit(biometric, k.code) } else { biometric },
                                role_id: if active_field == 2 { edit(role_id, k.code) } else { role_id },
                                location: if active_field == 3 { edit(location, k.code) } else { location },
                                active_field,
                                editing,
                            },
                            ..s
                        }
                    }
                } else if is_submit_key(k) {
                    AppView {
                        running: false,
                        submission: Some(SubmissionView::Enroll { name, biometric, role_id, location }),
                        ..s
                    }
                } else if k.code == Key::Enter {
                    AppView { mode: ModeView::Enroll { name, biometric, role_id, location, active_field, editing: true }, ..s }
                } else if k.code == Key::Esc {
                    AppView { mode: ModeView::Main, ..s }
                } else {
                    AppView {
                        mode: ModeView::Enroll {
                            name,
                            biometric,
                            role_id,
                            location,
                            active_field: move_field(active_field, k.code, 4),
                            editing,
                        },
                        ..s
                    }
                }
            },
            ModeView::Update { employee_id, role_id, active_field, editing } => {
                if editing {
                    if k.code == Key::Enter {
                        AppView { mode: ModeView::Update { employee_id, role_id, active_field, editing: false }, ..s }
                    } else {
                        AppView {
                            mode: ModeView::Update {
                                employee_id: if active_field == 0 { edit(employee_id, k.code) } else { employee_id },
                                role_id: if active_field == 1 { edit(role_id, k.code) } else { role_id },
                                active_field,
                                editing,
                            },
                            ..s
                        }
                    }
                } else if is_submit_key(k) {
                    AppView {
                        running: false,
                        submission: Some(SubmissionView::Update { employee_id, role_id }),
                        ..s
                    }
                } else if k.code == Key::Enter {
                    AppView { mode: ModeView::Update { employee_id, role_id, active_field, editing: true }, ..s }
                } else if k.code == Key::Esc {
                    AppView { mode: ModeView::Main, ..s }
                } else {
                    AppView {
                        mode: ModeView::Update {
                            employee_id,
                            role_id,
                            active_field: move_field(active_field, k.code, 2),
                            editing,
                        },
                        ..s
                    }
                }
            },
            ModeView::Delete { employee_id, editing } => {
                if editing {
                    if k.code == Key::Enter {
                        AppView { mode: ModeView::Delete { employee_id, editing: false }, ..s }
                    } else {
                        AppView { mode: ModeView::Delete { employee_id: edit(employee_id, k.code), editing }, ..s }
                    }
                } else if is_submit_key(k) {
                    AppView {
                        running: false,
                        submission: Some(SubmissionView::Delete { employee_id }),
                        ..s
                    }
                } else if k.code == Key::Enter {
                    AppView { mode: ModeView::Delete { employee_id, editing: true }, ..s }
                } else if k.code == Key::Esc {
                    AppView { mode: ModeView::Main, ..s }
                } else {
                    s
                }
            },
        }
    }
}

/// The invariant of the dashboard: the highlight is on an existing menu
/// entry and on an existing form field.
pub open spec fn view_wf(s: AppView) -> bool {
    &&& 0 <= s.selected_index < 3
    &&& match s.mode {
        ModeView::Enroll { active_field, .. } => 0 <= active_field < 4,
        ModeView::Update { active_field, .. } => 0 <= active_field < 2,
        _ => true,
    }
}

// ---------------------------------------------------------------------
// Laws of the dashboard
// ---------------------------------------------------------------------
/// Submitting a form hands over each field under the label it is shown
/// with: the enroll submission's name, biometric, role and location are the
/// texts the screen shows after "Name: ", "Biometric: ", "Role ID: " and
/// "Location: ", and the update submission's employee and role those after
/// "Employee ID: " and "Role ID: ".
pub proof fn lemma_submission_matches_screen(s: AppView, k: KeyPress)
    requires
        is_submit_key(k),
        s.mode is Enroll ==> !s.mode->Enroll_editing,
        s.mode is Update ==> !s.mode->Update_editing,
    ensures
        s.mode is Enroll ==> {
            let (n, b, r, l) = (s.mode->Enroll_name, s.mode->Enroll_biometric, s.mode->Enroll_role_id, s.mode->Enroll_location);
            &&& key_step(s, k).submission == Some(SubmissionView::Enroll { name: n, biometric: b, role_id: r, location: l })
            &&& rows_spec(s)[0].text == "Name: "@ + n
            &&& rows_spec(s)[1].text == "Biometric: "@ + b
            &&& rows_spec(s)[2].text == "Role ID: "@ + r
            &&& rows_spec(s)[3].text == "Location: "@ + l
        },
        s.mode is Update ==> {
            let (e, r) = (s.mode->Update_employee_id, s.mode->Update_role_id);
            &&& key_step(s, k).submission == Some(SubmissionView::Update { employee_id: e, role_id: r })
            &&& rows_spec(s)[0].text == "Employee ID: "@ + e
            &&& rows_spec(s)[1].text == "Role ID: "@ + r
        },
{
}

/// Enter on the main menu opens, empty, the form that the highlighted entry
/// names.
pub proof fn lemma_menu_opens_named_form(s: AppView)
    requires
        s.mode is Main,
        0 <= s.selected_index < 3,
    ensures
        ({
            let t = rows_spec(s)[s.selected_index].text;
            let m = key_step(s, KeyPress { code: Key::Enter, control: false }).mode;
            &&& rows_spec(s)[s.selected_index].reversed
            &&& t == "Enroll new employee"@ ==> m == ModeView::Enroll {
                name: Seq::empty(),
                biometric: Seq::empty(),
                role_id: Seq::empty(),
                location: Seq::empty(),
                active_field: 0,
                editing: false,
            }
            &&& t == "Update existing employee"@ ==> m == ModeView::Update {
                employee_id: Seq::empty(),
                role_id: Seq::empty(),
                active_field: 0,
                editing: false,
            }
            &&& t == "Delete existing employee"@ ==> m == ModeView::Delete { employee_id: Seq::empty(), editing: false }
        }),
{
    reveal_strlit("Enroll new employee");
    reveal_strlit("Update existing employee");
    reveal_strlit("Delete existing employee");
    assert("Enroll new employee"@[0] == 'E' && "Update existing employee"@[0] == 'U' && "Delete existing employee"@[0]
        == 'D');
}

/// Typing into the update form while it is edited adds the character to the
/// highlighted row's text and leaves the other row's text as it was.
pub proof fn lemma_typing_fills_highlighted_update_row(s: AppView, c: char, i: int)
    requires
        s.mode is Update,
        s.mode->Update_editing,
        0 <= s.mode->Update_active_field < 2,
        c != 'q',
        0 <= i < 2,
    ensures
        ({
            let k = KeyPress { code: Key::Char(c), control: false };
            let before = rows_spec(s)[i];
            let after = rows_spec(key_step(s, k))[i];
            &&& before.reversed ==> after.text == before.text.push(c)
            &&& !before.reversed ==> after.text == before.text
        }),
{
    let e = s.mode->Update_employee_id;
    let r = s.mode->Update_role_id;
    assert(("Employee ID: "@ + e).push(c) == "Employee ID: "@ + e.push(c));
    assert(("Role ID: "@ + r).push(c) == "Role ID: "@ + r.push(c));
}

/// Typing into a form being edited adds the character to the highlighted
/// row's text and leaves the other rows' texts as they were.
pub proof fn lemma_typing_fills_highlighted_row(s: AppView, c: char, i: int)
    requires
        s.mode is Enroll,
        s.mode->Enroll_editing,
        0 <= s.mode->Enroll_active_field < 4,
        c != 'q',
        0 <= i < 4,
    ensures
        ({
            let k = KeyPress { code: Key::Char(c), control: false };
            let before = rows_spec(s)[i];
            let after = rows_spec(key_step(s, k))[i];
            &&& before.reversed ==> after.text == before.text.push(c)
            &&& !before.reversed ==> after.text == before.text
        }),
{
    let k = KeyPress { code: Key::Char(c), control: false };
    let ns = key_step(s, k);
    match s.mode {
        ModeView::Enroll { name, biometric, role_id, location, active_field, editing } => {
            assert(("Name: "@ + name).push(c) == "Name: "@ + name.push(c));
            assert(("Biometric: "@ + biometric).push(c) == "Biometric: "@ + biometric.push(c));
            assert(("Role ID: "@ + role_id).push(c) == "Role ID: "@ + role_id.push(c));
            assert(("Location: "@ + location).push(c) == "Location: "@ + location.push(c));
        },
        _ => {},
    }
}

/// `q`, or Control with `c`, stops the dashboard whatever it shows.
pub proof fn lemma_quit_key_stops(s: AppView, k: KeyPress)
    requires
        is_quit_key(k),
    ensures
        !key_step(s, k).running,
{
}

/// A key that submits a form also stops the dashboard.
pub proof fn lemma_submission_stops(s: AppView, k: KeyPress)
    requires
        s.submission is None,
        key_step(s, k).submission is Some,
    ensures
        !key_step(s, k).running,
{
}

/// A form field is being edited.
pub open spec fn is_editing(m: ModeView) -> bool {
    match m {
        ModeView::Enroll { editing, .. } => editing,
        ModeView::Update { editing, .. } => editing,
        ModeView::Delete { editing, .. } => editing,
        ModeView::Main => false,
    }
}

/// While a field is being edited, typing a character other than `q` and
/// then Backspace leaves the dashboard as it was.
pub proof fn lemma_type_then_backspace(s: AppView, c: char)
    requires
        is_editing(s.mode),
        c != 'q',
    ensures
        key_step(
            key_step(s, KeyPress { code: Key::Char(c), control: false }),
            KeyPress { code: Key::Backspace, control: false },
        ) == s,
{
    let k1 = KeyPress { code: Key::Char(c), control: false };
    let k2 = KeyPress { code: Key::Backspace, control: false };
    assert(!is_quit_key(k1));
    assert(!is_quit_key(k2));
    let s1 = key_step(s, k1);
    match s.mode {
        ModeView::Enroll { name, biometric, role_id, location, active_field, editing } => {
            assert(name.push(c).drop_last() == name);
            assert(biometric.push(c).drop_last() == biometric);
            assert(role_id.push(c).drop_last() == role_id);
            assert(location.push(c).drop_last() == location);
        },
        ModeView::Update { employee_id, role_id, active_field, editing } => {
            assert(employee_id.push(c).drop_last() == employee_id);
            assert(role_id.push(c).drop_last() == role_id);
        },
        ModeView::Delete { employee_id, editing } => {
            assert(employee_id.push(c).drop_last() == employee_id);
        },
        ModeView::Main => {},
    }
}

// ---------------------------------------------------------------------
// What the screen shows
// ---------------------------------------------------------------------
pub open spec fn header_spec(m: ModeView) -> Seq<char> {
    match m {
        ModeView::Main => "Employee Management Dashboard\nUse arrow keys or j/k to navigate. Enter to select/activate a field.\nPress Ctrl+S to submit a form, Esc to cancel, q or Ctrl+C to quit."@,
        ModeView::Enroll { .. } => "Enroll New Employee\nPress Enter on a field to start/stop editing (j/k won\u{2019}t navigate while editing).\nPress Ctrl+S to submit, Esc to cancel."@,
        ModeView::Update { .. } => "Update Employee\nPress Enter on a field to start/stop editing (j/k won\u{2019}t navigate while editing).\nPress Ctrl+S to submit, Esc to cancel."@,
        ModeView::Delete { .. } => "Delete Employee\nPress Enter to start/stop editing the Employee ID.\nPress Ctrl+S to submit, Esc to cancel."@,
    }
}

pub open spec fn title_spec(m: ModeView) -> Seq<char> {
    match m {
        ModeView::Main => "Main Menu (q, Esc, Ctrl+C: quit)"@,
        ModeView::Enroll { .. } => "Enroll New Employee (Enter: edit field, Ctrl+S: submit, Esc: cancel)"@,
        ModeView::Update { .. } => "Update Employee (Enter: edit field, Ctrl+S: submit, Esc: cancel)"@,
        ModeView::Delete { .. } => "Delete Employee (Enter: edit field, Ctrl+S: submit, Esc: cancel)"@,
    }
}

/// A form field: highlighted when active, underlined when also being edited.
pub open spec fn field_row(label: Seq<char>, value: Seq<char>, i: int, active: int, editing: bool) -> RowView {
    RowView { text: label + value, reversed: i == active, underlined: i == active && editing }
}

pub open spec fn rows_spec(s: AppView) -> Seq<RowView> {
    match s.mode {
        ModeView::Main => Seq::new(
            3,
            |i: int| RowView { text: menu_texts()[i], reversed: i == s.selected_index, underlined: false },
        ),
        ModeView::Enroll { name, biometric, role_id, location, active_field, editing } => seq![
            field_row("Name: "@, name, 0, active_field, editing),
            field_row("Biometric: "@, biometric, 1, active_field, editing),
            field_row("Role ID: "@, role_id, 2, active_field, editing),
            field_row("Location: "@, location, 3, active_field, editing),
        ],
        ModeView::Update { employee_id, role_id, active_field, editing } => seq![
            field_row("Employee ID: "@, employee_id, 0, active_field, editing),
            field_row("Role ID: "@, role_id, 1, active_field, editing),
        ],
        ModeView::Delete { employee_id, editing } => seq![
            RowView { text: "Employee ID: "@ + employee_id, reversed: editing, underlined: editing },
        ],
    }
}

// ---------------------------------------------------------------------
// The implementation
// ---------------------------------------------------------------------
fn push_field(s: String, code: Key) -> (r: String)
    ensures
        r@ == edit(s@, code),
{
    let mut s = s;
    match code {
        Key::Backspace => {
            let _ = pop_char(&mut s);
        },
        Key::Char(c) => {
            push_char(&mut s, c);
        },
        _ => {},
    }
    s
}

fn moved_field(f: usize, code: Key, n: usize) -> (r: usize)
    requires
        0 <= f < n,
        n > 0,
    ensures
        r as int == move_field(f as int, code, n as int),
        r < n,
{
    match code {
        Key::Up => if f > 0 { f - 1 } else { f },
        Key::Down => if f < n - 1 { f + 1 } else { f },
        Key::Tab => (f + 1) % n,
        Key::Char(c) => {
            if c == 'k' {
                if f > 0 { f - 1 } else { f }
            } else if c == 'j' {
                if f < n - 1 { f + 1 } else { f }
            } else {
                f
            }
        },
        _ => f,
    }
}

fn is_char(k: Key, c: char) -> (r: bool)
    ensures
        r == (k == Key::Char(c)),
{
    match k {
        Key::Char(d) => d == c,
        _ => false,
    }
}

fn field_row_exec(label: &str, value: &String, i: usize, active: usize, editing: bool) -> (r: Row)
    ensures
        r@ == field_row(label@, value@, i as int, active as int, editing),
{
    let mut text = owned(label);
    push_str(&mut text, value.as_str());
    Row { text, reversed: i == active, underlined: i == active && editing }
}

impl App {
    pub closed spec fn view(&self) -> AppView {
        AppView {
            running: self.running,
            selected_index: self.selected_index as int,
            mode: self.mode.view(),
            submission: match self.submission {
                Some(sub) => Some(sub.view()),
                None => None,
            },
        }
    }

    /// The state stays within the menu and the form fields.
    pub closed spec fn wf(&self) -> bool {
        &&& self.menu_items@.len() == 3
        &&& forall|i: int| 0 <= i < 3 ==> (#[trigger] self.menu_items@[i])@ == menu_texts()[i]
        &&& view_wf(self.view())
    }

    /// A well-formed dashboard's selection is one of the three menu
    /// entries, and its active form field is one of the form's fields.
    pub proof fn lemma_wf_view(&self)
        requires
            self.wf(),
        ensures
            view_wf(self.view()),
    {
    }

    /// A dashboard on the main menu, first entry highlighted, nothing submitted.
    pub fn new() -> (r: App)
        ensures
            r.wf(),
            r.view() == (AppView { running: false, selected_index: 0, mode: ModeView::Main, submission: None }),
    {
        let menu_items: Vec<&'static str> = vec!["Enroll new employee", "Update existing employee", "Delete existing employee"];
        App { running: false, selected_index: 0, mode: AppMode::Main, menu_items, submission: None }
    }

    /// Whether the dashboard still takes keys.
    pub fn is_running(&self) -> (r: bool)
        ensures
            r == self.view().running,
    {
        self.running
    }

    /// Starts taking keys.
    pub fn start(&mut self)
        requires
            old(self).wf(),
        ensures
            final(self).wf(),
            final(self).view() == (AppView { running: true, ..old(self).view() }),
    {
        self.running = true;
    }

    /// Hands over the submitted form, if any; nothing remains submitted.
    pub fn take_submission(&mut self) -> (r: Option<Submission>)
        requires
            old(self).wf(),
        ensures
            final(self).wf(),
            final(self).view() == (AppView { submission: None, ..old(self).view() }),
            match r {
                Some(sub) => old(self).view().submission == Some(sub.view()),
                None => old(self).view().submission is None,
            },
    {
        self.submission.take()
    }

    /// Handles one key press.
    pub fn on_key_event(&mut self, key: KeyPress)
        requires
            old(self).wf(),
        ensures
            final(self).wf(),
            final(self).view() == key_step(old(self).view(), key),
    {
        if is_char(key.code, 'q') || (key.control && is_char(key.code, 'c')) {
            self.running = false;
            return;
        }
        let ghost s = self.view();
        let mut mode = AppMode::Main;
        std::mem::swap(&mut mode, &mut self.mode);
        match mode {
            AppMode::Main => {
                match key.code {
                    Key::Esc => {
                        self.running = false;
                    },
                    Key::Up => {
                        if self.selected_index > 0 {
                            self.selected_index = self.selected_index - 1;
                        }
                    },
                    Key::Down => {
                        if self.selected_index < self.menu_items.len() - 1 {
                            self.selected_index = self.selected_index + 1;
                        }
                    },
                    Key::Enter => {
                        if self.selected_index == 0 {
                            self.mode = AppMode::EnrollForm {
                                name: String::new(),
                                biometric: String::new(),
                                role_id: String::new(),
                                location: String::new(),
                                active_field: 0,
                                editing: false,
                            };
                        } else if self.selected_index == 1 {
                            self.mode = AppMode::UpdateForm {
                                employee_id: String::new(),
                                role_id: String::new(),
                                active_field: 0,
                                editing: false,
                            };
                        } else if self.selected_index == 2 {
                            self.mode = AppMode::DeleteForm { employee_id: String::new(), editing: false };
                        }
                    },
                    Key::Char(c) => {
                        if c == 'k' {
                            if self.selected_index > 0 {
                                self.selected_index = self.selected_index - 1;
                            }
                        } else if c == 'j' {
                            if self.selected_index < self.menu_items.len() - 1 {
                                self.selected_index = self.selected_index + 1;
                            }
                        }
                    },
                    _ => {},
                }
            },
            AppMode::EnrollForm { name, biometric, role_id, location, active_field, editing } => {
                if editing {
                    if key.code == Key::Enter {
                        self.mode = AppMode::EnrollForm { name, biometric, role_id, location, active_field, editing: false };
                    } else {
                        let name = if active_field == 0 { push_field(name, key.code) } else { name };
                        let biometric = if active_field == 1 { push_field(biometric, key.code) } else { biometric };
                        let role_id = if active_field == 2 { push_field(role_id, key.code) } else { role_id };
                        let location = if active_field == 3 { push_field(location, key.code) } else { location };
                        self.mode = AppMode::EnrollForm { name, biometric, role_id, location, active_field, editing };
                    }
                } else if key.control && is_char(key.code, 's') {
                    self.submission = Some(Submission::Enroll {
                        name: name.clone(),
                        biometric: biometric.clone(),
                        role_id: role_id.clone(),
                        location: location.clone(),
                    });
                    self.mode = AppMode::EnrollForm { name, biometric, role_id, location, active_field, editing };
                    self.running = false;
                } else if key.code == Key::Enter {
                    self.mode = AppMode::EnrollForm { name, biometric, role_id, location, active_field, editing: true };
                } else if key.code == Key::Esc {
                    self.mode = AppMode::Main;
                } else {
                    let active_field = moved_field(active_field, key.code, 4);
                    self.mode = AppMode::EnrollForm { name, biometric, role_id, location, active_field, editing };
                }
            },
            AppMode::UpdateForm { employee_id, role_id, active_field, editing } => {
                if editing {
                    if key.code == Key::Enter {
                        self.mode = AppMode::UpdateForm { employee_id, role_id, active_field, editing: false };
                    } else {
                        let employee_id = if active_field == 0 { push_field(employee_id, key.code) } else { employee_id };
                        let role_id = if active_field == 1 { push_field(role_id, key.code) } else { role_id };
                        self.mode = AppMode::UpdateForm { employee_id, role_id, active_field, editing };
                    }
                } else if key.control && is_char(key.code, 's') {
                    self.submission = Some(Submission::Update {
                        employee_id: employee_id.clone(),
                        role_id: role_id.clone(),
                    });
                    self.mode = AppMode::UpdateForm { employee_id, role_id, active_field, editing };
                    self.running = false;
                } else if key.code == Key::Enter {
                    self.mode = AppMode::UpdateForm { employee_id, role_id, active_field, editing: true };
                } else if key.code == Key::Esc {
                    self.mode = AppMode::Main;
                } else {
                    let active_field = moved_field(active_field, key.code, 2);
                    self.mode = AppMode::UpdateForm { employee_id, role_id, active_field, editing };
                }
            },
            AppMode::DeleteForm { employee_id, editing } => {
                if editing {
                    if key.code == Key::Enter {
                        self.mode = AppMode::DeleteForm { employee_id, editing: false };
                    } else {
                        let employee_id = push_field(employee_id, key.code);
                        self.mode = AppMode::DeleteForm { employee_id, editing };
                    }
                } else if key.control && is_char(key.code, 's') {
                    self.submission = Some(Submission::Delete { employee_id: employee_id.clone() });
                    self.mode = AppMode::DeleteForm { employee_id, editing };
                    self.running = false;
                } else if key.code == Key::Enter {
                    self.mode = AppMode::DeleteForm { employee_id, editing: true };
                } else if key.code == Key::Esc {
                    self.mode = AppMode::Main;
                } else {
                    self.mode = AppMode::DeleteForm { employee_id, editing };
                }
            },
        }
    }

    /// What the screen shows in the current state.
    pub fn screen(&self) -> (r: Screen)
        requires
            self.wf(),
        ensures
            r.header@ == header_spec(self.view().mode),
            r.title@ == title_spec(self.view().mode),
            r.rows@.map_values(|row: Row| row@) == rows_spec(self.view()),
    {
        let mut rows: Vec<Row> = Vec::new();
        match &self.mode {
            AppMode::Main => {
                let header = owned("Employee Management Dashboard\nUse arrow keys or j/k to navigate. Enter to select/activate a field.\nPress Ctrl+S to submit a form, Esc to cancel, q or Ctrl+C to quit.");
                let title = owned("Main Menu (q, Esc, Ctrl+C: quit)");
                let mut i: usize = 0;
                while i < self.menu_items.len()
                    invariant
                        self.wf(),
                        self.view().mode is Main,
                        i <= 3,
                        rows@.len() == i,
                        forall|j: int| 0 <= j < i ==> (#[trigger] rows@[j])@ == rows_spec(self.view())[j],
                    decreases 3 - i,
                {
                    rows.push(Row { text: owned(self.menu_items[i]), reversed: i == self.selected_index, underlined: false });
                    i = i + 1;
                }
                assert(rows@.map_values(|row: Row| row@) == rows_spec(self.view()));
                Screen { header, title, rows }
            },
            AppMode::EnrollForm { name, biometric, role_id, location, active_field, editing } => {
                let header = owned("Enroll New Employee\nPress Enter on a field to start/stop editing (j/k won\u{2019}t navigate while editing).\nPress Ctrl+S to submit, Esc to cancel.");
                let title = owned("Enroll New Employee (Enter: edit field, Ctrl+S: submit, Esc: cancel)");
                rows.push(field_row_exec("Name: ", name, 0, *active_field, *editing));
                rows.push(field_row_exec("Biometric: ", biometric, 1, *active_field, *editing));
                rows.push(field_row_exec("Role ID: ", role_id, 2, *active_field, *editing));
                rows.push(field_row_exec("Location: ", location, 3, *active_field, *editing));
                assert(rows@.map_values(|row: Row| row@) == rows_spec(self.view()));
                Screen { header, title, rows }
            },
            AppMode::UpdateForm { employee_id, role_id, active_field, editing } => {
                let header = owned("Update Employee\nPress Enter on a field to start/stop editing (j/k won\u{2019}t navigate while editing).\nPress Ctrl+S to submit, Esc to cancel.");
                let title = owned("Update Employee (Enter: edit field, Ctrl+S: submit, Esc: cancel)");
                rows.push(field_row_exec("Employee ID: ", employee_id, 0, *active_field, *editing));
                rows.push(field_row_exec("Role ID: ", role_id, 1, *active_field, *editing));
                assert(rows@.map_values(|row: Row| row@) == rows_spec(self.view()));
                Screen { header, title, rows }
            },
            AppMode::DeleteForm { employee_id, editing } => {
                let header = owned("Delete Employee\nPress Enter to start/stop editing the Employee ID.\nPress Ctrl+S to submit, Esc to cancel.");
                let title = owned("Delete Employee (Enter: edit field, Ctrl+S: submit, Esc: cancel)");
                let mut text = owned("Employee ID: ");
                push_str(&mut text, employee_id.as_str());
                rows.push(Row { text, reversed: *editing, underlined: *editing });
                assert(rows@.map_values(|row: Row| row@) == rows_spec(self.view()));
                Screen { header, title, rows }
            },
        }
    }
}

impl Default for App {
    fn default() -> (r: App)
        ensures
            r.wf(),
            r.view() == (AppView { running: false, selected_index: 0, mode: ModeView::Main, submission: None }),
    {
        App::new()
    }
}

} // verus!
