//! The modal control state machine of a journal session.
//!
//! The machine sequences authentication, date selection, editing and
//! persistence. It is driven by one outer event loop in the embedding
//! program: the host translates terminal input into [`Event`] values, feeds
//! them to [`App::step`], performs the [`Action`] each step returns (read a
//! file, write a file, quit), and reports completions back as events. No
//! state other than `Edit`, `SetDate`, `Delete` and `AskToSave` reads or
//! mutates document content, and each of those is reached only through a
//! successful load or creation path.

use vstd::prelude::*;

use crate::date::Date;
use crate::diary::{error_message, header_ok, opens_to, Diary, DiaryError, FileError};
use crate::model::{with_default, with_snapshot, EntryModel};
use crate::ui::{
    decremented, form_step, incremented, next_selection, prev_selection, CurrentlySelected,
    DateSelection, FormKey, PasswordForm, PasswordFormMode,
};

verus! {

/// The modal states of the session.
#[derive(Clone, Copy, PartialEq, Eq, Structural, Debug)]
pub enum AppMode {
    Edit,
    AskToSave,
    Password,
    Exit,
    SetDate,
    Delete,
    GetFile,
}

impl Default for AppMode {
    fn default() -> (r: Self)
        ensures
            r == AppMode::Edit,
    {
        AppMode::Edit
    }
}

/// Sub-stage of the `GetFile` flow.
#[derive(Clone, Copy, PartialEq, Eq, Structural, Debug)]
pub enum GetFileStage {
    /// Editing the path of the container to open.
    EnterPath,
    /// A read of that path was requested; waiting for its outcome.
    AwaitRead,
    /// The file does not exist; asking whether to create it.
    ConfirmCreate,
    /// Creation of the file was requested; waiting for its outcome.
    AwaitCreate,
    /// Collecting a fresh credential for the new container.
    NewCredential,
}

/// Sub-stage of the `Password` flow.
#[derive(Clone, Copy, PartialEq, Eq, Structural, Debug)]
pub enum PasswordStage {
    /// Editing the credential.
    EnterSecret,
    /// A read of the remembered path was requested; waiting for it.
    AwaitRead,
}

/// One event fed to the machine: a key, as the host translates it, or the
/// completion of a previously returned action.
pub enum Event {
    /// A printable key.
    Char(char),
    Backspace,
    Enter,
    Esc,
    Up,
    Down,
    Left,
    Right,
    /// In `Edit`: an ordinary key was forwarded to the entry buffer; the
    /// payload is the buffer's reported mutation flag.
    Editor(bool),
    /// In `Edit`: a save was requested; the payload is a freshly captured
    /// snapshot of every entry buffer's current content.
    SaveRequest(Vec<(Date, String)>),
    /// In `Edit`: a date change was requested.
    DateRequest,
    /// In `Edit`: deletion of the selected entry was requested.
    DeleteRequest,
    /// Outcome of a requested file read.
    FileRead(Result<Vec<u8>, FileError>),
    /// Outcome of a requested file creation.
    Created(bool),
    /// Outcome of a requested file write.
    Saved(bool),
}

/// What the host must do after a step.
pub enum Action {
    /// Nothing; redraw and poll the next event.
    Nothing,
    /// Read the file at this path and send back `Event::FileRead`.
    ReadFile(String),
    /// Create an empty file at this path and send back `Event::Created`.
    CreateFile(String),
    /// Replace the file at this path with these container bytes and send
    /// back `Event::Saved`.
    WriteFile(String, Vec<u8>),
    /// Release the interactive resources and end the session.
    Quit,
}

/// The session state: the machine's mode with its sub-state, the working
/// set of entries, and the credential.
pub struct App {
    /// Path of the container file.
    pub path: String,
    /// The selected day; its entry is the one being edited.
    pub date: Date,
    /// The session's notion of the current day.
    pub today: Date,
    /// The working set of entries.
    pub entries: EntryModel,
    pub mode: AppMode,
    /// False whenever the buffers hold changes not yet confirmed written.
    pub saved: bool,
    /// The session credential.
    pub password: String,
    /// The single-line input of the `GetFile` and `Password` prompts.
    pub field: Vec<char>,
    /// Message shown beside the prompt after a failure.
    pub hint: &'static str,
    /// The credential-creation form.
    pub form: PasswordForm,
    /// The date-picker state.
    pub picker: DateSelection,
    pub file_stage: GetFileStage,
    pub pw_stage: PasswordStage,
    /// Whether the running `SetDate` flow was forced by a deletion.
    pub from_delete: bool,
}

/// A loaded document as adopted by the session: an entry is ensured for the
/// current day and for the selected day.
pub open spec fn adopted(m: Map<Date, Seq<char>>, today: Date, sel: Date) -> Map<Date, Seq<char>> {
    with_default(with_default(m, today), sel)
}

/// The credential the form yields for one key event, when it yields one.
pub open spec fn form_out(f: PasswordForm, k: FormKey) -> Option<Seq<char>> {
    match f.mode {
        PasswordFormMode::Typing => None,
        PasswordFormMode::Retyping => match k {
            FormKey::Enter => if f.og@ == f.retype@ {
                Some(f.og@)
            } else {
                None
            },
            _ => None,
        },
        PasswordFormMode::Submitted => Some(f.og@),
    }
}

/// The form key a machine event stands for, where it stands for one.
pub open spec fn form_key_of(ev: Event) -> Option<FormKey> {
    match ev {
        Event::Char(c) => Some(FormKey::Char(c)),
        Event::Backspace => Some(FormKey::Backspace),
        Event::Enter => Some(FormKey::Enter),
        _ => None,
    }
}

impl App {
    /// The machine's invariant: all dates are calendar days, the working
    /// set is well formed, and every content-bearing state has an entry for
    /// the selected day — except a date re-selection forced by a deletion,
    /// which exists to restore that very property.
    pub open spec fn wf(self) -> bool {
        &&& self.date.wf()
        &&& self.today.wf()
        &&& self.entries.wf()
        &&& self.picker.date.wf()
        &&& (self.mode == AppMode::Edit || self.mode == AppMode::Delete || self.mode
            == AppMode::AskToSave) ==> self.entries@.contains_key(self.date)
        &&& (self.mode == AppMode::SetDate && !self.from_delete) ==> self.entries@.contains_key(
            self.date,
        )
    }
}

/// The `GetFile` flow: obtain a candidate path, try an empty-credential
/// load, and branch on the outcome — straight into editing, to the password
/// prompt, to file creation, or back to the prompt with the reason shown.
pub open spec fn get_file_step(pre: App, ev: Event, post: App, a: Action) -> bool {
    match pre.file_stage {
        GetFileStage::EnterPath => match ev {
            Event::Char(c) => a is Nothing && post == (App { field: post.field, ..pre })
                && post.field@ == pre.field@.push(c),
            Event::Backspace => a is Nothing && post == (App { field: post.field, ..pre })
                && post.field@ == (if pre.field@.len() == 0 {
                pre.field@
            } else {
                pre.field@.drop_last()
            }),
            Event::Esc => a is Quit && post == (App { mode: AppMode::Exit, ..pre }),
            Event::Enter => (match a {
                Action::ReadFile(p) => p@ == pre.field@,
                _ => false,
            }) && post == (App { path: post.path, file_stage: GetFileStage::AwaitRead, ..pre })
                && post.path@ == pre.field@,
            _ => a is Nothing && post == pre,
        },
        GetFileStage::AwaitRead => match ev {
            Event::FileRead(data) => a is Nothing && match Diary::read_outcome(
                data,
                Seq::<char>::empty(),
            ) {
                Ok(m) => post == (App {
                    entries: post.entries,
                    password: post.password,
                    mode: AppMode::Edit,
                    saved: true,
                    file_stage: GetFileStage::EnterPath,
                    ..pre
                }) && post.password@ == Seq::<char>::empty() && post.entries@ == adopted(
                    m,
                    pre.today,
                    pre.date,
                ) && post.entries.wf(),
                Err(e) => {
                    if e == DiaryError::WrongPassword {
                        post == (App {
                            mode: AppMode::Password,
                            pw_stage: PasswordStage::EnterSecret,
                            field: post.field,
                            hint: post.hint,
                            ..pre
                        }) && post.field@ == Seq::<char>::empty() && post.hint@ == Seq::<
                            char,
                        >::empty()
                    } else if e == DiaryError::NotFound {
                        post == (App { file_stage: GetFileStage::ConfirmCreate, ..pre })
                    } else {
                        post == (App {
                            file_stage: GetFileStage::EnterPath,
                            field: post.field,
                            hint: post.hint,
                            ..pre
                        }) && post.field@ == Seq::<char>::empty() && post.hint@ == error_message(e)
                    }
                },
            },
            _ => a is Nothing && post == pre,
        },
        GetFileStage::ConfirmCreate => match ev {
            Event::Char(c) => {
                if c == 'y' {
                    (match a {
                        Action::CreateFile(p) => p@ == pre.path@,
                        _ => false,
                    }) && post == (App { file_stage: GetFileStage::AwaitCreate, ..pre })
                } else if c == 'n' {
                    a is Quit && post == (App { mode: AppMode::Exit, ..pre })
                } else {
                    a is Nothing && post == pre
                }
            },
            _ => a is Nothing && post == pre,
        },
        GetFileStage::AwaitCreate => match ev {
            Event::Created(ok) => a is Nothing && (if ok {
                post == (App {
                    form: post.form,
                    file_stage: GetFileStage::NewCredential,
                    ..pre
                }) && post.form.og@ == Seq::<char>::empty() && post.form.retype@ == Seq::<
                    char,
                >::empty() && post.form.mode == PasswordFormMode::Typing && post.form.matching
                    == true
            } else {
                post == (App {
                    field: post.field,
                    hint: post.hint,
                    file_stage: GetFileStage::EnterPath,
                    ..pre
                }) && post.field@ == Seq::<char>::empty() && post.hint@
                    == "File could not be created"@
            }),
            _ => a is Nothing && post == pre,
        },
        GetFileStage::NewCredential => match form_key_of(ev) {
            Some(k) => a is Nothing && form_step(pre.form, k, post.form, form_out(pre.form, k))
                && match form_out(pre.form, k) {
                None => post == (App { form: post.form, ..pre }),
                Some(pw) => post == (App {
                    form: post.form,
                    password: post.password,
                    entries: post.entries,
                    mode: AppMode::Edit,
                    ..pre
                }) && post.password@ == pw && post.entries@ == adopted(
                    Map::<Date, Seq<char>>::empty(),
                    pre.today,
                    pre.date,
                ) && post.entries.wf(),
            },
            None => a is Nothing && post == pre,
        },
    }
}

/// The `Password` flow: collect a credential, try the load, and either
/// enter editing or clear the input, show the hint and stay.
pub open spec fn password_step(pre: App, ev: Event, post: App, a: Action) -> bool {
    match pre.pw_stage {
        PasswordStage::EnterSecret => match ev {
            Event::Char(c) => a is Nothing && post == (App { field: post.field, ..pre })
                && post.field@ == pre.field@.push(c),
            Event::Backspace => a is Nothing && post == (App { field: post.field, ..pre })
                && post.field@ == (if pre.field@.len() == 0 {
                pre.field@
            } else {
                pre.field@.drop_last()
            }),
            Event::Esc => a is Quit && post == (App { mode: AppMode::Exit, ..pre }),
            Event::Enter => (match a {
                Action::ReadFile(p) => p@ == pre.path@,
                _ => false,
            }) && post == (App {
                password: post.password,
                pw_stage: PasswordStage::AwaitRead,
                ..pre
            }) && post.password@ == pre.field@,
            _ => a is Nothing && post == pre,
        },
        PasswordStage::AwaitRead => match ev {
            Event::FileRead(data) => a is Nothing && match Diary::read_outcome(data, pre.password@) {
                Ok(m) => post == (App {
                    entries: post.entries,
                    mode: AppMode::Edit,
                    saved: true,
                    pw_stage: PasswordStage::EnterSecret,
                    ..pre
                }) && post.entries@ == adopted(m, pre.today, pre.date) && post.entries.wf(),
                Err(_) => post == (App {
                    field: post.field,
                    hint: post.hint,
                    pw_stage: PasswordStage::EnterSecret,
                    ..pre
                }) && post.field@ == Seq::<char>::empty() && post.hint@ == "Wrong Password"@,
            },
            _ => a is Nothing && post == pre,
        },
    }
}

/// A requested save in `Edit`: the working set is refreshed from the
/// snapshot and the sealed container handed to the host. Only a document
/// whose serialized form exceeds the container size bound can fail to
/// seal, and then nothing is handed over. The unsaved flag is untouched
/// either way; only a confirmed write clears it.
pub open spec fn edit_save(pre: App, snap: Vec<(Date, String)>, post: App, a: Action) -> bool {
    &&& post == (App { entries: post.entries, ..pre })
    &&& post.entries.wf()
    &&& post.entries@ == with_snapshot(pre.entries@, crate::codec::view_pairs(snap@))
    &&& match a {
        Action::WriteFile(p, bytes) => p@ == pre.path@ && header_ok(bytes@) && opens_to(
            bytes@,
            pre.password@,
        ) == Some(
            vstd::utf8::encode_utf8(
                crate::codec::ser_doc(crate::codec::view_pairs(post.entries.doc.entries@)),
            ),
        ) && bytes@.len() == vstd::utf8::encode_utf8(
            crate::codec::ser_doc(crate::codec::view_pairs(post.entries.doc.entries@)),
        ).len() + crate::diary::CONTAINER_PREFIX_SIZE && (bytes@.len()
            <= crate::diary::MAX_CONTAINER_SIZE ==> Diary::load_spec(bytes@, pre.password@)
            == Ok::<Map<Date, Seq<char>>, DiaryError>(post.entries@)),
        Action::Nothing => vstd::utf8::encode_utf8(
            crate::codec::ser_doc(crate::codec::view_pairs(post.entries.doc.entries@)),
        ).len() > crate::diary::MAX_CONTAINER_SIZE,
        _ => false,
    }
}

/// The `Edit` surface: ordinary input goes to the entry buffer and any
/// reported mutation marks unsaved work; the recognized control events
/// branch to saving, date selection, deletion, or the exit prompt.
pub open spec fn edit_step(pre: App, ev: Event, post: App, a: Action) -> bool {
    match ev {
        Event::Editor(mutated) => a is Nothing && post == (App {
            saved: pre.saved && !mutated,
            ..pre
        }),
        Event::SaveRequest(snap) => edit_save(pre, snap, post, a),
        Event::Saved(ok) => a is Nothing && post == (App {
            saved: pre.saved || ok,
            hint: post.hint,
            ..pre
        }) && post.hint@ == (if ok {
            Seq::<char>::empty()
        } else {
            error_message(DiaryError::NotAccessible)
        }),
        Event::Esc => {
            if pre.saved {
                a is Quit && post == (App { mode: AppMode::Exit, ..pre })
            } else {
                a is Nothing && post == (App { mode: AppMode::AskToSave, ..pre })
            }
        },
        Event::DateRequest => a is Nothing && post == (App {
            picker: DateSelection { date: pre.date, selection: CurrentlySelected::Date },
            from_delete: false,
            mode: AppMode::SetDate,
            ..pre
        }),
        Event::DeleteRequest => a is Nothing && post == (App { mode: AppMode::Delete, ..pre }),
        _ => a is Nothing && post == pre,
    }
}

/// The prompt before `Exit`, reached only with unsaved work: accept quits,
/// decline returns to editing with the in-memory edits preserved.
pub open spec fn ask_step(pre: App, ev: Event, post: App, a: Action) -> bool {
    match ev {
        Event::Char(c) => {
            if c == 'y' {
                a is Quit && post == (App { mode: AppMode::Exit, ..pre })
            } else if c == 'n' {
                a is Nothing && post == (App { mode: AppMode::Edit, ..pre })
            } else {
                a is Nothing && post == pre
            }
        },
        Event::Esc => a is Nothing && post == (App { mode: AppMode::Edit, ..pre }),
        _ => a is Nothing && post == pre,
    }
}

/// The date picker: each field is independently adjustable with saturating
/// date arithmetic; confirming adopts the picked day and ensures its entry;
/// cancelling returns unchanged — except after a deletion, when it falls
/// back to the current day and ensures an entry there.
pub open spec fn set_date_step(pre: App, ev: Event, post: App, a: Action) -> bool {
    match ev {
        Event::Up => a is Nothing && post == (App {
            picker: DateSelection {
                date: incremented(pre.picker.date, pre.picker.selection),
                selection: pre.picker.selection,
            },
            ..pre
        }),
        Event::Down => a is Nothing && post == (App {
            picker: DateSelection {
                date: decremented(pre.picker.date, pre.picker.selection),
                selection: pre.picker.selection,
            },
            ..pre
        }),
        Event::Char(c) => {
            if c == '+' || c == ' ' {
                a is Nothing && post == (App {
                    picker: DateSelection {
                        date: incremented(pre.picker.date, pre.picker.selection),
                        selection: pre.picker.selection,
                    },
                    ..pre
                })
            } else if c == '-' {
                a is Nothing && post == (App {
                    picker: DateSelection {
                        date: decremented(pre.picker.date, pre.picker.selection),
                        selection: pre.picker.selection,
                    },
                    ..pre
                })
            } else {
                a is Nothing && post == pre
            }
        },
        Event::Right => a is Nothing && post == (App {
            picker: DateSelection {
                date: pre.picker.date,
                selection: next_selection(pre.picker.selection),
            },
            ..pre
        }),
        Event::Left => a is Nothing && post == (App {
            picker: DateSelection {
                date: pre.picker.date,
                selection: prev_selection(pre.picker.selection),
            },
            ..pre
        }),
        Event::Enter => a is Nothing && post == (App {
            date: pre.picker.date,
            entries: post.entries,
            from_delete: false,
            mode: AppMode::Edit,
            ..pre
        }) && post.entries@ == with_default(pre.entries@, pre.picker.date) && post.entries.wf(),
        Event::Esc => a is Nothing && (if pre.from_delete {
            post == (App {
                date: pre.today,
                entries: post.entries,
                from_delete: false,
                mode: AppMode::Edit,
                ..pre
            }) && post.entries@ == with_default(pre.entries@, pre.today) && post.entries.wf()
        } else {
            post == (App { from_delete: false, mode: AppMode::Edit, ..pre })
        }),
        _ => a is Nothing && post == pre,
    }
}

/// The deletion prompt: accepting removes the selected entry and forces a
/// date re-selection; declining returns to editing unchanged.
pub open spec fn delete_step(pre: App, ev: Event, post: App, a: Action) -> bool {
    match ev {
        Event::Char(c) => {
            if c == 'y' {
                a is Nothing && post == (App {
                    entries: post.entries,
                    picker: DateSelection { date: pre.date, selection: CurrentlySelected::Date },
                    from_delete: true,
                    mode: AppMode::SetDate,
                    ..pre
                }) && post.entries@ == pre.entries@.remove(pre.date) && post.entries.wf()
            } else if c == 'n' {
                a is Nothing && post == (App { mode: AppMode::Edit, ..pre })
            } else {
                a is Nothing && post == pre
            }
        },
        Event::Esc => a is Nothing && post == (App { mode: AppMode::Edit, ..pre }),
        _ => a is Nothing && post == pre,
    }
}

/// One transition of the machine, by the mode the event arrives in. `Exit`
/// is terminal.
pub open spec fn step_spec(pre: App, ev: Event, post: App, a: Action) -> bool {
    match pre.mode {
        AppMode::GetFile => get_file_step(pre, ev, post, a),
        AppMode::Password => password_step(pre, ev, post, a),
        AppMode::Edit => edit_step(pre, ev, post, a),
        AppMode::AskToSave => ask_step(pre, ev, post, a),
        AppMode::SetDate => set_date_step(pre, ev, post, a),
        AppMode::Delete => delete_step(pre, ev, post, a),
        AppMode::Exit => a is Nothing && post == pre,
    }
}

impl App {
    /// A fresh session: nothing loaded, current day selected, prompting for
    /// a file.
    pub fn new(today: Date) -> (r: App)
        requires
            today.wf(),
        ensures
            r.wf(),
            r.mode == AppMode::GetFile,
            r.file_stage == GetFileStage::EnterPath,
            r.pw_stage == PasswordStage::EnterSecret,
            r.date == today,
            r.today == today,
            r.saved == true,
            r.from_delete == false,
            r.path@ == Seq::<char>::empty(),
            r.password@ == Seq::<char>::empty(),
            r.field@ == Seq::<char>::empty(),
            r.hint@ == Seq::<char>::empty(),
            r.entries@ == Map::<Date, Seq<char>>::empty(),
            r.form.og@ == Seq::<char>::empty() && r.form.retype@ == Seq::<char>::empty()
                && r.form.mode == PasswordFormMode::Typing,
            r.picker == (DateSelection { date: today, selection: CurrentlySelected::Date }),
    {
        proof {
            reveal_strlit("");
            assert(""@ =~= Seq::<char>::empty());
        }
        App {
            path: String::new(),
            date: today,
            today,
            entries: EntryModel::new(),
            mode: AppMode::GetFile,
            saved: true,
            password: String::new(),
            field: Vec::new(),
            hint: "",
            form: PasswordForm::new(),
            picker: DateSelection::new(today),
            file_stage: GetFileStage::EnterPath,
            pw_stage: PasswordStage::EnterSecret,
            from_delete: false,
        }
    }

    /// Applies the startup arguments: adopts a preselected date, and when a
    /// file is named, primes the path and credential for a direct load. The
    /// returned flag says whether the host must read that file and hand the
    /// outcome to [`App::finish_startup`].
    pub fn with_args(
        file: Option<String>,
        password: Option<String>,
        date: Option<Date>,
        today: Date,
    ) -> (r: (App, bool))
        requires
            today.wf(),
            date matches Some(d) ==> d.wf(),
            password is Some ==> file is Some,
        ensures
            ({
                let (app, need) = r;
                &&& app.wf()
                &&& app.mode == AppMode::GetFile
                &&& app.file_stage == GetFileStage::EnterPath
                &&& need == (file is Some)
                &&& app.today == today
                &&& app.date == (match date {
                    Some(d) => d,
                    None => today,
                })
                &&& (match file {
                    Some(f) => app.path == f,
                    None => app.path@ == Seq::<char>::empty(),
                })
                &&& (match password {
                    Some(p) => app.password == p,
                    None => app.password@ == Seq::<char>::empty(),
                })
                &&& app.saved == true
                &&& app.entries@ == Map::<Date, Seq<char>>::empty()
            }),
    {
        let mut app = App::new(today);
        if let Some(d) = date {
            app.date = d;
        }
        let need = file.is_some();
        if let Some(f) = file {
            app.path = f;
        }
        if let Some(p) = password {
            app.password = p;
        }
        (app, need)
    }

    /// Completes a direct startup load. With `strict` (a credential was
    /// supplied on the command line) any failure is fatal and returned to
    /// abort startup; without one, a wrong-password outcome falls back to
    /// the interactive password prompt, and any other failure is fatal.
    pub fn finish_startup(&mut self, data: Result<Vec<u8>, FileError>, strict: bool) -> (r: Result<
        (),
        DiaryError,
    >)
        requires
            old(self).wf(),
            old(self).mode == AppMode::GetFile,
        ensures
            final(self).wf(),
            ({
                let pre = *old(self);
                let post = *final(self);
                let p = if strict {
                    pre.password@
                } else {
                    Seq::<char>::empty()
                };
                match Diary::read_outcome(data, p) {
                    Ok(m) => r == Ok::<(), DiaryError>(()) && post == (App {
                        entries: post.entries,
                        mode: AppMode::Edit,
                        saved: true,
                        ..pre
                    }) && post.entries@ == adopted(m, pre.today, pre.date) && post.entries.wf(),
                    Err(e) => {
                        if !strict && e == DiaryError::WrongPassword {
                            r == Ok::<(), DiaryError>(()) && post == (App {
                                mode: AppMode::Password,
                                pw_stage: PasswordStage::EnterSecret,
                                ..pre
                            })
                        } else {
                            r == Err::<(), DiaryError>(e) && post == pre
                        }
                    },
                }
            }),
    {
        proof {
            reveal_strlit("");
            assert(""@ =~= Seq::<char>::empty());
        }
        let loaded = if strict {
            Diary::read_jrnl(data, self.password.as_str())
        } else {
            Diary::read_jrnl(data, "")
        };
        match loaded {
            Ok(d) => {
                self.entries = EntryModel::from_document(d);
                self.entries.ensure_entry(self.today);
                self.entries.ensure_entry(self.date);
                self.mode = AppMode::Edit;
                self.saved = true;
                Ok(())
            },
            Err(e) => {
                if !strict && e == DiaryError::WrongPassword {
                    self.mode = AppMode::Password;
                    self.pw_stage = PasswordStage::EnterSecret;
                    Ok(())
                } else {
                    Err(e)
                }
            },
        }
    }

    /// Saves a freshly captured snapshot of the buffers: the working set
    /// is refreshed from it and the sealed container handed back for the
    /// host to write. The unsaved flag stays as it is; only a confirmed
    /// write clears it.
    pub fn save(&mut self, snapshot: Vec<(Date, String)>) -> (a: Action)
        requires
            old(self).wf(),
        ensures
            final(self).wf(),
            edit_save(*old(self), snapshot, *final(self), a),
    {
        self.entries.apply_snapshot(&snapshot);
        match self.entries.doc.write_to(self.password.as_str()) {
            Ok(bytes) => Action::WriteFile(self.path.clone(), bytes),
            Err(_) => Action::Nothing,
        }
    }

    /// Feeds one event to the machine and returns what the host must do.
    pub fn step(&mut self, ev: Event) -> (a: Action)
        requires
            old(self).wf(),
        ensures
            final(self).wf(),
            step_spec(*old(self), ev, *final(self), a),
    {
        match self.mode {
            AppMode::GetFile => self.step_get_file(ev),
            AppMode::Password => self.step_password(ev),
            AppMode::Edit => self.step_edit(ev),
            AppMode::AskToSave => self.step_ask(ev),
            AppMode::SetDate => self.step_set_date(ev),
            AppMode::Delete => self.step_delete(ev),
            AppMode::Exit => Action::Nothing,
        }
    }

    fn step_get_file(&mut self, ev: Event) -> (a: Action)
        requires
            old(self).wf(),
            old(self).mode == AppMode::GetFile,
        ensures
            final(self).wf(),
            get_file_step(*old(self), ev, *final(self), a),
    {
        proof {
            reveal_strlit("");
            assert(""@ =~= Seq::<char>::empty());
        }
        match self.file_stage {
            GetFileStage::EnterPath => match ev {
                Event::Char(c) => {
                    self.field.push(c);
                    Action::Nothing
                },
                Event::Backspace => {
                    if self.field.len() > 0 {
                        let _ = self.field.pop();
                        proof {
                            assert(self.field@ =~= old(self).field@.drop_last());
                        }
                    }
                    Action::Nothing
                },
                Event::Esc => {
                    self.mode = AppMode::Exit;
                    Action::Quit
                },
                Event::Enter => {
                    self.path = crate::text::chars_to_string(&self.field);
                    self.file_stage = GetFileStage::AwaitRead;
                    Action::ReadFile(self.path.clone())
                },
                _ => Action::Nothing,
            },
            GetFileStage::AwaitRead => match ev {
                Event::FileRead(data) => {
                    match Diary::read_jrnl(data, "") {
                        Ok(d) => {
                            self.entries = EntryModel::from_document(d);
                            self.entries.ensure_entry(self.today);
                            self.entries.ensure_entry(self.date);
                            self.password = String::new();
                            self.mode = AppMode::Edit;
                            self.saved = true;
                            self.file_stage = GetFileStage::EnterPath;
                        },
                        Err(e) => {
                            if e == DiaryError::WrongPassword {
                                self.mode = AppMode::Password;
                                self.pw_stage = PasswordStage::EnterSecret;
                                self.field = Vec::new();
                                self.hint = "";
                            } else if e == DiaryError::NotFound {
                                self.file_stage = GetFileStage::ConfirmCreate;
                            } else {
                                self.file_stage = GetFileStage::EnterPath;
                                self.field = Vec::new();
                                self.hint = e.message();
                            }
                        },
                    }
                    Action::Nothing
                },
                _ => Action::Nothing,
            },
            GetFileStage::ConfirmCreate => match ev {
                Event::Char(c) => {
                    if c == 'y' {
                        self.file_stage = GetFileStage::AwaitCreate;
                        Action::CreateFile(self.path.clone())
                    } else if c == 'n' {
                        self.mode = AppMode::Exit;
                        Action::Quit
                    } else {
                        Action::Nothing
                    }
                },
                _ => Action::Nothing,
            },
            GetFileStage::AwaitCreate => match ev {
                Event::Created(ok) => {
                    if ok {
                        self.form = PasswordForm::new();
                        self.file_stage = GetFileStage::NewCredential;
                    } else {
                        self.field = Vec::new();
                        self.hint = "File could not be created";
                        self.file_stage = GetFileStage::EnterPath;
                    }
                    Action::Nothing
                },
                _ => Action::Nothing,
            },
            GetFileStage::NewCredential => {
                let key = match ev {
                    Event::Char(c) => FormKey::Char(c),
                    Event::Backspace => FormKey::Backspace,
                    Event::Enter => FormKey::Enter,
                    _ => {
                        return Action::Nothing;
                    },
                };
                match self.form.input(key) {
                    Some(pwd) => {
                        self.password = pwd;
                        self.entries = EntryModel::new();
                        self.entries.ensure_entry(self.today);
                        self.entries.ensure_entry(self.date);
                        self.mode = AppMode::Edit;
                    },
                    None => {},
                }
                Action::Nothing
            },
        }
    }

    fn step_password(&mut self, ev: Event) -> (a: Action)
        requires
            old(self).wf(),
            old(self).mode == AppMode::Password,
        ensures
            final(self).wf(),
            password_step(*old(self), ev, *final(self), a),
    {
        match self.pw_stage {
            PasswordStage::EnterSecret => match ev {
                Event::Char(c) => {
                    self.field.push(c);
                    Action::Nothing
                },
                Event::Backspace => {
                    if self.field.len() > 0 {
                        let _ = self.field.pop();
                        proof {
                            assert(self.field@ =~= old(self).field@.drop_last());
                        }
                    }
                    Action::Nothing
                },
                Event::Esc => {
                    self.mode = AppMode::Exit;
                    Action::Quit
                },
                Event::Enter => {
                    self.password = crate::text::chars_to_string(&self.field);
                    self.pw_stage = PasswordStage::AwaitRead;
                    Action::ReadFile(self.path.clone())
                },
                _ => Action::Nothing,
            },
            PasswordStage::AwaitRead => match ev {
                Event::FileRead(data) => {
                    match Diary::read_jrnl(data, self.password.as_str()) {
                        Ok(d) => {
                            self.entries = EntryModel::from_document(d);
                            self.entries.ensure_entry(self.today);
                            self.entries.ensure_entry(self.date);
                            self.mode = AppMode::Edit;
                            self.saved = true;
                            self.pw_stage = PasswordStage::EnterSecret;
                        },
                        Err(_) => {
                            self.field = Vec::new();
                            self.hint = "Wrong Password";
                            self.pw_stage = PasswordStage::EnterSecret;
                        },
                    }
                    Action::Nothing
                },
                _ => Action::Nothing,
            },
        }
    }

    fn step_edit(&mut self, ev: Event) -> (a: Action)
        requires
            old(self).wf(),
            old(self).mode == AppMode::Edit,
        ensures
            final(self).wf(),
            edit_step(*old(self), ev, *final(self), a),
    {
        match ev {
            Event::Editor(mutated) => {
                self.saved = self.saved && !mutated;
                Action::Nothing
            },
            Event::SaveRequest(snap) => self.save(snap),
            Event::Saved(ok) => {
                self.saved = self.saved || ok;
                if ok {
                    self.hint = "";
                    proof {
                        reveal_strlit("");
                        assert(""@ =~= Seq::<char>::empty());
                    }
                } else {
                    self.hint = DiaryError::NotAccessible.message();
                }
                Action::Nothing
            },
            Event::Esc => {
                if self.saved {
                    self.mode = AppMode::Exit;
                    Action::Quit
                } else {
                    self.mode = AppMode::AskToSave;
                    Action::Nothing
                }
            },
            Event::DateRequest => {
                self.picker = DateSelection::new(self.date);
                self.from_delete = false;
                self.mode = AppMode::SetDate;
                Action::Nothing
            },
            Event::DeleteRequest => {
                self.mode = AppMode::Delete;
                Action::Nothing
            },
            _ => Action::Nothing,
        }
    }

    fn step_ask(&mut self, ev: Event) -> (a: Action)
        requires
            old(self).wf(),
            old(self).mode == AppMode::AskToSave,
        ensures
            final(self).wf(),
            ask_step(*old(self), ev, *final(self), a),
    {
        match ev {
            Event::Char(c) => {
                if c == 'y' {
                    self.mode = AppMode::Exit;
                    Action::Quit
                } else if c == 'n' {
                    self.mode = AppMode::Edit;
                    Action::Nothing
                } else {
                    Action::Nothing
                }
            },
            Event::Esc => {
                self.mode = AppMode::Edit;
                Action::Nothing
            },
            _ => Action::Nothing,
        }
    }

    fn step_set_date(&mut self, ev: Event) -> (a: Action)
        requires
            old(self).wf(),
            old(self).mode == AppMode::SetDate,
        ensures
            final(self).wf(),
            set_date_step(*old(self), ev, *final(self), a),
    {
        match ev {
            Event::Up => {
                self.picker.increment_selected();
                Action::Nothing
            },
            Event::Down => {
                self.picker.decrement_selected();
                Action::Nothing
            },
            Event::Char(c) => {
                if c == '+' || c == ' ' {
                    self.picker.increment_selected();
                } else if c == '-' {
                    self.picker.decrement_selected();
                }
                Action::Nothing
            },
            Event::Right => {
                self.picker.select_next();
                Action::Nothing
            },
            Event::Left => {
                self.picker.select_prev();
                Action::Nothing
            },
            Event::Enter => {
                let nd = self.picker.date();
                self.entries.ensure_entry(nd);
                self.date = nd;
                self.from_delete = false;
                self.mode = AppMode::Edit;
                Action::Nothing
            },
            Event::Esc => {
                if self.from_delete {
                    self.entries.ensure_entry(self.today);
                    self.date = self.today;
                }
                self.from_delete = false;
                self.mode = AppMode::Edit;
                Action::Nothing
            },
            _ => Action::Nothing,
        }
    }

    fn step_delete(&mut self, ev: Event) -> (a: Action)
        requires
            old(self).wf(),
            old(self).mode == AppMode::Delete,
        ensures
            final(self).wf(),
            delete_step(*old(self), ev, *final(self), a),
    {
        match ev {
            Event::Char(c) => {
                if c == 'y' {
                    let d = self.date;
                    self.entries.remove_entry(d);
                    self.picker = DateSelection::new(d);
                    self.from_delete = true;
                    self.mode = AppMode::SetDate;
                } else if c == 'n' {
                    self.mode = AppMode::Edit;
                }
                Action::Nothing
            },
            Event::Esc => {
                self.mode = AppMode::Edit;
                Action::Nothing
            },
            _ => Action::Nothing,
        }
    }
}

/// Reopening a saved document: a container that decrypts, under the session
/// credential, to document `d`'s serialized payload loads back as exactly
/// `d`, and the adopted working set preserves every entry of `d` — while an
/// empty entry is auto-inserted for the current day, and for the selected
/// day, exactly where `d` has none.
pub proof fn lemma_reopen_adopts_saved(c: Seq<u8>, p: Seq<char>, d: Diary, today: Date, sel: Date)
    requires
        d.wf(),
        opens_to(c, p) == Some(
            vstd::utf8::encode_utf8(crate::codec::ser_doc(crate::codec::view_pairs(d.entries@))),
        ),
        crate::diary::declared_fits(c),
        c.len() <= crate::diary::MAX_CONTAINER_SIZE,
    ensures
        Diary::load_spec(c, p) == Ok::<Map<Date, Seq<char>>, DiaryError>(d@),
        forall|k: Date| #[trigger]
            adopted(d@, today, sel).contains_key(k) <==> (d@.contains_key(k) || k == today || k
                == sel),
        forall|k: Date|
            d@.contains_key(k) ==> #[trigger] adopted(d@, today, sel)[k] == d@[k],
        !d@.contains_key(today) ==> adopted(d@, today, sel)[today] == Seq::<char>::empty(),
        !d@.contains_key(sel) ==> adopted(d@, today, sel)[sel] == Seq::<char>::empty(),
{
    crate::diary::lemma_load_of_sealed(c, p, d);
}

/// Deleting the only remaining entry and then cancelling the forced
/// re-selection leaves exactly one entry, keyed by the session's current
/// day.
pub proof fn lemma_delete_then_cancel(pre: App, mid: App, post: App, a1: Action, a2: Action)
    requires
        pre.wf(),
        pre.mode == AppMode::Delete,
        pre.entries@.dom() == set![pre.date],
        delete_step(pre, Event::Char('y'), mid, a1),
        set_date_step(mid, Event::Esc, post, a2),
    ensures
        post.mode == AppMode::Edit,
        post.date == pre.today,
        post.entries@.dom() == set![pre.today],
        post.entries@[pre.today] == Seq::<char>::empty(),
{
    assert(mid.entries@ == pre.entries@.remove(pre.date));
    assert(mid.entries@.dom() =~= Set::<Date>::empty());
    assert(!mid.entries@.contains_key(mid.today));
    assert(post.entries@ == mid.entries@.insert(mid.today, Seq::<char>::empty()));
    assert(post.entries@.dom() =~= set![pre.today]);
}

} // verus!
