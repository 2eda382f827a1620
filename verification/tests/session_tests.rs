use journalr::app::{Action, App, AppMode, Event};
use journalr::date::Date;
use journalr::diary::{Diary, DiaryError, FileError};
use journalr::model::EntryModel;
use journalr::ui::{CurrentlySelected, DateSelection, FormKey, PasswordForm, PasswordFormMode};

fn day(s: &str) -> Date {
    Date::parse(s).unwrap()
}

fn feed(app: &mut App, text: &str) {
    for c in text.chars() {
        let a = app.step(Event::Char(c));
        assert!(matches!(a, Action::Nothing));
    }
}

#[test]
fn entry_model_get_or_create_and_remove() {
    let d = day("01-01-2024");
    let mut m = EntryModel::new();
    assert!(!m.contains(d));
    m.ensure_entry(d);
    assert!(m.contains(d));
    assert_eq!(m.get(d).unwrap(), "");
    m.ensure_entry(d);
    assert_eq!(m.doc.entries.len(), 1);
    m.remove_entry(d);
    assert!(!m.contains(d));
}

#[test]
fn snapshot_updates_only_existing_entries() {
    let d1 = day("01-01-2024");
    let d2 = day("02-01-2024");
    let mut m = EntryModel::new();
    m.ensure_entry(d1);
    m.apply_snapshot(&vec![(d1, String::from("written")), (d2, String::from("ignored"))]);
    assert_eq!(m.get(d1).unwrap(), "written");
    assert!(!m.contains(d2));
    assert_eq!(m.doc.entries.len(), 1);
}

#[test]
fn date_picker_adjusts_each_field() {
    let mut p = DateSelection::new(day("31-01-2024"));
    assert!(matches!(p.selection, CurrentlySelected::Date));
    p.increment_selected();
    assert_eq!(p.date(), day("01-02-2024"));
    p.decrement_selected();
    assert_eq!(p.date(), day("31-01-2024"));
    p.select_next();
    assert!(matches!(p.selection, CurrentlySelected::Month));
    p.increment_selected();
    assert_eq!(p.date(), day("29-02-2024"));
    p.select_next();
    assert!(matches!(p.selection, CurrentlySelected::Year));
    p.decrement_selected();
    assert_eq!(p.date(), day("28-02-2023"));
    p.select_next();
    assert!(matches!(p.selection, CurrentlySelected::Date));
    p.select_prev();
    assert!(matches!(p.selection, CurrentlySelected::Year));
}

#[test]
fn credential_form_mismatch_clears_and_restarts() {
    let mut form = PasswordForm::new();
    for c in "abc".chars() {
        assert!(form.input(FormKey::Char(c)).is_none());
    }
    assert!(form.input(FormKey::Enter).is_none());
    assert!(matches!(form.mode, PasswordFormMode::Retyping));
    for c in "abd".chars() {
        assert!(form.input(FormKey::Char(c)).is_none());
    }
    let out = form.input(FormKey::Enter);
    assert!(out.is_none());
    assert!(form.og.is_empty());
    assert!(form.retype.is_empty());
    assert!(matches!(form.mode, PasswordFormMode::Typing));
    assert!(!form.matching);
    for c in "abc".chars() {
        form.input(FormKey::Char(c));
    }
    form.input(FormKey::Enter);
    for c in "ab".chars() {
        form.input(FormKey::Char(c));
    }
    form.input(FormKey::Char('x'));
    form.input(FormKey::Backspace);
    form.input(FormKey::Char('c'));
    let out = form.input(FormKey::Enter).unwrap();
    assert_eq!(out, "abc");
}

#[test]
fn delete_only_entry_and_cancel_keeps_one_for_today() {
    let today = Date::today();
    let d = day("01-01-2024");
    let mut app = App::new(today);
    app.entries.ensure_entry(d);
    app.date = d;
    app.mode = AppMode::Delete;
    let a = app.step(Event::Char('y'));
    assert!(matches!(a, Action::Nothing));
    assert!(matches!(app.mode, AppMode::SetDate));
    let a = app.step(Event::Esc);
    assert!(matches!(a, Action::Nothing));
    assert!(matches!(app.mode, AppMode::Edit));
    assert_eq!(app.date, today);
    assert_eq!(app.entries.doc.entries.len(), 1);
    assert!(app.entries.contains(today));
}

#[test]
fn delete_declined_changes_nothing() {
    let today = Date::today();
    let mut app = App::new(today);
    app.entries.ensure_entry(today);
    app.mode = AppMode::Delete;
    let a = app.step(Event::Char('n'));
    assert!(matches!(a, Action::Nothing));
    assert!(matches!(app.mode, AppMode::Edit));
    assert_eq!(app.entries.doc.entries.len(), 1);
}

#[test]
fn unsaved_flag_cleared_only_on_confirmed_success() {
    let today = Date::today();
    let mut app = App::new(today);
    app.entries.ensure_entry(today);
    app.mode = AppMode::Edit;
    assert!(app.saved);
    app.step(Event::Editor(false));
    assert!(app.saved);
    app.step(Event::Editor(true));
    assert!(!app.saved);
    app.step(Event::Editor(false));
    assert!(!app.saved);
    app.step(Event::Saved(false));
    assert!(!app.saved);
    assert_eq!(app.hint, "Cannot Access File");
    app.step(Event::Saved(true));
    assert!(app.saved);
    assert_eq!(app.hint, "");
}

#[test]
fn exit_prompt_preserves_edits_on_decline() {
    let today = Date::today();
    let mut app = App::new(today);
    app.entries.ensure_entry(today);
    app.mode = AppMode::Edit;
    let a = app.step(Event::Esc);
    assert!(matches!(a, Action::Quit));
    assert!(matches!(app.mode, AppMode::Exit));

    let mut app = App::new(today);
    app.entries.ensure_entry(today);
    app.mode = AppMode::Edit;
    app.step(Event::Editor(true));
    let a = app.step(Event::Esc);
    assert!(matches!(a, Action::Nothing));
    assert!(matches!(app.mode, AppMode::AskToSave));
    let a = app.step(Event::Char('n'));
    assert!(matches!(a, Action::Nothing));
    assert!(matches!(app.mode, AppMode::Edit));
    assert!(app.entries.contains(today));
    assert!(!app.saved);
    app.step(Event::Esc);
    let a = app.step(Event::Char('y'));
    assert!(matches!(a, Action::Quit));
    assert!(matches!(app.mode, AppMode::Exit));
}

#[test]
fn full_session_create_save_and_reopen() {
    let today = day("15-06-2024");
    let entry_day = day("01-01-2024");

    // Create "a.jrnl" with credential "secret123".
    let mut app = App::new(today);
    feed(&mut app, "a.jrnl");
    let a = app.step(Event::Enter);
    match a {
        Action::ReadFile(p) => assert_eq!(p, "a.jrnl"),
        _ => panic!("expected a read request"),
    }
    let a = app.step(Event::FileRead(Err(FileError::NotFound)));
    assert!(matches!(a, Action::Nothing));
    let a = app.step(Event::Char('y'));
    match a {
        Action::CreateFile(p) => assert_eq!(p, "a.jrnl"),
        _ => panic!("expected a create request"),
    }
    let a = app.step(Event::Created(true));
    assert!(matches!(a, Action::Nothing));
    // Two-step credential creation: a typo first, then the real secret.
    feed(&mut app, "secret123");
    app.step(Event::Enter);
    feed(&mut app, "secret124");
    let a = app.step(Event::Enter);
    assert!(matches!(a, Action::Nothing));
    assert!(matches!(app.mode, AppMode::GetFile));
    assert!(app.form.og.is_empty() && app.form.retype.is_empty());
    feed(&mut app, "secret123");
    app.step(Event::Enter);
    feed(&mut app, "secret123");
    let a = app.step(Event::Enter);
    assert!(matches!(a, Action::Nothing));
    assert!(matches!(app.mode, AppMode::Edit));
    assert_eq!(app.password, "secret123");
    assert!(app.entries.contains(today));

    // Write the entry and save.
    app.entries.ensure_entry(entry_day);
    app.step(Event::Editor(true));
    assert!(!app.saved);
    let snapshot = vec![(entry_day, String::from("Hello")), (today, String::new())];
    let a = app.step(Event::SaveRequest(snapshot));
    let bytes = match a {
        Action::WriteFile(p, bytes) => {
            assert_eq!(p, "a.jrnl");
            bytes
        },
        _ => panic!("expected a write request"),
    };
    assert!(!app.saved);
    app.step(Event::Saved(true));
    assert!(app.saved);

    // Reopen with the wrong credential.
    assert_eq!(Diary::load_bytes(&bytes, "wrong").unwrap_err(), DiaryError::WrongPassword);

    // Reopen interactively with the right credential, on a later day.
    let reopen_day = day("16-06-2024");
    let mut app2 = App::new(reopen_day);
    feed(&mut app2, "a.jrnl");
    let a = app2.step(Event::Enter);
    assert!(matches!(a, Action::ReadFile(_)));
    let a = app2.step(Event::FileRead(Ok(bytes.clone())));
    assert!(matches!(a, Action::Nothing));
    assert!(matches!(app2.mode, AppMode::Password));
    feed(&mut app2, "wrong");
    let a = app2.step(Event::Enter);
    assert!(matches!(a, Action::ReadFile(_)));
    app2.step(Event::FileRead(Ok(bytes.clone())));
    assert!(matches!(app2.mode, AppMode::Password));
    assert_eq!(app2.hint, "Wrong Password");
    feed(&mut app2, "secret123");
    let a = app2.step(Event::Enter);
    assert!(matches!(a, Action::ReadFile(_)));
    app2.step(Event::FileRead(Ok(bytes)));
    assert!(matches!(app2.mode, AppMode::Edit));
    assert_eq!(app2.entries.get(entry_day).unwrap(), "Hello");
    assert_eq!(app2.entries.get(today).unwrap(), "");
    // The auto-inserted empty entry for the current day, which differs.
    assert_eq!(app2.entries.get(reopen_day).unwrap(), "");
}

#[test]
fn set_date_flow_adopts_picked_day() {
    let today = day("15-06-2024");
    let mut app = App::new(today);
    app.entries.ensure_entry(today);
    app.mode = AppMode::Edit;
    let a = app.step(Event::DateRequest);
    assert!(matches!(a, Action::Nothing));
    assert!(matches!(app.mode, AppMode::SetDate));
    app.step(Event::Up);
    app.step(Event::Up);
    app.step(Event::Right);
    app.step(Event::Up);
    let a = app.step(Event::Enter);
    assert!(matches!(a, Action::Nothing));
    assert!(matches!(app.mode, AppMode::Edit));
    assert_eq!(app.date, day("17-07-2024"));
    assert!(app.entries.contains(day("17-07-2024")));
    assert!(app.entries.contains(today));

    let a = app.step(Event::DateRequest);
    assert!(matches!(a, Action::Nothing));
    app.step(Event::Down);
    let a = app.step(Event::Esc);
    assert!(matches!(a, Action::Nothing));
    assert_eq!(app.date, day("17-07-2024"));
}

#[test]
fn startup_with_credentials_is_fatal_on_failure() {
    let today = day("15-06-2024");
    let (mut app, need) = App::with_args(
        Some(String::from("a.jrnl")),
        Some(String::from("secret123")),
        Some(day("01-01-2024")),
        today,
    );
    assert!(need);
    assert_eq!(app.date, day("01-01-2024"));
    let r = app.finish_startup(Err(FileError::NotFound), true);
    assert_eq!(r.unwrap_err(), DiaryError::NotFound);
    assert!(matches!(app.mode, AppMode::GetFile));

    let mut doc = Diary::new();
    doc.set(day("01-01-2024"), String::from("Hello"));
    let bytes = doc.write_to("secret123").unwrap();

    let (mut app, _) = App::with_args(
        Some(String::from("a.jrnl")),
        Some(String::from("bad")),
        None,
        today,
    );
    let r = app.finish_startup(Ok(bytes.clone()), true);
    assert_eq!(r.unwrap_err(), DiaryError::WrongPassword);

    let (mut app, _) = App::with_args(
        Some(String::from("a.jrnl")),
        Some(String::from("secret123")),
        None,
        today,
    );
    assert!(app.finish_startup(Ok(bytes.clone()), true).is_ok());
    assert!(matches!(app.mode, AppMode::Edit));
    assert_eq!(app.entries.get(day("01-01-2024")).unwrap(), "Hello");
    assert!(app.entries.contains(today));

    // Without a credential, a protected file falls back to the prompt.
    let (mut app, _) = App::with_args(Some(String::from("a.jrnl")), None, None, today);
    assert!(app.finish_startup(Ok(bytes), false).is_ok());
    assert!(matches!(app.mode, AppMode::Password));
}
