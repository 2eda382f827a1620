//! Interactive sub-machines of the session: the day/month/year picker and
//! the two-step credential-creation form.
//!
//! These hold only the state that the transitions read and write; drawing
//! them on a screen, and translating raw terminal input into [`FormKey`]
//! values, is the embedding program's business.

use vstd::prelude::*;

use crate::date::{minus_days, minus_months, plus_days, plus_months, Date};
use crate::text::chars_to_string;

verus! {

/// Which field of the date picker is active.
#[derive(Clone, Copy, PartialEq, Eq, Structural, Debug)]
pub enum CurrentlySelected {
    Date,
    Month,
    Year,
}

/// The picker field to the right of `sel`, wrapping around.
pub open spec fn next_selection(sel: CurrentlySelected) -> CurrentlySelected {
    match sel {
        CurrentlySelected::Date => CurrentlySelected::Month,
        CurrentlySelected::Month => CurrentlySelected::Year,
        CurrentlySelected::Year => CurrentlySelected::Date,
    }
}

/// The picker field to the left of `sel`, wrapping around.
pub open spec fn prev_selection(sel: CurrentlySelected) -> CurrentlySelected {
    match sel {
        CurrentlySelected::Date => CurrentlySelected::Year,
        CurrentlySelected::Month => CurrentlySelected::Date,
        CurrentlySelected::Year => CurrentlySelected::Month,
    }
}

/// The picked date after one increment of the active field: one day, one
/// month, or one year, saturating at the calendar bounds.
pub open spec fn incremented(d: Date, sel: CurrentlySelected) -> Date {
    match sel {
        CurrentlySelected::Date => match plus_days(d, 1) {
            Some(x) => x,
            None => d,
        },
        CurrentlySelected::Month => plus_months(d, 1),
        CurrentlySelected::Year => plus_months(d, 12),
    }
}

/// The picked date after one decrement of the active field.
pub open spec fn decremented(d: Date, sel: CurrentlySelected) -> Date {
    match sel {
        CurrentlySelected::Date => match minus_days(d, 1) {
            Some(x) => x,
            None => d,
        },
        CurrentlySelected::Month => minus_months(d, 1),
        CurrentlySelected::Year => minus_months(d, 12),
    }
}

impl CurrentlySelected {
    /// The field to the right, wrapping around.
    pub fn next(&self) -> (r: CurrentlySelected)
        ensures
            r == next_selection(*self),
    {
        match self {
            CurrentlySelected::Date => CurrentlySelected::Month,
            CurrentlySelected::Month => CurrentlySelected::Year,
            CurrentlySelected::Year => CurrentlySelected::Date,
        }
    }

    /// The field to the left, wrapping around.
    pub fn prev(&self) -> (r: CurrentlySelected)
        ensures
            r == prev_selection(*self),
    {
        match self {
            CurrentlySelected::Date => CurrentlySelected::Year,
            CurrentlySelected::Month => CurrentlySelected::Date,
            CurrentlySelected::Year => CurrentlySelected::Month,
        }
    }
}

/// The state of the interactive day/month/year picker.
#[derive(Clone, Copy, PartialEq, Eq, Structural, Debug)]
pub struct DateSelection {
    pub date: Date,
    pub selection: CurrentlySelected,
}

impl DateSelection {
    /// Starts a picker at `date`, with the day field active.
    pub fn new(date: Date) -> (r: Self)
        ensures
            r == (DateSelection { date, selection: CurrentlySelected::Date }),
    {
        Self { date, selection: CurrentlySelected::Date }
    }

    /// Increments the active field, saturating at the calendar bounds.
    pub fn increment_selected(&mut self)
        requires
            old(self).date.wf(),
        ensures
            final(self).date == incremented(old(self).date, old(self).selection),
            final(self).selection == old(self).selection,
            final(self).date.wf(),
    {
        match self.selection {
            CurrentlySelected::Date => {
                self.date = self.date.add_days(1);
            },
            CurrentlySelected::Month => {
                self.date = self.date.add_months(1);
            },
            CurrentlySelected::Year => {
                self.date = self.date.add_months(12);
            },
        }
    }

    /// Decrements the active field, saturating at the calendar bounds.
    pub fn decrement_selected(&mut self)
        requires
            old(self).date.wf(),
        ensures
            final(self).date == decremented(old(self).date, old(self).selection),
            final(self).selection == old(self).selection,
            final(self).date.wf(),
    {
        match self.selection {
            CurrentlySelected::Date => {
                self.date = self.date.sub_days(1);
            },
            CurrentlySelected::Month => {
                self.date = self.date.sub_months(1);
            },
            CurrentlySelected::Year => {
                self.date = self.date.sub_months(12);
            },
        }
    }

    /// Moves the active field one to the right.
    pub fn select_next(&mut self)
        ensures
            *final(self) == (DateSelection {
                selection: next_selection(old(self).selection),
                ..*old(self)
            }),
    {
        self.selection = self.selection.next();
    }

    /// Moves the active field one to the left.
    pub fn select_prev(&mut self)
        ensures
            *final(self) == (DateSelection {
                selection: prev_selection(old(self).selection),
                ..*old(self)
            }),
    {
        self.selection = self.selection.prev();
    }

    /// The currently picked date.
    pub fn date(&self) -> (r: Date)
        ensures
            r == self.date,
    {
        self.date
    }
}

/// One key event fed to the credential form.
#[derive(Clone, Copy, PartialEq, Eq, Structural, Debug)]
pub enum FormKey {
    Char(char),
    Backspace,
    Enter,
}

/// Stage of the two-step credential-creation flow.
#[derive(Clone, Copy, PartialEq, Eq, Structural, Debug)]
pub enum PasswordFormMode {
    Typing,
    Retyping,
    Submitted,
}

/// Two-step credential collection for a fresh container: type the secret,
/// retype it; on a mismatch both fields are cleared and the flow restarts
/// from the first field, without raising any error.
pub struct PasswordForm {
    pub og: Vec<char>,
    pub retype: Vec<char>,
    pub mode: PasswordFormMode,
    pub matching: bool,
}

/// How one key event moves the credential form from `pre` to `post`, and
/// what it returns: `out` is the accepted credential, available exactly
/// once both entries agree.
pub open spec fn form_step(
    pre: PasswordForm,
    key: FormKey,
    post: PasswordForm,
    out: Option<Seq<char>>,
) -> bool {
    match pre.mode {
        PasswordFormMode::Typing => match key {
            FormKey::Char(c) => post.og@ == pre.og@.push(c) && post.retype@ == pre.retype@
                && post.mode == pre.mode && post.matching == pre.matching && out is None,
            FormKey::Backspace => post.og@ == (if pre.og@.len() == 0 {
                pre.og@
            } else {
                pre.og@.drop_last()
            }) && post.retype@ == pre.retype@ && post.mode == pre.mode && post.matching
                == pre.matching && out is None,
            FormKey::Enter => post.og@ == pre.og@ && post.retype@ == pre.retype@ && post.mode
                == PasswordFormMode::Retyping && post.matching == pre.matching && out is None,
        },
        PasswordFormMode::Retyping => match key {
            FormKey::Char(c) => post.retype@ == pre.retype@.push(c) && post.og@ == pre.og@
                && post.mode == pre.mode && post.matching == pre.matching && out is None,
            FormKey::Backspace => post.retype@ == (if pre.retype@.len() == 0 {
                pre.retype@
            } else {
                pre.retype@.drop_last()
            }) && post.og@ == pre.og@ && post.mode == pre.mode && post.matching == pre.matching
                && out is None,
            FormKey::Enter => {
                if pre.og@ == pre.retype@ {
                    post.og@ == pre.og@ && post.retype@ == pre.retype@ && post.mode
                        == PasswordFormMode::Submitted && post.matching == pre.matching && out
                        == Some(pre.og@)
                } else {
                    post.og@ == Seq::<char>::empty() && post.retype@ == Seq::<char>::empty()
                        && post.mode == PasswordFormMode::Typing && post.matching == false && out
                        is None
                }
            },
        },
        PasswordFormMode::Submitted => post.og@ == pre.og@ && post.retype@ == pre.retype@
            && post.mode == pre.mode && post.matching == pre.matching && out == Some(pre.og@),
    }
}

impl Default for PasswordForm {
    fn default() -> (r: Self)
        ensures
            r.og@ == Seq::<char>::empty(),
            r.retype@ == Seq::<char>::empty(),
            r.mode == PasswordFormMode::Typing,
            r.matching == true,
    {
        PasswordForm::new()
    }
}

impl PasswordForm {
    /// A fresh form: both fields empty, typing the first entry.
    pub fn new() -> (r: Self)
        ensures
            r.og@ == Seq::<char>::empty(),
            r.retype@ == Seq::<char>::empty(),
            r.mode == PasswordFormMode::Typing,
            r.matching == true,
    {
        Self { og: Vec::new(), retype: Vec::new(), mode: PasswordFormMode::Typing, matching: true }
    }

    /// Feeds one key event; returns the accepted credential once both
    /// entries agree.
    pub fn input(&mut self, key: FormKey) -> (r: Option<String>)
        ensures
            form_step(
                *old(self),
                key,
                *final(self),
                match r {
                    Some(s) => Some(s@),
                    None => None,
                },
            ),
    {
        match self.mode {
            PasswordFormMode::Typing => {
                match key {
                    FormKey::Char(c) => {
                        self.og.push(c);
                    },
                    FormKey::Backspace => {
                        if self.og.len() > 0 {
                            let _ = self.og.pop();
                            proof {
                                assert(self.og@ =~= old(self).og@.drop_last());
                            }
                        }
                    },
                    FormKey::Enter => {
                        self.mode = PasswordFormMode::Retyping;
                    },
                }
                None
            },
            PasswordFormMode::Retyping => {
                match key {
                    FormKey::Char(c) => {
                        self.retype.push(c);
                        None
                    },
                    FormKey::Backspace => {
                        if self.retype.len() > 0 {
                            let _ = self.retype.pop();
                            proof {
                                assert(self.retype@ =~= old(self).retype@.drop_last());
                            }
                        }
                        None
                    },
                    FormKey::Enter => {
                        if eq_chars(&self.og, &self.retype) {
                            self.mode = PasswordFormMode::Submitted;
                            Some(chars_to_string(&self.og))
                        } else {
                            self.og = Vec::new();
                            self.retype = Vec::new();
                            self.matching = false;
                            self.mode = PasswordFormMode::Typing;
                            None
                        }
                    },
                }
            },
            PasswordFormMode::Submitted => Some(chars_to_string(&self.og)),
        }
    }

    /// Puts the form into the retype stage.
    pub fn retyping(&mut self)
        ensures
            final(self).mode == PasswordFormMode::Retyping,
            final(self).og@ == old(self).og@,
            final(self).retype@ == old(self).retype@,
            final(self).matching == old(self).matching,
    {
        self.mode = PasswordFormMode::Retyping;
    }

    /// Puts the form into the first-entry stage.
    pub fn typing(&mut self)
        ensures
            final(self).mode == PasswordFormMode::Typing,
            final(self).og@ == old(self).og@,
            final(self).retype@ == old(self).retype@,
            final(self).matching == old(self).matching,
    {
        self.mode = PasswordFormMode::Typing;
    }
}

/// Whether two character vectors hold the same text.
fn eq_chars(a: &Vec<char>, b: &Vec<char>) -> (r: bool)
    ensures
        r == (a@ == b@),
{
    let n = a.len();
    if n != b.len() {
        proof {
            assert(a@ != b@);
        }
        return false;
    }
    let mut i: usize = 0;
    while i < n
        invariant
            i <= n,
            n == a@.len() && n == b@.len(),
            forall|j: int| 0 <= j < i ==> a@[j] == b@[j],
        decreases n - i,
    {
        if a[i] != b[i] {
            return false;
        }
        i += 1;
    }
    proof {
        assert(a@ =~= b@);
    }
    true
}

} // verus!
