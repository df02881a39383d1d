//! The interactive controller: a two-level state machine over the path
//! list. Each call takes one line of user input (or its absence) and
//! applies the corresponding mutation; `render` hands back everything the
//! surrounding terminal loop must draw and clears the one-shot state.

use vstd::prelude::*;

verus! {

use crate::list;
use crate::parse;
use vstd::string::StrSliceExecFns;

/// Emphasis attached to rendered text.
#[derive(PartialEq, Eq, Structural, Clone, Copy, Debug)]
pub enum Emphasis {
    Highlight,
    Error,
    Warning,
    Success,
    Neutral,
}

/// The one-shot notices the controller leaves for the next render.
#[derive(PartialEq, Eq, Structural, Clone, Copy, Debug)]
pub enum Notice {
    DupsRemoved,
    NotAddingNew,
    PathDoesNotExist,
    NumberNotValid,
    NotRecognized,
    EntryDeleted,
    EntryMoved,
    NotEditing,
}

/// The emphasis each notice is shown with.
pub open spec fn spec_notice_emphasis(n: Notice) -> Emphasis {
    match n {
        Notice::DupsRemoved => Emphasis::Success,
        Notice::NotAddingNew => Emphasis::Neutral,
        Notice::PathDoesNotExist => Emphasis::Warning,
        Notice::NumberNotValid => Emphasis::Error,
        Notice::NotRecognized => Emphasis::Error,
        Notice::EntryDeleted => Emphasis::Success,
        Notice::EntryMoved => Emphasis::Success,
        Notice::NotEditing => Emphasis::Neutral,
    }
}

pub fn notice_emphasis(n: Notice) -> (e: Emphasis)
    ensures
        e == spec_notice_emphasis(n),
{
    match n {
        Notice::DupsRemoved => Emphasis::Success,
        Notice::NotAddingNew => Emphasis::Neutral,
        Notice::PathDoesNotExist => Emphasis::Warning,
        Notice::NumberNotValid => Emphasis::Error,
        Notice::NotRecognized => Emphasis::Error,
        Notice::EntryDeleted => Emphasis::Success,
        Notice::EntryMoved => Emphasis::Success,
        Notice::NotEditing => Emphasis::Neutral,
    }
}

/// The textual flag printed in front of an entry.
#[derive(PartialEq, Eq, Structural, Clone, Copy, Debug)]
pub enum Flag {
    Del,
    Dup,
    Plain,
}

/// A missing path dominates the flag; a duplicate is flagged only when
/// the path exists.
pub open spec fn spec_flag(missing: bool, duplicate: bool) -> Flag {
    if missing {
        Flag::Del
    } else if duplicate {
        Flag::Dup
    } else {
        Flag::Plain
    }
}

/// The highlight overrides every other emphasis; otherwise a missing path
/// is an error and a duplicate a warning.
pub open spec fn spec_entry_emphasis(highlighted: bool, missing: bool, duplicate: bool) -> Emphasis {
    if highlighted {
        Emphasis::Highlight
    } else if missing {
        Emphasis::Error
    } else if duplicate {
        Emphasis::Warning
    } else {
        Emphasis::Neutral
    }
}

/// One line of the rendered list.
#[derive(Clone, Debug)]
pub struct RenderEntry {
    pub flag: Flag,
    pub text: String,
    pub emphasis: Emphasis,
}

/// Everything one render pass shows: the decorated entries, the pending
/// notice (already taken out of the editor), and whether the full command
/// hint applies (it does exactly when the list is non-empty).
#[derive(Clone, Debug)]
pub struct RenderModel {
    pub entries: Vec<RenderEntry>,
    pub message: Option<Notice>,
    pub show_full_hint: bool,
}

/// The rendered entries agree with the list under the given existence
/// answers and highlight.
pub open spec fn entries_match(
    entries: Seq<RenderEntry>,
    listd: Seq<Seq<char>>,
    present: Seq<bool>,
    highlight: Option<usize>,
) -> bool {
    &&& present.len() == listd.len()
    &&& entries.len() == listd.len()
    &&& forall|i: int|
        0 <= i < listd.len() ==> {
            &&& (#[trigger] entries[i]).text@ == listd[i]
            &&& entries[i].flag == spec_flag(!present[i], list::is_dup_at(listd, i))
            &&& entries[i].emphasis == spec_entry_emphasis(
                highlight == Some(i as usize),
                !present[i],
                list::is_dup_at(listd, i),
            )
        }
}

/// Decorates every entry against a given vector of existence answers.
pub fn render_entries(list: &Vec<String>, present: &Vec<bool>, highlight: Option<usize>) -> (r: Vec<
    RenderEntry,
>)
    requires
        present@.len() == list@.len(),
    ensures
        entries_match(r@, list.deep_view(), present@, highlight),
{
    let ghost dv = list.deep_view();
    let dups = list::dup_flags(list);
    let mut r: Vec<RenderEntry> = Vec::new();
    let mut i: usize = 0;
    while i < list.len()
        invariant
            i <= list@.len(),
            dv == list.deep_view(),
            dv.len() == list@.len(),
            present@.len() == list@.len(),
            dups@.len() == list@.len(),
            forall|t: int| 0 <= t < list@.len() ==> dups@[t] == list::is_dup_at(dv, t),
            r@.len() == i,
            forall|t: int|
                0 <= t < i ==> {
                    &&& (#[trigger] r@[t]).text@ == dv[t]
                    &&& r@[t].flag == spec_flag(!present@[t], list::is_dup_at(dv, t))
                    &&& r@[t].emphasis == spec_entry_emphasis(
                        highlight == Some(t as usize),
                        !present@[t],
                        list::is_dup_at(dv, t),
                    )
                },
        decreases list@.len() - i,
    {
        let missing = !present[i];
        let duplicate = dups[i];
        let highlighted = match highlight {
            Some(h) => h == i,
            None => false,
        };
        let flag = if missing {
            Flag::Del
        } else if duplicate {
            Flag::Dup
        } else {
            Flag::Plain
        };
        let emphasis = if highlighted {
            Emphasis::Highlight
        } else if missing {
            Emphasis::Error
        } else if duplicate {
            Emphasis::Warning
        } else {
            Emphasis::Neutral
        };
        r.push(RenderEntry { flag, text: list[i].clone(), emphasis });
        i += 1;
    }
    r
}

/// What the top-level loop should do after one line of input.
#[derive(PartialEq, Eq, Structural, Clone, Copy, Debug)]
pub enum TopStep {
    Continue,
    Save,
    Quit,
    AskNewPath,
    EnterEntry(usize),
}

/// What the per-entry dispatch asks of its caller.
#[derive(PartialEq, Eq, Structural, Clone, Copy, Debug)]
pub enum EntryStep {
    Done,
    AskEdit,
}

/// The interactive editor session: the ordered path list together with
/// the one-shot notice and highlight consumed by the next render.
pub struct SimpleEditor {
    pub vars: Vec<String>,
    pub msg: Option<Notice>,
    pub highlight: Option<usize>,
}

impl SimpleEditor {
    pub fn new(vars: Vec<String>) -> (e: SimpleEditor)
        ensures
            e.vars == vars,
            e.msg is None,
            e.highlight is None,
    {
        SimpleEditor { vars, msg: None, highlight: None }
    }

    /// Hands the final list back to the caller on save.
    pub fn into_vars(self) -> (r: Vec<String>)
        ensures
            r == self.vars,
    {
        self.vars
    }

    /// One render pass: produces the display model and clears the notice
    /// and the highlight, which are shown exactly once.
    pub fn render(&mut self) -> (m: RenderModel)
        ensures
            final(self).vars == old(self).vars,
            final(self).msg is None,
            final(self).highlight is None,
            m.message == old(self).msg,
            m.show_full_hint == (old(self).vars@.len() > 0),
            m.entries@.len() == old(self).vars@.len(),
            exists|present: Seq<bool>|
                entries_match(m.entries@, old(self).vars.deep_view(), present, old(self).highlight),
    {
        let present = list::existence_flags(&self.vars);
        let entries = render_entries(&self.vars, &present, self.highlight);
        let message = self.msg;
        let show_full_hint = self.vars.len() > 0;
        self.msg = None;
        self.highlight = None;
        proof {
            assert(entries_match(entries@, self.vars.deep_view(), present@, old(self).highlight));
        }
        RenderModel { entries, message, show_full_hint }
    }

    /// Dispatches one top-level line: quit, save, dedup-and-prune, ask
    /// for a new path, select an entry, or reject the input.
    pub fn handle_top(&mut self, line: &str) -> (step: TopStep)
        ensures
            ({
                let c = parse::spec_top_cmd(line@);
                match c {
                    parse::TopCmd::Quit => step == TopStep::Quit && *final(self) == *old(self),
                    parse::TopCmd::Save => step == TopStep::Save && *final(self) == *old(self),
                    parse::TopCmd::NewEntry => step == TopStep::AskNewPath && *final(self) == *old(self),
                    parse::TopCmd::DedupPrune => {
                        &&& step == TopStep::Continue
                        &&& final(self).msg == Some(Notice::DupsRemoved)
                        &&& final(self).highlight == old(self).highlight
                        &&& list::is_subseq_of(
                            final(self).vars.deep_view(),
                            list::dedup_spec(old(self).vars.deep_view()),
                        )
                        &&& exists|keep: Seq<bool>|
                            keep.len() == list::dedup_spec(old(self).vars.deep_view()).len()
                                && final(self).vars.deep_view() == list::filter_by_keep(
                                list::dedup_spec(old(self).vars.deep_view()),
                                keep,
                            )
                    },
                    parse::TopCmd::Index(n) => {
                        if n < old(self).vars@.len() {
                            step == TopStep::EnterEntry(n) && *final(self) == *old(self)
                        } else {
                            step == TopStep::Continue && final(self).vars == old(self).vars
                                && final(self).msg == Some(Notice::NumberNotValid) && final(self).highlight == old(self).highlight
                        }
                    },
                    parse::TopCmd::Unrecognized => step == TopStep::Continue && final(self).vars
                        == old(self).vars && final(self).msg == Some(Notice::NotRecognized)
                        && final(self).highlight == old(self).highlight,
                }
            }),
    {
        match parse::parse_top(line) {
            parse::TopCmd::Quit => TopStep::Quit,
            parse::TopCmd::Save => TopStep::Save,
            parse::TopCmd::NewEntry => TopStep::AskNewPath,
            parse::TopCmd::DedupPrune => {
                let deduped = list::dedup_paths(&self.vars);
                self.vars = list::remove_nonexistent(deduped);
                self.msg = Some(Notice::DupsRemoved);
                TopStep::Continue
            },
            parse::TopCmd::Index(n) => {
                if n < self.vars.len() {
                    TopStep::EnterEntry(n)
                } else {
                    self.msg = Some(Notice::NumberNotValid);
                    TopStep::Continue
                }
            },
            parse::TopCmd::Unrecognized => {
                self.msg = Some(Notice::NotRecognized);
                TopStep::Continue
            },
        }
    }

    /// Dispatches one per-entry line for the selected index: delete the
    /// entry, ask for an edited value, or move it.
    pub fn handle_entry(&mut self, num: usize, line: &str) -> (step: EntryStep)
        requires
            num < old(self).vars@.len(),
        ensures
            ({
                let c = parse::spec_entry_cmd(line@);
                let n0 = old(self).vars@.len() as int;
                match c {
                    parse::EntryCmd::Delete => step == EntryStep::Done && final(self).vars@ == old(self).vars@.remove(num as int) && final(self).msg == Some(Notice::EntryDeleted)
                        && final(self).highlight == old(self).highlight,
                    parse::EntryCmd::Edit => step == EntryStep::AskEdit && *final(self) == *old(self),
                    parse::EntryCmd::Bottom => step == EntryStep::Done && final(self).vars@
                        == list::move_seq(old(self).vars@, num as int, n0) && final(self).msg
                        == Some(Notice::EntryMoved) && final(self).highlight == Some(
                        (n0 - 1) as usize,
                    ),
                    parse::EntryCmd::Pos(p) => {
                        if p <= n0 {
                            step == EntryStep::Done && final(self).vars@ == list::move_seq(
                                old(self).vars@,
                                num as int,
                                p as int,
                            ) && final(self).msg == Some(Notice::EntryMoved) && final(self).highlight == Some(
                                (if p < n0 {
                                    p as int
                                } else {
                                    n0 - 1
                                }) as usize,
                            )
                        } else {
                            step == EntryStep::Done && final(self).vars == old(self).vars && final(self).msg == Some(Notice::NumberNotValid) && final(self).highlight == old(self).highlight
                        }
                    },
                    parse::EntryCmd::Invalid => step == EntryStep::Done && final(self).vars == old(self).vars && final(self).msg == Some(Notice::NumberNotValid) && final(self).highlight == old(self).highlight,
                }
            }),
    {
        match parse::parse_entry(line) {
            parse::EntryCmd::Delete => {
                let _ = list::delete(&mut self.vars, num);
                self.msg = Some(Notice::EntryDeleted);
                EntryStep::Done
            },
            parse::EntryCmd::Edit => EntryStep::AskEdit,
            parse::EntryCmd::Bottom => {
                let n = self.vars.len();
                let _ = list::move_to(&mut self.vars, num, n);
                self.msg = Some(Notice::EntryMoved);
                self.highlight = Some(n - 1);
                EntryStep::Done
            },
            parse::EntryCmd::Pos(p) => {
                let n = self.vars.len();
                if p <= n {
                    let _ = list::move_to(&mut self.vars, num, p);
                    self.msg = Some(Notice::EntryMoved);
                    self.highlight = Some(if p < n {
                        p
                    } else {
                        n - 1
                    });
                } else {
                    self.msg = Some(Notice::NumberNotValid);
                }
                EntryStep::Done
            },
            parse::EntryCmd::Invalid => {
                self.msg = Some(Notice::NumberNotValid);
                EntryStep::Done
            },
        }
    }

    /// Applies the answer to the new-path prompt against a given
    /// existence answer: the path is appended and highlighted either way;
    /// a warning notice is left when it does not exist.
    pub fn apply_new_path(&mut self, path: String, path_present: bool)
        ensures
            final(self).vars@ == old(self).vars@.push(path),
            final(self).highlight == Some(old(self).vars@.len() as usize),
            final(self).msg == (if path_present {
                old(self).msg
            } else {
                Some(Notice::PathDoesNotExist)
            }),
    {
        if !path_present {
            self.msg = Some(Notice::PathDoesNotExist);
        }
        let idx = list::insert(&mut self.vars, path);
        self.highlight = Some(idx);
    }

    /// Applies the answer to the new-path prompt. A cancelled prompt or an
    /// empty line leaves a neutral notice; a provided path is appended and
    /// highlighted, with a warning notice exactly when the filesystem says
    /// it does not exist.
    pub fn provide_new_path(&mut self, input: Option<String>)
        ensures
            ({
                if input is Some && input.unwrap()@.len() > 0 {
                    &&& final(self).vars@ == old(self).vars@.push(input.unwrap())
                    &&& final(self).highlight == Some(old(self).vars@.len() as usize)
                    &&& (final(self).msg == old(self).msg || final(self).msg == Some(
                        Notice::PathDoesNotExist,
                    ))
                } else {
                    &&& final(self).vars == old(self).vars
                    &&& final(self).msg == Some(Notice::NotAddingNew)
                    &&& final(self).highlight == old(self).highlight
                }
            }),
    {
        match input {
            None => {
                self.msg = Some(Notice::NotAddingNew);
            },
            Some(p) => {
                if p.as_str().unicode_len() > 0 {
                    let present = list::path_exists(&p);
                    self.apply_new_path(p, present);
                } else {
                    self.msg = Some(Notice::NotAddingNew);
                }
            },
        }
    }

    /// Applies the answer to the edit prompt for the selected index: a
    /// cancelled prompt leaves a neutral notice, a provided value
    /// replaces the entry after trimming, silently.
    pub fn provide_edit(&mut self, num: usize, input: Option<&str>)
        requires
            num < old(self).vars@.len(),
        ensures
            ({
                match input {
                    Option::None => final(self).vars == old(self).vars && final(self).msg == Some(
                        Notice::NotEditing,
                    ) && final(self).highlight == old(self).highlight,
                    Option::Some(text) => final(self).vars.deep_view() == old(self).vars.deep_view().update(num as int, parse::trim_spec(text@)) && final(self).vars@.len() == old(self).vars@.len() && final(self).msg == old(self).msg
                        && final(self).highlight == old(self).highlight,
                }
            }),
    {
        match input {
            None => {
                self.msg = Some(Notice::NotEditing);
            },
            Some(text) => {
                list::replace(&mut self.vars, num, text);
            },
        }
    }
}

} // verus!
