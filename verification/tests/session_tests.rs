use pathman::codec::split_list;
use pathman::editor::{
    notice_emphasis, render_entries, Emphasis, EntryStep, Flag, Notice, SimpleEditor, TopStep,
};
use pathman::list::classify;

fn strings(v: &[&str]) -> Vec<String> {
    v.iter().map(|s| s.to_string()).collect()
}

#[test]
fn session_dedup_and_prune_scenario() {
    let initial = split_list("/usr/bin:/usr/bin:/missing/dir", ':');
    assert_eq!(initial, strings(&["/usr/bin", "/usr/bin", "/missing/dir"]));

    let st = classify(&initial);
    assert!(st[2].missing);
    assert!(st[0].duplicate && st[1].duplicate && !st[2].duplicate);

    let mut ed = SimpleEditor::new(initial);
    assert_eq!(ed.handle_top("dd"), TopStep::Continue);
    assert_eq!(ed.vars, strings(&["/usr/bin"]));
    assert_eq!(ed.msg, Some(Notice::DupsRemoved));
}

#[test]
fn session_new_existing_path_scenario() {
    let mut ed = SimpleEditor::new(Vec::new());
    assert_eq!(ed.handle_top("n"), TopStep::AskNewPath);
    ed.provide_new_path(Some("/usr/bin".to_string()));
    assert_eq!(ed.vars, strings(&["/usr/bin"]));
    assert_eq!(ed.highlight, Some(0));
    assert_eq!(ed.msg, None);
}

#[test]
fn session_new_missing_path_warns_but_inserts() {
    let mut ed = SimpleEditor::new(Vec::new());
    ed.provide_new_path(Some("/this/path/should/not/exist-pathman".to_string()));
    assert_eq!(
        ed.vars,
        strings(&["/this/path/should/not/exist-pathman"])
    );
    assert_eq!(ed.highlight, Some(0));
    assert_eq!(ed.msg, Some(Notice::PathDoesNotExist));
}

#[test]
fn session_new_path_cancelled() {
    let mut ed = SimpleEditor::new(strings(&["a"]));
    ed.provide_new_path(None);
    assert_eq!(ed.vars, strings(&["a"]));
    assert_eq!(ed.msg, Some(Notice::NotAddingNew));
}

#[test]
fn session_new_path_empty_line_adds_nothing() {
    let mut ed = SimpleEditor::new(strings(&["a"]));
    ed.provide_new_path(Some(String::new()));
    assert_eq!(ed.vars, strings(&["a"]));
    assert_eq!(ed.highlight, None);
    assert_eq!(ed.msg, Some(Notice::NotAddingNew));
}

#[test]
fn session_move_to_bottom_scenario() {
    let mut ed = SimpleEditor::new(strings(&["a", "b", "c"]));
    assert_eq!(ed.handle_top("0"), TopStep::EnterEntry(0));
    assert_eq!(ed.handle_entry(0, "b"), EntryStep::Done);
    assert_eq!(ed.vars, strings(&["b", "c", "a"]));
    assert_eq!(ed.highlight, Some(2));
    assert_eq!(ed.msg, Some(Notice::EntryMoved));
}

#[test]
fn session_move_to_top_scenario() {
    let mut ed = SimpleEditor::new(strings(&["a", "b", "c"]));
    assert_eq!(ed.handle_top("2"), TopStep::EnterEntry(2));
    assert_eq!(ed.handle_entry(2, "0"), EntryStep::Done);
    assert_eq!(ed.vars, strings(&["c", "a", "b"]));
    assert_eq!(ed.highlight, Some(0));
}

#[test]
fn session_move_out_of_range_is_an_error() {
    let mut ed = SimpleEditor::new(strings(&["a", "b", "c"]));
    assert_eq!(ed.handle_entry(0, "4"), EntryStep::Done);
    assert_eq!(ed.vars, strings(&["a", "b", "c"]));
    assert_eq!(ed.msg, Some(Notice::NumberNotValid));
}

#[test]
fn session_delete_entry() {
    let mut ed = SimpleEditor::new(strings(&["a", "b", "c"]));
    assert_eq!(ed.handle_entry(1, "d"), EntryStep::Done);
    assert_eq!(ed.vars, strings(&["a", "c"]));
    assert_eq!(ed.msg, Some(Notice::EntryDeleted));
}

#[test]
fn session_edit_entry_trims_and_replaces() {
    let mut ed = SimpleEditor::new(strings(&["a", "b"]));
    assert_eq!(ed.handle_entry(1, "e"), EntryStep::AskEdit);
    ed.provide_edit(1, Some(" /edited "));
    assert_eq!(ed.vars, strings(&["a", "/edited"]));
    assert_eq!(ed.msg, None);
}

#[test]
fn session_edit_cancelled_keeps_the_entry() {
    let mut ed = SimpleEditor::new(strings(&["a", "b"]));
    ed.provide_edit(1, None);
    assert_eq!(ed.vars, strings(&["a", "b"]));
    assert_eq!(ed.msg, Some(Notice::NotEditing));
}

#[test]
fn session_quit_save_and_rejections() {
    let mut ed = SimpleEditor::new(strings(&["a"]));
    assert_eq!(ed.handle_top(" q "), TopStep::Quit);
    assert_eq!(ed.handle_top("s"), TopStep::Save);
    assert_eq!(ed.handle_top("9"), TopStep::Continue);
    assert_eq!(ed.msg, Some(Notice::NumberNotValid));
    assert_eq!(ed.handle_top("bogus"), TopStep::Continue);
    assert_eq!(ed.msg, Some(Notice::NotRecognized));
    assert_eq!(ed.into_vars(), strings(&["a"]));
}

#[test]
fn render_clears_the_one_shot_state() {
    let mut ed = SimpleEditor::new(strings(&["a", "b"]));
    ed.msg = Some(Notice::EntryMoved);
    ed.highlight = Some(1);
    let m = ed.render();
    assert_eq!(m.message, Some(Notice::EntryMoved));
    assert!(m.show_full_hint);
    assert_eq!(m.entries.len(), 2);
    assert_eq!(m.entries[1].emphasis, Emphasis::Highlight);
    assert_eq!(ed.msg, None);
    assert_eq!(ed.highlight, None);

    let empty = SimpleEditor::new(Vec::new()).render();
    assert!(!empty.show_full_hint);
}

#[test]
fn render_flags_follow_the_missing_over_duplicate_precedence() {
    let list = strings(&["x", "x", "y"]);
    let present = vec![false, true, true];
    let entries = render_entries(&list, &present, Some(2));
    assert_eq!(entries[0].flag, Flag::Del);
    assert_eq!(entries[0].emphasis, Emphasis::Error);
    assert_eq!(entries[1].flag, Flag::Dup);
    assert_eq!(entries[1].emphasis, Emphasis::Warning);
    assert_eq!(entries[2].flag, Flag::Plain);
    assert_eq!(entries[2].emphasis, Emphasis::Highlight);
    assert_eq!(entries[2].text, "y");
}

#[test]
fn notice_emphasis_levels() {
    assert_eq!(notice_emphasis(Notice::DupsRemoved), Emphasis::Success);
    assert_eq!(notice_emphasis(Notice::NotAddingNew), Emphasis::Neutral);
    assert_eq!(notice_emphasis(Notice::PathDoesNotExist), Emphasis::Warning);
    assert_eq!(notice_emphasis(Notice::NumberNotValid), Emphasis::Error);
    assert_eq!(notice_emphasis(Notice::NotRecognized), Emphasis::Error);
    assert_eq!(notice_emphasis(Notice::EntryDeleted), Emphasis::Success);
    assert_eq!(notice_emphasis(Notice::EntryMoved), Emphasis::Success);
    assert_eq!(notice_emphasis(Notice::NotEditing), Emphasis::Neutral);
}
