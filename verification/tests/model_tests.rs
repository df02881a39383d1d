use pathman::codec::{join_list, split_list};
use pathman::list::{
    classify, classify_with, dedup_paths, delete, dup_flags, dup_indices, find_dups, insert,
    move_to, prune_with, remove_dups, remove_nonexistent, replace, ListError,
};
use pathman::parse::{parse_entry, parse_top, trim_of, EntryCmd, TopCmd};
use std::collections::HashSet;
use std::hash::Hash;

fn vec_to_set<T: Eq + Hash>(v: Vec<T>) -> HashSet<T> {
    let mut set = HashSet::new();
    for e in v {
        set.insert(e);
    }
    set
}

fn strings(v: &[&str]) -> Vec<String> {
    v.iter().map(|s| s.to_string()).collect()
}

#[test]
fn test_find_deups() {
    let v = vec![1, 2, 3, 4, 5];
    assert_eq!(find_dups(&v), vec!());
    //                     0 1 2 3 4 5 6 7
    let v = vec![1, 1, 2, 2, 3, 4, 5, 1];
    assert_eq!(vec_to_set(find_dups(&v)), vec_to_set(vec!(0, 1, 7, 2, 3)));
}

#[test]
fn test_remove_dups() {
    let v = vec![1, 2, 3, 4, 5];
    assert_eq!(remove_dups(v.clone()), v);

    let v = vec![1, 1, 2, 3, 1, 2, 4, 5, 5, 2, 4];
    assert_eq!(remove_dups(v.clone()), vec!(1, 2, 3, 4, 5));
}

#[test]
fn classify_reports_no_duplicates_on_unique_list() {
    let list = strings(&["/usr", "/usr/bin", "/"]);
    let st = classify(&list);
    assert_eq!(st.len(), 3);
    for s in st {
        assert!(!s.duplicate);
    }
}

#[test]
fn classify_flags_every_occurrence_of_a_repeat() {
    let list = strings(&["a", "a", "b", "b", "c", "d", "e", "a"]);
    let st = classify(&list);
    let dups: Vec<usize> = (0..st.len()).filter(|&i| st[i].duplicate).collect();
    assert_eq!(dups, vec![0usize, 1, 2, 3, 7]);
}

#[test]
fn classify_with_reports_missing_from_the_given_answers() {
    let list = strings(&["a", "b", "a"]);
    let present = vec![true, false, true];
    let st = classify_with(&list, &present);
    assert!(!st[0].missing && st[0].duplicate);
    assert!(st[1].missing && !st[1].duplicate);
    assert!(!st[2].missing && st[2].duplicate);
}

#[test]
fn dedup_keeps_first_occurrences_in_order() {
    let l = strings(&["a", "b", "a", "c", "b", "d"]);
    let d = dedup_paths(&l);
    assert_eq!(d, strings(&["a", "b", "c", "d"]));
}

#[test]
fn dedup_is_idempotent() {
    let l = strings(&["a", "b", "a", "c", "b", "d"]);
    let once = dedup_paths(&l);
    let twice = dedup_paths(&once);
    assert_eq!(twice, once);
}

#[test]
fn dedup_leaves_a_unique_list_unchanged() {
    let l = strings(&["x", "y", "z"]);
    assert_eq!(dedup_paths(&l), l);
}

#[test]
fn dup_indices_lists_every_occurrence_in_order() {
    let list = strings(&["a", "a", "b", "b", "c", "d", "e", "a"]);
    assert_eq!(dup_indices(&list), vec![0usize, 1, 2, 3, 7]);
    let paths = strings(&["/usr/bin", "/usr/bin", "/missing/dir"]);
    assert_eq!(dup_indices(&paths), vec![0usize, 1]);
    assert_eq!(dup_indices(&strings(&["x", "y"])), Vec::<usize>::new());
}

#[test]
fn dup_flags_mark_exactly_the_repeated_strings() {
    let list = strings(&["a", "b", "a"]);
    assert_eq!(dup_flags(&list), vec![true, false, true]);
}

#[test]
fn prune_with_keeps_exactly_the_marked_entries() {
    let list = strings(&["a", "b", "c"]);
    assert_eq!(
        prune_with(&list, &vec![true, false, true]),
        strings(&["a", "c"])
    );
    assert_eq!(prune_with(&list, &vec![false, false, false]), strings(&[]));
    assert_eq!(prune_with(&list, &vec![true, true, true]), list);
}

#[test]
fn dedup_then_prune_on_given_answers_matches_the_dd_outcome() {
    let initial = strings(&["/usr/bin", "/usr/bin", "/missing/dir"]);
    let deduped = dedup_paths(&initial);
    assert_eq!(deduped, strings(&["/usr/bin", "/missing/dir"]));
    let pruned = prune_with(&deduped, &vec![true, false]);
    assert_eq!(pruned, strings(&["/usr/bin"]));
}

#[test]
fn prune_drops_only_missing_paths_and_keeps_order() {
    let l = strings(&["/usr/bin", "/this/path/should/not/exist-pathman", "/"]);
    let pruned = remove_nonexistent(l.clone());
    assert_eq!(pruned, strings(&["/usr/bin", "/"]));
    assert!(pruned.len() <= l.len());
}

#[test]
fn delete_removes_exactly_the_indexed_entry() {
    let mut l = strings(&["a", "b", "c"]);
    assert_eq!(delete(&mut l, 1), Ok(()));
    assert_eq!(l, strings(&["a", "c"]));
    assert_eq!(l.len(), 2);
}

#[test]
fn delete_past_the_end_fails_without_mutating() {
    let mut l = strings(&["a", "b", "c"]);
    assert_eq!(delete(&mut l, 3), Err(ListError::IndexOutOfRange));
    assert_eq!(l, strings(&["a", "b", "c"]));
}

#[test]
fn move_to_same_position_changes_nothing() {
    let mut l = strings(&["a", "b", "c"]);
    assert_eq!(move_to(&mut l, 1, 1), Ok(()));
    assert_eq!(l, strings(&["a", "b", "c"]));
}

#[test]
fn move_to_len_is_the_bottom_shorthand() {
    let mut l = strings(&["a", "b", "c"]);
    assert_eq!(move_to(&mut l, 0, 3), Ok(()));
    assert_eq!(l, strings(&["b", "c", "a"]));

    let mut m = strings(&["a", "b", "c"]);
    let entry = m.remove(0);
    m.push(entry);
    assert_eq!(l, m);
}

#[test]
fn move_to_past_len_fails_without_mutating() {
    let mut l = strings(&["a", "b", "c"]);
    assert_eq!(move_to(&mut l, 0, 4), Err(ListError::IndexOutOfRange));
    assert_eq!(l, strings(&["a", "b", "c"]));
}

#[test]
fn insert_appends_and_reports_the_new_index() {
    let mut l = strings(&["a"]);
    let idx = insert(&mut l, "b".to_string());
    assert_eq!(idx, 1);
    assert_eq!(l, strings(&["a", "b"]));
}

#[test]
fn replace_stores_the_trimmed_value() {
    let mut l = strings(&["a", "b"]);
    replace(&mut l, 1, "  /new/path  ");
    assert_eq!(l, strings(&["a", "/new/path"]));
}

#[test]
fn trim_strips_both_ends_only() {
    assert_eq!(trim_of("  a b\t"), "a b");
    assert_eq!(trim_of("x"), "x");
    assert_eq!(trim_of("   "), "");
    assert_eq!(trim_of(""), "");
}

#[test]
fn trim_strips_unicode_whitespace_like_str_trim() {
    let padded = "\u{a0}\u{2003}x y\u{3000}\u{85}";
    assert_eq!(trim_of(padded), padded.trim());
    assert_eq!(trim_of(padded), "x y");
    assert_eq!(trim_of("\u{2028}q\u{2029}"), "q");
}

#[test]
fn top_commands_parse_after_trimming() {
    assert_eq!(parse_top(" q "), TopCmd::Quit);
    assert_eq!(parse_top("s"), TopCmd::Save);
    assert_eq!(parse_top("dd"), TopCmd::DedupPrune);
    assert_eq!(parse_top("n"), TopCmd::NewEntry);
    assert_eq!(parse_top(" 7"), TopCmd::Index(7));
    assert_eq!(parse_top("+3"), TopCmd::Index(3));
    assert_eq!(parse_top("hello"), TopCmd::Unrecognized);
    assert_eq!(parse_top(""), TopCmd::Unrecognized);
    assert_eq!(parse_top("+"), TopCmd::Unrecognized);
    assert_eq!(parse_top("99999999999999999999999999"), TopCmd::Unrecognized);
}

#[test]
fn entry_commands_parse_without_trimming() {
    assert_eq!(parse_entry("d"), EntryCmd::Delete);
    assert_eq!(parse_entry("e"), EntryCmd::Edit);
    assert_eq!(parse_entry("b"), EntryCmd::Bottom);
    assert_eq!(parse_entry("2"), EntryCmd::Pos(2));
    assert_eq!(parse_entry(" d"), EntryCmd::Invalid);
    assert_eq!(parse_entry("db"), EntryCmd::Invalid);
}

#[test]
fn join_uses_one_separator_between_entries() {
    let l = strings(&["a", "b", "c"]);
    assert_eq!(join_list(&l, ':'), "a:b:c");
    assert_eq!(join_list(&strings(&["solo"]), ':'), "solo");
    assert_eq!(join_list(&strings(&[]), ':'), "");
}

#[test]
fn split_discards_empty_segments() {
    assert_eq!(split_list(":a::b:", ':'), strings(&["a", "b"]));
    assert_eq!(split_list("", ':'), strings(&[]));
    assert_eq!(split_list(":::", ':'), strings(&[]));
}

#[test]
fn join_then_split_round_trips() {
    let l = strings(&["/usr/bin", "/usr/local/bin", "/opt"]);
    let joined = join_list(&l, ':');
    assert_eq!(split_list(&joined, ':'), l);
}
