use filesync::paths::normalize_path;
use filesync::fileorder::{compare_paths, sort_entries, FileEntry, Precedence};
use filesync::machine::{timestamp_from_clock, Machine};

fn entry(path: &str, time: i128) -> FileEntry {
    (path.as_bytes().to_vec(), time)
}

#[test]
fn new_machine_has_time_and_no_files() {
    let m = Machine::new(42);
    assert_eq!(m.time(), 42);
    assert!(m.files().is_empty());
}

#[test]
fn new_now_has_no_files() {
    let m = Machine::new_now();
    assert!(m.files().is_empty());
}

#[test]
fn new_with_fs_keeps_files() {
    let fs = vec![entry("./a", 1), entry("./b", 2)];
    let m = Machine::new_with_fs(7, fs.clone());
    assert_eq!(m.time(), 7);
    assert_eq!(m.files(), &fs);
}

#[test]
fn timestamp_after_epoch() {
    assert_eq!(timestamp_from_clock(Ok((1, 5))), 1_000_000_005);
    assert_eq!(timestamp_from_clock(Ok((0, 0))), 0);
}

#[test]
fn timestamp_before_epoch() {
    assert_eq!(timestamp_from_clock(Err((2, 0))), -2_000_000_000);
    assert_eq!(timestamp_from_clock(Err((0, 7))), -7);
}

#[test]
fn newer_files_missing_and_newer() {
    let own = Machine::new_with_fs(0, vec![entry("./b", 10), entry("./a", 10), entry("./c", 10)]);
    let other = Machine::new_with_fs(0, vec![
        entry("./d", 1),
        entry("./c", 9),
        entry("./a", 11),
        entry("./b", 10),
    ]);
    // a is newer on the other machine, d is missing here; b is as old, c older.
    assert_eq!(own.newer_files_from(&other), vec![entry("./a", 11), entry("./d", 1)]);
}

#[test]
fn newer_files_from_empty_machine() {
    let own = Machine::new(0);
    let other = Machine::new_with_fs(0, vec![entry("./z", 3), entry("./y", 4)]);
    assert_eq!(own.newer_files_from(&other), vec![entry("./y", 4), entry("./z", 3)]);
    assert!(other.newer_files_from(&own).is_empty());
}

#[test]
fn nothing_newer_than_itself() {
    let m = Machine::new_with_fs(0, vec![entry("./x", 1), entry("./y/z", 2)]);
    assert!(m.newer_files_from(&m).is_empty());
}

#[test]
fn no_file_newer_both_ways() {
    let a = Machine::new_with_fs(0, vec![entry("./f", 5), entry("./g", 1)]);
    let b = Machine::new_with_fs(0, vec![entry("./f", 3), entry("./g", 2)]);
    assert_eq!(a.newer_files_from(&b), vec![entry("./g", 2)]);
    assert_eq!(b.newer_files_from(&a), vec![entry("./f", 5)]);
}

#[test]
fn newer_files_sorted_by_components() {
    let own = Machine::new(0);
    let other = Machine::new_with_fs(0, vec![entry("a-b", 1), entry("a/b", 1), entry("a", 1)]);
    assert_eq!(own.newer_files_from(&other), vec![entry("a", 1), entry("a/b", 1), entry("a-b", 1)]);
}

#[test]
fn newer_files_with_repeated_paths() {
    // Only a file newer than every copy on this machine is returned.
    let own = Machine::new_with_fs(0, vec![entry("p", 5), entry("p", 8)]);
    let other = Machine::new_with_fs(0, vec![entry("p", 7), entry("p", 9), entry("p", 9)]);
    assert_eq!(own.newer_files_from(&other), vec![entry("p", 9), entry("p", 9)]);
}

#[test]
fn compare_paths_cases() {
    let p = |s: &str| s.as_bytes().to_vec();
    assert_eq!(compare_paths(&p("a"), &p("a")), Precedence::Same);
    assert_eq!(compare_paths(&p("a"), &p("ab")), Precedence::Before);
    assert_eq!(compare_paths(&p("b"), &p("ab")), Precedence::After);
    assert_eq!(compare_paths(&p("a/b"), &p("a-b")), Precedence::Before);
    assert_eq!(compare_paths(&p(""), &p("")), Precedence::Same);
}

#[test]
fn sort_entries_orders_by_path_then_time() {
    let v = vec![entry("b", 2), entry("a", 3), entry("b", 1), entry("a/c", 0)];
    assert_eq!(sort_entries(&v), vec![entry("a", 3), entry("a/c", 0), entry("b", 1), entry("b", 2)]);
}

#[test]
fn new_now_reads_the_clock() {
    // The clock of any machine running this is past 2020-09-13 (1.6e9 seconds).
    let m = Machine::new_now();
    assert!(m.time() > 1_600_000_000_000_000_000);
}

#[test]
fn newer_files_ignore_list_order_and_times() {
    let a1 = Machine::new_with_fs(1, vec![entry("x", 5), entry("y", 2)]);
    let b1 = Machine::new_with_fs(2, vec![entry("y", 3), entry("z", 1), entry("x", 4)]);
    let a2 = Machine::new_with_fs(99, vec![entry("y", 2), entry("x", 5)]);
    let b2 = Machine::new_with_fs(-7, vec![entry("x", 4), entry("z", 1), entry("y", 3)]);
    assert_eq!(a1.newer_files_from(&b1), a2.newer_files_from(&b2));
    assert_eq!(a1.newer_files_from(&b1), vec![entry("y", 3), entry("z", 1)]);
}

#[test]
fn normalize_path_cases() {
    let n = |s: &str| String::from_utf8(normalize_path(&s.as_bytes().to_vec())).unwrap();
    assert_eq!(n("a//b"), "a/b");
    assert_eq!(n("a/b/"), "a/b");
    assert_eq!(n("a/./b"), "a/b");
    assert_eq!(n("./a"), "./a");
    assert_eq!(n("/./a/"), "/a");
    assert_eq!(n("//"), "/");
    assert_eq!(n("."), ".");
    assert_eq!(n("../x"), "../x");
    assert_eq!(n(""), "");
}

#[test]
fn paths_with_the_same_components_are_one_file() {
    let own = Machine::new_with_fs(0, vec![entry("d//f", 5), entry("./e/", 1)]);
    let other = Machine::new_with_fs(0, vec![entry("d/f", 4), entry("./e", 2)]);
    assert_eq!(own.files(), &vec![entry("d/f", 5), entry("./e", 1)]);
    assert_eq!(own.newer_files_from(&other), vec![entry("./e", 2)]);
}
