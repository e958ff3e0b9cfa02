use log_searcher::file_selector::{select_candidate_files, sort_files_by_mtime, FileEntry};

fn make_file(name: &str, mtime: u64) -> FileEntry {
    FileEntry {
        name: name.into(),
        mtime,
    }
}

#[test]
fn test_minimal_selection() {
    let all_files = vec![
        make_file("a.log", 100),
        make_file("b.log", 200),
        make_file("c.log", 300),
    ];

    let result = select_candidate_files(&all_files, 150, 250);
    assert_eq!(result, vec!["b.log", "c.log"]);
}

#[test]
fn test_multiple_selection() {
    let all_files = vec![
        make_file("a.log", 100),
        make_file("b.log", 200),
        make_file("c.log", 250),
        make_file("d.log", 300),
        make_file("e.log", 350),
        make_file("f.log", 400),
    ];

    let result = select_candidate_files(&all_files, 150, 300);
    assert_eq!(result, vec!["b.log", "c.log", "d.log", "e.log"]);
}

#[test]
fn test_no_selection() {
    let all_files = vec![make_file("a.log", 100), make_file("b.log", 200)];

    let result = select_candidate_files(&all_files, 300, 400);
    assert!(result.is_empty());
}

#[test]
fn test_boundary_file_is_last() {
    let all_files = vec![
        make_file("a.log", 100),
        make_file("b.log", 200),
        make_file("c.log", 300),
        make_file("d.log", 400),
    ];

    // c.log is just past the window and ends the selection; d.log is never
    // reached.
    let result = select_candidate_files(&all_files, 150, 250);
    assert_eq!(result, vec!["b.log", "c.log"]);
}

#[test]
fn test_selection_of_whole_window() {
    let all_files = vec![make_file("a.log", 100), make_file("b.log", 200)];

    let result = select_candidate_files(&all_files, 100, 200);
    assert_eq!(result, vec!["a.log", "b.log"]);
}

#[test]
fn test_sort_files_by_mtime() {
    let mut files = vec![
        make_file("c.log", 300),
        make_file("a.log", 100),
        make_file("d.log", 400),
        make_file("b.log", 200),
    ];
    sort_files_by_mtime(&mut files);
    let names: Vec<String> = files.iter().map(|f| f.name.clone()).collect();
    assert_eq!(names, vec!["a.log", "b.log", "c.log", "d.log"]);
    let mtimes: Vec<u64> = files.iter().map(|f| f.mtime).collect();
    assert_eq!(mtimes, vec![100, 200, 300, 400]);
}

#[test]
fn test_sort_then_select() {
    let mut files = vec![
        make_file("late.log", 500),
        make_file("early.log", 50),
        make_file("mid.log", 250),
    ];
    sort_files_by_mtime(&mut files);
    let result = select_candidate_files(&files, 200, 300);
    assert_eq!(result, vec!["mid.log", "late.log"]);
}
