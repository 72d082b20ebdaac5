use project_switch::store::{
    add_project, list_projects, not_found_message, project_dir, project_exists, project_name,
    remove_project, stored_paths, AddOutcome, DirOutcome, RemoveOutcome,
};

const HEADER: &str = "# File to store your projects for PS\n";

fn added_line(outcome: AddOutcome) -> String {
    match outcome {
        AddOutcome::Added { line, .. } => line,
        AddOutcome::AlreadyExists { name } => panic!("{} is already there", name),
    }
}

fn removed_content(outcome: RemoveOutcome) -> String {
    match outcome {
        RemoveOutcome::Removed { content, .. } => content,
        RemoveOutcome::NotFound { name } => panic!("{} was not found", name),
    }
}

fn found_path(outcome: DirOutcome) -> String {
    match outcome {
        DirOutcome::Found { path } => path,
        DirOutcome::NotFound { name } => panic!("{} was not found", name),
    }
}

#[test]
fn test_methods() {
    let dir = "/home/u/work";
    let mut store = HEADER.to_string();

    let project_name = "___test_project";
    store.push_str(&added_line(add_project(&store, project_name, dir)));
    assert!(project_exists(&store, project_name));

    let project_name = "___test_project2";
    store.push_str(&added_line(add_project(&store, project_name, dir)));
    assert!(project_exists(&store, project_name));

    assert_eq!(
        list_projects(&store, false),
        vec!["___test_project".to_string(), "___test_project2".to_string()]
    );

    let project_name = "___test_project";
    store = removed_content(remove_project(&store, project_name));
    assert!(!project_exists(&store, project_name));

    let project_name = "___test_project2";
    store = removed_content(remove_project(&store, project_name));
    assert!(!project_exists(&store, project_name));

    let project_name = "___test_project";
    store.push_str(&added_line(add_project(&store, project_name, dir)));
    assert!(project_exists(&store, project_name));
    assert_eq!(found_path(project_dir(&store, project_name, &[true])), dir);
}

#[test]
fn test_cmd() {
    let dir = "/home/u/work";
    let mut store = HEADER.to_string();

    let outcome = add_project(&store, "___test_project1", dir);
    assert_eq!(format!("{}\n", outcome.message()), "Added project: ___test_project1\n");
    store.push_str(&added_line(outcome));

    let outcome = add_project(&store, "___test_project2", dir);
    assert_eq!(format!("{}\n", outcome.message()), "Added project: ___test_project2\n");
    store.push_str(&added_line(outcome));

    let mut shown = String::new();
    for entry in list_projects(&store, false) {
        shown.push_str(&entry);
        shown.push('\n');
    }
    assert_eq!(shown, "___test_project1\n___test_project2\n");

    let outcome = remove_project(&store, "___test_project1");
    assert_eq!(format!("{}\n", outcome.message()), "Removed project: ___test_project1\n");
    store = removed_content(outcome);

    let outcome = remove_project(&store, "___test_project2");
    assert_eq!(format!("{}\n", outcome.message()), "Removed project: ___test_project2\n");
    store = removed_content(outcome);

    assert_eq!(store, HEADER);
}

#[test]
fn add_then_exists() {
    assert!(!project_exists(HEADER, "foo"));
    let line = added_line(add_project(HEADER, "foo", "/home/u/foo"));
    assert_eq!(line, "foo:/home/u/foo\n");
    let store = format!("{}{}", HEADER, line);
    assert!(project_exists(&store, "foo"));
    assert!(!project_exists(&store, "bar"));
    assert!(!project_exists(&store, "fo"));
    assert!(!project_exists(&store, "foo2"));
    assert!(!project_exists(&store, ""));
}

#[test]
fn add_twice_keeps_one_record() {
    let first = added_line(add_project(HEADER, "foo", "/home/u/foo"));
    let store = format!("{}{}", HEADER, first);
    match add_project(&store, "foo", "/somewhere/else") {
        AddOutcome::AlreadyExists { name } => assert_eq!(name, "foo"),
        AddOutcome::Added { .. } => panic!("the second add must report that foo is there"),
    }
    assert_eq!(stored_paths(&store, "foo"), vec!["/home/u/foo".to_string()]);
    assert_eq!(list_projects(&store, true), vec!["foo:/home/u/foo".to_string()]);
}

#[test]
fn add_reports_a_duplicate() {
    let outcome = add_project("foo:/a\n", "foo", "/b");
    assert_eq!(outcome.message(), "The project foo already exists");
}

#[test]
fn add_gives_the_record_line() {
    match add_project(HEADER, "foo", "/home/u/foo") {
        AddOutcome::Added { name, line } => {
            assert_eq!(name, "foo");
            assert_eq!(line, "foo:/home/u/foo\n");
        }
        AddOutcome::AlreadyExists { .. } => panic!("foo is new"),
    }
    assert_eq!(added_line(add_project("", "a b", "/p:q")), "a b:/p:q\n");
    assert_eq!(added_line(add_project("x:/y", "", "/p")), ":/p\n");
}

#[test]
fn project_name_is_the_given_one() {
    assert_eq!(project_name("foo", "/home/u/bar"), Some("foo".to_string()));
    assert_eq!(project_name("foo", "/"), Some("foo".to_string()));
    assert_eq!(project_name(" ", "/home/u/bar"), Some(" ".to_string()));
}

#[test]
fn project_name_defaults_to_the_directory() {
    assert_eq!(project_name("", "/home/u/foo"), Some("foo".to_string()));
    assert_eq!(project_name("", "/home/u/foo/"), Some("foo".to_string()));
    assert_eq!(project_name("", "foo"), Some("foo".to_string()));
}

#[test]
fn project_name_without_any_name_is_none() {
    assert_eq!(project_name("", "/"), None);
    assert_eq!(project_name("", ""), None);
    assert_eq!(project_name("", "/home/u/.."), None);
}

#[test]
fn add_under_the_name_of_the_directory() {
    let name = project_name("", "/home/u/foo").unwrap();
    assert_eq!(added_line(add_project(HEADER, &name, "/home/u/foo")), "foo:/home/u/foo\n");
    match add_project("foo:/x\n", &name, "/home/u/foo") {
        AddOutcome::AlreadyExists { name } => assert_eq!(name, "foo"),
        AddOutcome::Added { .. } => panic!("foo is there"),
    }
}

#[test]
fn remove_deletes_that_line_and_keeps_the_others() {
    let store = "# File to store your projects for PS\nfoo:/a\n# a note\n\nbar:/b\nbaz:/c\n";
    let outcome = remove_project(store, "bar");
    match &outcome {
        RemoveOutcome::Removed { name, .. } => assert_eq!(name, "bar"),
        RemoveOutcome::NotFound { .. } => panic!("bar is there"),
    }
    assert_eq!(
        removed_content(outcome),
        "# File to store your projects for PS\nfoo:/a\n# a note\n\nbaz:/c\n"
    );
}

#[test]
fn remove_missing_reports_not_found() {
    let store = "# File to store your projects for PS\nfoo:/a\n";
    let outcome = remove_project(store, "bar");
    assert_eq!(outcome.message(), "Project bar not found");
    match outcome {
        RemoveOutcome::NotFound { name } => assert_eq!(name, "bar"),
        RemoveOutcome::Removed { .. } => panic!("bar is not there"),
    }
    match remove_project(store, "fo") {
        RemoveOutcome::NotFound { name } => assert_eq!(name, "fo"),
        RemoveOutcome::Removed { .. } => panic!("fo is not there"),
    }
}

#[test]
fn remove_takes_every_record_of_the_name() {
    let store = "foo:/a\nbar:/b\nfoo:/c\n";
    assert_eq!(removed_content(remove_project(store, "foo")), "bar:/b\n");
}

#[test]
fn remove_keeps_a_last_line_without_line_feed_as_it_is() {
    let store = "foo:/a\nbar:/b";
    assert_eq!(removed_content(remove_project(store, "foo")), "bar:/b");
    assert_eq!(removed_content(remove_project(store, "bar")), "foo:/a\n");
    assert_eq!(removed_content(remove_project("foo:/a", "foo")), "");
}

#[test]
fn remove_keeps_line_endings_as_they_are() {
    let store = "a:/x\r\nb:/y\r\n";
    assert_eq!(removed_content(remove_project(store, "a")), "b:/y\r\n");
    assert_eq!(removed_content(remove_project(store, "b")), "a:/x\r\n");
    let store = "# note\r\nfoo:/a\nbar:/b\r\n\r\n  \nbaz:/c\r\r\nlast";
    assert_eq!(
        removed_content(remove_project(store, "foo")),
        "# note\r\nbar:/b\r\n\r\n  \nbaz:/c\r\r\nlast"
    );
    assert_eq!(
        removed_content(remove_project(store, "bar")),
        "# note\r\nfoo:/a\n\r\n  \nbaz:/c\r\r\nlast"
    );
}

#[test]
fn remove_takes_the_line_ending_of_the_record() {
    assert_eq!(removed_content(remove_project("a:/x\r\nb:/y\n", "a")), "b:/y\n");
    assert_eq!(removed_content(remove_project("b:/y\na:/x\r\n", "a")), "b:/y\n");
    assert_eq!(removed_content(remove_project("b:/y\na:/x", "a")), "b:/y\n");
}

#[test]
fn remove_one_record_leaves_the_other_lines() {
    let store = "# File to store your projects for PS\nfoo:/a\r\n\n#c\nbar:/b\n";
    let before: Vec<&str> = store.split_inclusive('\n').collect();
    let after_text = removed_content(remove_project(store, "foo"));
    let after: Vec<&str> = after_text.split_inclusive('\n').collect();
    assert_eq!(after.len(), before.len() - 1);
    assert_eq!(after, vec![before[0], before[2], before[3], before[4]]);
}

#[test]
fn list_shows_names_in_file_order() {
    let store = "# File to store your projects for PS\nzeta:/z\nalpha:/a\nmid:/m:with:colons\n";
    assert_eq!(
        list_projects(store, false),
        vec!["zeta".to_string(), "alpha".to_string(), "mid".to_string()]
    );
}

#[test]
fn list_raw_shows_trimmed_lines() {
    let store = "# File to store your projects for PS\n  zeta:/z  \n\talpha:/a\n";
    assert_eq!(
        list_projects(store, true),
        vec!["zeta:/z".to_string(), "alpha:/a".to_string()]
    );
}

#[test]
fn list_skips_comments_and_blank_lines() {
    let store = "# one\n\n   \n\t\n#two:/x\nfoo:/a\n \u{a0}\u{3000}\n";
    assert_eq!(list_projects(store, false), vec!["foo".to_string()]);
    assert_eq!(list_projects(store, true), vec!["foo:/a".to_string()]);
    assert!(list_projects("", false).is_empty());
    assert!(list_projects("# only a comment", true).is_empty());
}

#[test]
fn list_trims_names() {
    let store = "  foo  :/a\nbar :/b\n";
    assert_eq!(list_projects(store, false), vec!["foo".to_string(), "bar".to_string()]);
}

#[test]
fn list_shows_an_empty_name_for_a_line_without_colon() {
    let store = "foo:/a\nno colon here\n:/only/path\n";
    assert_eq!(
        list_projects(store, false),
        vec!["foo".to_string(), String::new(), String::new()]
    );
    assert_eq!(
        list_projects(store, true),
        vec!["foo:/a".to_string(), "no colon here".to_string(), ":/only/path".to_string()]
    );
}

#[test]
fn list_reads_windows_line_endings() {
    let store = "foo:/a\r\nbar:/b\r\n";
    assert_eq!(
        list_projects(store, true),
        vec!["foo:/a".to_string(), "bar:/b".to_string()]
    );
}

#[test]
fn list_reads_a_last_line_without_line_feed() {
    assert_eq!(
        list_projects("foo:/a\nbar:/b", false),
        vec!["foo".to_string(), "bar".to_string()]
    );
}

#[test]
fn exists_needs_the_whole_name() {
    let store = "foobar:/a\n";
    assert!(project_exists(store, "foobar"));
    assert!(!project_exists(store, "foo"));
    assert!(!project_exists(store, "bar"));
    assert!(!project_exists(store, "foobar:"));
}

#[test]
fn exists_passes_over_comments() {
    let store = "#foo:/a\n";
    assert!(!project_exists(store, "#foo"));
    assert!(!project_exists(store, "foo"));
    match remove_project(store, "#foo") {
        RemoveOutcome::NotFound { name } => assert_eq!(name, "#foo"),
        RemoveOutcome::Removed { .. } => panic!("a comment is no record"),
    }
    assert!(stored_paths(store, "#foo").is_empty());
}

#[test]
fn exists_reads_a_line_that_begins_with_the_name_and_a_colon() {
    let store = "foo:/p:q\n";
    assert!(project_exists(store, "foo"));
    assert!(project_exists(store, "foo:/p"));
    assert!(!project_exists(store, "foo:/p:q"));
}

#[test]
fn stored_paths_follow_the_first_colon() {
    assert_eq!(stored_paths("foo:/a:b:c\n", "foo"), vec!["/a:b:c".to_string()]);
    assert_eq!(stored_paths("foo:/p:q\n", "foo:/p"), vec!["/p:q".to_string()]);
    assert_eq!(stored_paths("foo:\n", "foo"), vec![String::new()]);
    assert_eq!(
        stored_paths("foo:/a\nbar:/b\nfoo:/c\n", "foo"),
        vec!["/a".to_string(), "/c".to_string()]
    );
    assert!(stored_paths("foo:/a\n", "bar").is_empty());
}

#[test]
fn dir_gives_the_stored_path() {
    let store = "# File to store your projects for PS\nfoo:/home/u/foo\n";
    let outcome = project_dir(store, "foo", &[true]);
    assert_eq!(outcome.message(), "/home/u/foo");
    assert_eq!(found_path(outcome), "/home/u/foo");
}

#[test]
fn dir_of_a_vanished_directory_is_not_found() {
    let store = "# File to store your projects for PS\nfoo:/home/u/foo\n";
    assert!(project_exists(store, "foo"));
    let outcome = project_dir(store, "foo", &[false]);
    assert_eq!(outcome.message(), "Project foo not found");
    match outcome {
        DirOutcome::NotFound { name } => assert_eq!(name, "foo"),
        DirOutcome::Found { .. } => panic!("the directory is gone"),
    }
    match project_dir(store, "foo", &[]) {
        DirOutcome::NotFound { name } => assert_eq!(name, "foo"),
        DirOutcome::Found { .. } => panic!("nothing is known to be there"),
    }
}

#[test]
fn dir_of_an_unknown_name_is_not_found() {
    let store = "foo:/home/u/foo\n";
    match project_dir(store, "bar", &[true, true]) {
        DirOutcome::NotFound { name } => assert_eq!(name, "bar"),
        DirOutcome::Found { .. } => panic!("bar is not recorded"),
    }
}

#[test]
fn dir_takes_the_first_record_that_is_there() {
    let store = "foo:/gone\nbar:/b\nfoo:/there\nfoo:/also\n";
    assert_eq!(found_path(project_dir(store, "foo", &[false, true, true])), "/there");
    assert_eq!(found_path(project_dir(store, "foo", &[true, true, true])), "/gone");
    assert_eq!(found_path(project_dir(store, "foo", &[false, false, true])), "/also");
    match project_dir(store, "foo", &[false, false, false]) {
        DirOutcome::NotFound { .. } => {}
        DirOutcome::Found { .. } => panic!("none is there"),
    }
    match project_dir(store, "foo", &[false, false]) {
        DirOutcome::NotFound { .. } => {}
        DirOutcome::Found { .. } => panic!("the third was not asked about"),
    }
}

#[test]
fn not_found_message_names_the_project() {
    assert_eq!(not_found_message("foo"), "Project foo not found");
    assert_eq!(not_found_message(""), "Project  not found");
}

#[test]
fn scenario_add_dir_remove_dir() {
    let store = HEADER.to_string();
    let line = added_line(add_project(&store, "foo", "/home/u/foo"));
    let store = format!("{}{}", store, line);
    assert_eq!(store, "# File to store your projects for PS\nfoo:/home/u/foo\n");
    assert!(store.lines().any(|l| l == "foo:/home/u/foo"));

    let paths = stored_paths(&store, "foo");
    assert_eq!(paths, vec!["/home/u/foo".to_string()]);
    assert_eq!(project_dir(&store, "foo", &[true]).message(), "/home/u/foo");

    let store = removed_content(remove_project(&store, "foo"));
    assert_eq!(store, HEADER);

    assert!(stored_paths(&store, "foo").is_empty());
    assert_eq!(project_dir(&store, "foo", &[]).message(), "Project foo not found");
}
