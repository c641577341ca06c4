use notes_fs::entry::{CopyStep, EntryKind, FileWrite, ProbedPath, Relocation, Removal};
use notes_fs::error::{FsError, NameFault};
use notes_fs::mutate::{
    copy_entries_to_folder, create_folder, create_markdown_file, delete_entry, move_entry,
    rename_entry,
};

fn disk(taken: &[&str]) -> impl Fn(String) -> bool {
    let owned: Vec<String> = taken.iter().map(|s| s.to_string()).collect();
    move |p: String| owned.contains(&p)
}

fn unchanged(path: &str) -> Result<Relocation, FsError> {
    Ok(Relocation::Unchanged { path: path.to_string() })
}

fn renamed(from: &str, to: &str) -> Result<Relocation, FsError> {
    Ok(Relocation::Rename { from: from.to_string(), to: to.to_string() })
}

fn source(path: &str, kind: EntryKind) -> ProbedPath {
    ProbedPath { path: path.to_string(), kind }
}

fn step(from: &str, to: &str, is_dir: bool) -> CopyStep {
    CopyStep { from: from.to_string(), to: to.to_string(), is_dir }
}

#[test]
fn create_folder_returns_the_free_path() {
    let probe = disk(&[]);
    assert_eq!(
        create_folder("/notes", "Work", EntryKind::Directory, &probe),
        Ok("/notes/Work".to_string())
    );
}

#[test]
fn create_folder_numbers_a_taken_name_without_splitting() {
    let probe = disk(&["/notes/v1.0", "/notes/v1.0 1"]);
    assert_eq!(
        create_folder("/notes", "v1.0", EntryKind::Directory, &probe),
        Ok("/notes/v1.0 2".to_string())
    );
}

#[test]
fn create_folder_rejects_bad_names_first() {
    let probe = disk(&[]);
    assert_eq!(
        create_folder("/missing", "", EntryKind::Missing, &probe),
        Err(FsError::InvalidName(NameFault::Empty))
    );
    assert_eq!(
        create_folder("/notes", "a/b", EntryKind::Directory, &probe),
        Err(FsError::InvalidName(NameFault::Separator))
    );
    assert_eq!(
        create_folder("/notes", "a:b", EntryKind::Directory, &probe),
        Err(FsError::InvalidName(NameFault::ForbiddenChar))
    );
}

#[test]
fn create_folder_needs_a_directory_as_parent() {
    let probe = disk(&[]);
    assert_eq!(create_folder("/missing", "Work", EntryKind::Missing, &probe), Err(FsError::NotFound));
    assert_eq!(
        create_folder("/notes/a.md", "Work", EntryKind::File, &probe),
        Err(FsError::NotADirectory)
    );
    assert_eq!(
        create_folder("/dev/null", "Work", EntryKind::Other, &probe),
        Err(FsError::NotADirectory)
    );
}

#[test]
fn create_folder_gives_up_when_every_name_is_taken() {
    let probe = |_p: String| true;
    assert_eq!(
        create_folder("/notes", "Work", EntryKind::Directory, &probe),
        Err(FsError::NoAvailableName)
    );
}

#[test]
fn create_file_writes_the_given_content() {
    let probe = disk(&[]);
    assert_eq!(
        create_markdown_file(
            "/notes",
            "todo.md",
            Some("# Todo\n".to_string()),
            EntryKind::Directory,
            &probe
        ),
        Ok(FileWrite { path: "/notes/todo.md".to_string(), content: "# Todo\n".to_string() })
    );
}

#[test]
fn create_file_defaults_to_empty_content() {
    let probe = disk(&[]);
    assert_eq!(
        create_markdown_file("/notes", "todo.md", None, EntryKind::Directory, &probe),
        Ok(FileWrite { path: "/notes/todo.md".to_string(), content: String::new() })
    );
}

#[test]
fn create_file_numbers_before_the_extension() {
    let probe = disk(&["/notes/todo.md"]);
    assert_eq!(
        create_markdown_file("/notes", "todo.md", None, EntryKind::Directory, &probe),
        Ok(FileWrite { path: "/notes/todo 1.md".to_string(), content: String::new() })
    );
}

#[test]
fn create_file_fails_like_create_folder() {
    let probe = disk(&[]);
    assert_eq!(
        create_markdown_file("/notes", "a|b.md", None, EntryKind::Directory, &probe),
        Err(FsError::InvalidName(NameFault::ForbiddenChar))
    );
    assert_eq!(
        create_markdown_file("/missing", "a.md", None, EntryKind::Missing, &probe),
        Err(FsError::NotFound)
    );
    assert_eq!(
        create_markdown_file("/notes/x.md", "a.md", None, EntryKind::File, &probe),
        Err(FsError::NotADirectory)
    );
    let full = |_p: String| true;
    assert_eq!(
        create_markdown_file("/notes", "a.md", None, EntryKind::Directory, &full),
        Err(FsError::NoAvailableName)
    );
}

#[test]
fn rename_to_the_current_name_is_a_no_op() {
    let probe = disk(&["/notes/todo.md"]);
    assert_eq!(
        rename_entry("/notes/todo.md", "todo.md", EntryKind::File, &probe),
        unchanged("/notes/todo.md")
    );
    assert_eq!(
        rename_entry("/notes/Work/", "Work", EntryKind::Directory, &probe),
        unchanged("/notes/Work/")
    );
}

#[test]
fn rename_to_the_current_name_asks_nothing() {
    let probe = |_p: String| -> bool { panic!("the probe must not be asked") };
    assert_eq!(
        rename_entry("/notes/todo.md", "todo.md", EntryKind::File, &probe),
        unchanged("/notes/todo.md")
    );
}

#[test]
fn rename_moves_to_the_new_name_in_the_same_folder() {
    let probe = disk(&["/notes/todo.md"]);
    assert_eq!(
        rename_entry("/notes/todo.md", "done.md", EntryKind::File, &probe),
        renamed("/notes/todo.md", "/notes/done.md")
    );
}

#[test]
fn rename_onto_a_taken_name_is_numbered() {
    let probe = disk(&["/notes/todo.md", "/notes/done.md"]);
    assert_eq!(
        rename_entry("/notes/todo.md", "done.md", EntryKind::File, &probe),
        renamed("/notes/todo.md", "/notes/done 1.md")
    );
}

#[test]
fn rename_of_a_folder_does_not_split_the_name() {
    let probe = disk(&["/notes/a", "/notes/b.c"]);
    assert_eq!(
        rename_entry("/notes/a", "b.c", EntryKind::Directory, &probe),
        renamed("/notes/a", "/notes/b.c 1")
    );
}

#[test]
fn rename_at_the_top_level_stays_under_the_root() {
    let probe = disk(&["/notes"]);
    assert_eq!(
        rename_entry("/notes", "archive", EntryKind::Directory, &probe),
        renamed("/notes", "/archive")
    );
}

#[test]
fn rename_checks_the_name_before_the_source() {
    let probe = disk(&[]);
    assert_eq!(
        rename_entry("/missing", "", EntryKind::Missing, &probe),
        Err(FsError::InvalidName(NameFault::Empty))
    );
    assert_eq!(
        rename_entry("/notes/a.md", "b/c.md", EntryKind::File, &probe),
        Err(FsError::InvalidName(NameFault::Separator))
    );
}

#[test]
fn rename_of_a_missing_source_is_not_found() {
    let probe = disk(&[]);
    assert_eq!(rename_entry("/notes/a.md", "b.md", EntryKind::Missing, &probe), Err(FsError::NotFound));
}

#[test]
fn rename_of_a_path_without_a_name_is_invalid_source() {
    let probe = disk(&[]);
    assert_eq!(rename_entry("/", "b", EntryKind::Directory, &probe), Err(FsError::InvalidSource));
    assert_eq!(rename_entry("/notes/..", "b", EntryKind::Directory, &probe), Err(FsError::InvalidSource));
}

#[test]
fn rename_fails_when_every_name_is_taken() {
    let probe = |_p: String| true;
    assert_eq!(
        rename_entry("/notes/a.md", "b.md", EntryKind::File, &probe),
        Err(FsError::NoAvailableName)
    );
}

#[test]
fn rename_that_resolves_to_the_source_itself_is_a_no_op() {
    let probe = disk(&[]);
    assert_eq!(
        rename_entry("/notes/./a.md", "a.md", EntryKind::File, &probe),
        unchanged("/notes/./a.md")
    );
    let racing = disk(&["/notes/b.md"]);
    assert_eq!(
        rename_entry("/notes/b 1.md", "b.md", EntryKind::File, &racing),
        unchanged("/notes/b 1.md")
    );
}

#[test]
fn delete_tells_files_from_trees() {
    assert_eq!(
        delete_entry("/notes/a.md", EntryKind::File),
        Ok(Removal::File { path: "/notes/a.md".to_string() })
    );
    assert_eq!(
        delete_entry("/notes/Work", EntryKind::Directory),
        Ok(Removal::Tree { path: "/notes/Work".to_string() })
    );
    assert_eq!(
        delete_entry("/notes/socket", EntryKind::Other),
        Ok(Removal::File { path: "/notes/socket".to_string() })
    );
}

#[test]
fn delete_of_a_missing_target_is_not_found() {
    assert_eq!(delete_entry("/notes/a.md", EntryKind::Missing), Err(FsError::NotFound));
}

#[test]
fn move_into_the_own_parent_is_a_no_op() {
    let probe = disk(&["/notes/Work"]);
    assert_eq!(
        move_entry("/notes/Work", "/notes", EntryKind::Directory, EntryKind::Directory, &probe),
        unchanged("/notes/Work")
    );
    assert_eq!(
        move_entry("/notes/a.md", "/notes/", EntryKind::File, EntryKind::Directory, &probe),
        unchanged("/notes/a.md")
    );
    assert_eq!(
        move_entry("/notes", "/", EntryKind::Directory, EntryKind::Directory, &probe),
        unchanged("/notes")
    );
}

#[test]
fn move_into_a_child_is_self_containment() {
    let probe = disk(&[]);
    assert_eq!(
        move_entry("/notes/Work", "/notes/Work/Sub", EntryKind::Directory, EntryKind::Directory, &probe),
        Err(FsError::SelfContainment)
    );
    assert_eq!(
        move_entry("/notes/Work", "/notes/Work/a/b/c", EntryKind::Directory, EntryKind::Directory, &probe),
        Err(FsError::SelfContainment)
    );
}

#[test]
fn move_into_itself_is_self_containment() {
    let probe = disk(&[]);
    assert_eq!(
        move_entry("/notes/Work", "/notes/Work", EntryKind::Directory, EntryKind::Directory, &probe),
        Err(FsError::SelfContainment)
    );
    assert_eq!(
        move_entry("/notes/Work", "/notes/./Work/", EntryKind::Directory, EntryKind::Directory, &probe),
        Err(FsError::SelfContainment)
    );
}

#[test]
fn move_next_to_a_folder_with_a_longer_name_is_allowed() {
    let probe = disk(&[]);
    assert_eq!(
        move_entry("/notes/Work", "/notes/Work2", EntryKind::Directory, EntryKind::Directory, &probe),
        renamed("/notes/Work", "/notes/Work2/Work")
    );
}

#[test]
fn move_of_a_file_is_never_self_containment() {
    let probe = disk(&[]);
    assert_eq!(
        move_entry("/notes/a", "/notes/a/b", EntryKind::File, EntryKind::Directory, &probe),
        renamed("/notes/a", "/notes/a/b/a")
    );
}

#[test]
fn move_keeps_the_name_where_it_is_free() {
    let probe = disk(&["/notes/a.md"]);
    assert_eq!(
        move_entry("/notes/a.md", "/archive", EntryKind::File, EntryKind::Directory, &probe),
        renamed("/notes/a.md", "/archive/a.md")
    );
}

#[test]
fn move_numbers_a_taken_name() {
    let probe = disk(&["/notes/a.md", "/archive/a.md", "/archive/a 1.md"]);
    assert_eq!(
        move_entry("/notes/a.md", "/archive", EntryKind::File, EntryKind::Directory, &probe),
        renamed("/notes/a.md", "/archive/a 2.md")
    );
    let dirs = disk(&["/archive/v1.0"]);
    assert_eq!(
        move_entry("/notes/v1.0", "/archive", EntryKind::Directory, EntryKind::Directory, &dirs),
        renamed("/notes/v1.0", "/archive/v1.0 1")
    );
}

#[test]
fn move_needs_source_and_destination() {
    let probe = disk(&[]);
    assert_eq!(
        move_entry("/notes/a.md", "/archive", EntryKind::Missing, EntryKind::Directory, &probe),
        Err(FsError::NotFound)
    );
    assert_eq!(
        move_entry("/notes/a.md", "/archive", EntryKind::File, EntryKind::Missing, &probe),
        Err(FsError::NotFound)
    );
    assert_eq!(
        move_entry("/notes/a.md", "/notes/b.md", EntryKind::File, EntryKind::File, &probe),
        Err(FsError::NotADirectory)
    );
}

#[test]
fn move_of_a_path_without_a_name_is_invalid_source() {
    let probe = disk(&[]);
    assert_eq!(
        move_entry("/notes/..", "/archive", EntryKind::File, EntryKind::Directory, &probe),
        Err(FsError::InvalidSource)
    );
}

#[test]
fn move_of_the_root_is_self_containment() {
    let probe = disk(&[]);
    assert_eq!(
        move_entry("/", "/archive", EntryKind::Directory, EntryKind::Directory, &probe),
        Err(FsError::SelfContainment)
    );
}

#[test]
fn move_fails_when_every_name_is_taken() {
    let probe = |_p: String| true;
    assert_eq!(
        move_entry("/notes/a.md", "/archive", EntryKind::File, EntryKind::Directory, &probe),
        Err(FsError::NoAvailableName)
    );
}

#[test]
fn copy_skips_the_missing_source() {
    let probe = disk(&[]);
    let sources = vec![
        source("/notes/a.md", EntryKind::File),
        source("/notes/gone.md", EntryKind::Missing),
        source("/notes/Work", EntryKind::Directory),
    ];
    assert_eq!(
        copy_entries_to_folder(&sources, "/backup", EntryKind::Directory, &probe),
        Ok(vec![
            step("/notes/a.md", "/backup/a.md", false),
            step("/notes/Work", "/backup/Work", true),
        ])
    );
}

#[test]
fn copy_of_nothing_plans_nothing() {
    let probe = disk(&[]);
    assert_eq!(copy_entries_to_folder(&Vec::new(), "/backup", EntryKind::Directory, &probe), Ok(vec![]));
    let gone = vec![source("/notes/gone.md", EntryKind::Missing)];
    assert_eq!(copy_entries_to_folder(&gone, "/backup", EntryKind::Directory, &probe), Ok(vec![]));
}

#[test]
fn copy_numbers_names_taken_on_disk() {
    let probe = disk(&["/backup/a.md", "/backup/Work"]);
    let sources =
        vec![source("/notes/a.md", EntryKind::File), source("/notes/Work", EntryKind::Directory)];
    assert_eq!(
        copy_entries_to_folder(&sources, "/backup", EntryKind::Directory, &probe),
        Ok(vec![
            step("/notes/a.md", "/backup/a 1.md", false),
            step("/notes/Work", "/backup/Work 1", true),
        ])
    );
}

#[test]
fn copy_never_plans_two_steps_to_one_path() {
    let probe = disk(&["/backup/a 1.md"]);
    let sources = vec![
        source("/x/a.md", EntryKind::File),
        source("/y/a.md", EntryKind::File),
        source("/z/a.md", EntryKind::File),
    ];
    assert_eq!(
        copy_entries_to_folder(&sources, "/backup", EntryKind::Directory, &probe),
        Ok(vec![
            step("/x/a.md", "/backup/a.md", false),
            step("/y/a.md", "/backup/a 2.md", false),
            step("/z/a.md", "/backup/a 3.md", false),
        ])
    );
}

#[test]
fn copy_into_the_own_folder_makes_a_numbered_copy() {
    let probe = disk(&["/notes/a.md"]);
    let sources = vec![source("/notes/a.md", EntryKind::File)];
    assert_eq!(
        copy_entries_to_folder(&sources, "/notes", EntryKind::Directory, &probe),
        Ok(vec![step("/notes/a.md", "/notes/a 1.md", false)])
    );
}

#[test]
fn copy_needs_a_directory_as_destination() {
    let probe = disk(&[]);
    let sources = vec![source("/notes/a.md", EntryKind::File)];
    assert_eq!(
        copy_entries_to_folder(&sources, "/backup", EntryKind::Missing, &probe),
        Err(FsError::NotFound)
    );
    assert_eq!(
        copy_entries_to_folder(&sources, "/backup", EntryKind::File, &probe),
        Err(FsError::NotADirectory)
    );
}

#[test]
fn copy_fails_as_a_whole_on_a_source_without_a_name() {
    let probe = disk(&[]);
    let sources =
        vec![source("/notes/a.md", EntryKind::File), source("/", EntryKind::Directory)];
    assert_eq!(
        copy_entries_to_folder(&sources, "/backup", EntryKind::Directory, &probe),
        Err(FsError::InvalidSource)
    );
}

#[test]
fn copy_fails_as_a_whole_when_no_name_is_free() {
    let probe = |_p: String| true;
    let sources = vec![source("/notes/a.md", EntryKind::File)];
    assert_eq!(
        copy_entries_to_folder(&sources, "/backup", EntryKind::Directory, &probe),
        Err(FsError::NoAvailableName)
    );
}

#[test]
fn entry_kind_answers() {
    assert!(!EntryKind::Missing.is_present());
    assert!(EntryKind::File.is_present());
    assert!(EntryKind::Directory.is_present());
    assert!(EntryKind::Other.is_present());
    assert!(EntryKind::Directory.is_dir());
    assert!(!EntryKind::File.is_dir());
    assert!(!EntryKind::Other.is_dir());
    assert!(!EntryKind::Missing.is_dir());
}

#[test]
fn relocation_final_path() {
    let stay = Relocation::Unchanged { path: "/a".to_string() };
    assert_eq!(stay.final_path(), "/a");
    let go = Relocation::Rename { from: "/a".to_string(), to: "/b".to_string() };
    assert_eq!(go.final_path(), "/b");
}
