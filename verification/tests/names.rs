use notes_fs::error::{FsError, NameFault};
use notes_fs::names::{
    ensure_valid_name, numbered_name, split_name_and_extension, NameCandidate,
};
use notes_fs::text::{decimal_string, rfind_char, same_chars, slice_chars, to_chars};

#[test]
fn valid_names_are_accepted() {
    assert_eq!(ensure_valid_name("note.md"), Ok(()));
    assert_eq!(ensure_valid_name("My Notes"), Ok(()));
    assert_eq!(ensure_valid_name(".gitignore"), Ok(()));
    assert_eq!(ensure_valid_name("日記.txt"), Ok(()));
    assert_eq!(ensure_valid_name("."), Ok(()));
}

#[test]
fn empty_name_is_rejected() {
    assert_eq!(ensure_valid_name(""), Err(FsError::InvalidName(NameFault::Empty)));
}

#[test]
fn names_with_separators_are_rejected() {
    assert_eq!(ensure_valid_name("a/b"), Err(FsError::InvalidName(NameFault::Separator)));
    assert_eq!(ensure_valid_name("a\\b"), Err(FsError::InvalidName(NameFault::Separator)));
    assert_eq!(ensure_valid_name("/"), Err(FsError::InvalidName(NameFault::Separator)));
    assert_eq!(ensure_valid_name("trailing/"), Err(FsError::InvalidName(NameFault::Separator)));
}

#[test]
fn names_with_forbidden_characters_are_rejected() {
    for c in ['<', '>', ':', '"', '|', '?', '*'] {
        let name = format!("a{}b", c);
        assert_eq!(
            ensure_valid_name(&name),
            Err(FsError::InvalidName(NameFault::ForbiddenChar)),
            "{}",
            name
        );
    }
}

#[test]
fn separator_is_reported_before_forbidden_character() {
    assert_eq!(ensure_valid_name("a*b/c"), Err(FsError::InvalidName(NameFault::Separator)));
    assert_eq!(ensure_valid_name("?\\"), Err(FsError::InvalidName(NameFault::Separator)));
}

#[test]
fn split_at_last_dot() {
    assert_eq!(
        split_name_and_extension("note.md"),
        ("note".to_string(), Some("md".to_string()))
    );
    assert_eq!(
        split_name_and_extension("archive.tar.gz"),
        ("archive.tar".to_string(), Some("gz".to_string()))
    );
}

#[test]
fn split_without_dot_has_no_extension() {
    assert_eq!(split_name_and_extension("README"), ("README".to_string(), None));
    assert_eq!(split_name_and_extension(""), ("".to_string(), None));
}

#[test]
fn split_leading_dot_only_is_all_stem() {
    assert_eq!(split_name_and_extension(".gitignore"), (".gitignore".to_string(), None));
}

#[test]
fn split_leading_dot_with_later_dot_splits_at_the_later_one() {
    assert_eq!(
        split_name_and_extension(".config.json"),
        (".config".to_string(), Some("json".to_string()))
    );
}

#[test]
fn split_trailing_dot_gives_empty_extension() {
    assert_eq!(split_name_and_extension("draft."), ("draft".to_string(), Some("".to_string())));
}

#[test]
fn split_counts_characters_not_bytes() {
    assert_eq!(
        split_name_and_extension("日記.md"),
        ("日記".to_string(), Some("md".to_string()))
    );
    assert_eq!(
        split_name_and_extension("a.日記"),
        ("a".to_string(), Some("日記".to_string()))
    );
}

#[test]
fn decimal_string_matches_display() {
    for n in [0usize, 1, 7, 9, 10, 11, 99, 100, 101, 499, 500, 1000, 12345, 4294967295] {
        assert_eq!(decimal_string(n), format!("{}", n));
    }
    assert_eq!(decimal_string(usize::MAX), format!("{}", usize::MAX));
}

#[test]
fn numbered_name_with_extension() {
    assert_eq!(numbered_name("note", &Some("md".to_string()), 1), "note 1.md");
    assert_eq!(numbered_name("note", &Some("md".to_string()), 42), "note 42.md");
    assert_eq!(numbered_name("note", &Some("".to_string()), 3), "note 3.");
}

#[test]
fn numbered_name_without_extension() {
    assert_eq!(numbered_name("Folder", &None, 1), "Folder 1");
    assert_eq!(numbered_name(".gitignore", &None, 500), ".gitignore 500");
}

#[test]
fn to_chars_gives_every_character() {
    assert_eq!(to_chars("a/ü.md"), vec!['a', '/', 'ü', '.', 'm', 'd']);
    assert_eq!(to_chars(""), Vec::<char>::new());
}

#[test]
fn rfind_char_finds_the_last_one_before_end() {
    let v = to_chars("a.b.c");
    assert_eq!(rfind_char(&v, 5, '.'), Some(3));
    assert_eq!(rfind_char(&v, 3, '.'), Some(1));
    assert_eq!(rfind_char(&v, 1, '.'), None);
    assert_eq!(rfind_char(&v, 0, '.'), None);
    assert_eq!(rfind_char(&v, 5, 'x'), None);
}

#[test]
fn same_chars_and_slice_chars_agree_with_slices() {
    let v = to_chars("hello");
    assert!(same_chars(&v, &to_chars("hello")));
    assert!(!same_chars(&v, &to_chars("hellO")));
    assert!(!same_chars(&v, &to_chars("hell")));
    assert_eq!(slice_chars(&v, 1, 4), vec!['e', 'l', 'l']);
    assert_eq!(slice_chars(&v, 2, 2), Vec::<char>::new());
}

#[test]
fn every_error_has_its_message() {
    assert_eq!(FsError::InvalidName(NameFault::Empty).message(), "Name cannot be empty");
    assert_eq!(
        FsError::InvalidName(NameFault::Separator).message(),
        "Name cannot contain path separators"
    );
    assert_eq!(
        FsError::InvalidName(NameFault::ForbiddenChar).message(),
        "Name contains invalid characters"
    );
    assert_eq!(FsError::InvalidSource.message(), "Invalid source name");
    assert_eq!(FsError::NotFound.message(), "Path does not exist");
    assert_eq!(FsError::NotADirectory.message(), "Path is not a directory");
    assert_eq!(FsError::SelfContainment.message(), "Cannot move a folder into itself");
    assert_eq!(FsError::NoAvailableName.message(), "Unable to find available name");
}

#[test]
fn name_candidate_of_a_file_is_split() {
    let c = NameCandidate::of("note.md", false);
    assert_eq!(c, NameCandidate { stem: "note".to_string(), extension: Some("md".to_string()) });
    assert_eq!(c.numbered(1), "note 1.md");
    assert_eq!(c.numbered(500), "note 500.md");
}

#[test]
fn name_candidate_of_a_folder_is_not_split() {
    let c = NameCandidate::of("note.md", true);
    assert_eq!(c, NameCandidate { stem: "note.md".to_string(), extension: None });
    assert_eq!(c.numbered(2), "note.md 2");
}

#[test]
fn name_candidate_of_a_dotfile_is_not_split() {
    let c = NameCandidate::of(".gitignore", false);
    assert_eq!(c, NameCandidate { stem: ".gitignore".to_string(), extension: None });
    assert_eq!(c.numbered(1), ".gitignore 1");
}

#[test]
fn split_parts_rejoin_to_the_name() {
    for name in ["note.md", "a.b.c", ".gitignore", ".config.json", "README", "draft.", "", "a..b"] {
        let (stem, ext) = split_name_and_extension(name);
        let rejoined = match ext {
            Some(ext) => format!("{}.{}", stem, ext),
            None => stem,
        };
        assert_eq!(rejoined, name);
    }
}
