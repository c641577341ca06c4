use notes_fs::entry::EntryKind;
use notes_fs::error::FsError;
use notes_fs::tree::{
    copy_dir_all, scan_descends, scan_folder_for_markdown, CopyOp, MarkdownFile, TreeNode,
};

fn file(name: &str) -> TreeNode {
    TreeNode { name: name.to_string(), kind: EntryKind::File, children: Vec::new() }
}

fn dir(name: &str, children: Vec<TreeNode>) -> TreeNode {
    TreeNode { name: name.to_string(), kind: EntryKind::Directory, children }
}

fn other(name: &str) -> TreeNode {
    TreeNode { name: name.to_string(), kind: EntryKind::Other, children: Vec::new() }
}

fn entry(name: &str, path: &str, is_dir: bool) -> MarkdownFile {
    MarkdownFile { name: name.to_string(), path: path.to_string(), is_dir }
}

fn make(path: &str) -> CopyOp {
    CopyOp::CreateDirAll { path: path.to_string() }
}

fn copy(from: &str, to: &str) -> CopyOp {
    CopyOp::CopyFile { from: from.to_string(), to: to.to_string() }
}

fn sample() -> Vec<TreeNode> {
    vec![
        file("readme.md"),
        file("image.png"),
        file(".DS_Store"),
        dir(".git", vec![file("notes.md"), dir("objects", vec![file("x.txt")])]),
        dir(
            "work",
            vec![
                file("plan.markdown"),
                file(".secret.md"),
                dir("old", vec![file("a.txt"), file("b.TXT"), file("c")]),
                dir("empty", vec![]),
            ],
        ),
        other("socket.md"),
        file("last.txt"),
    ]
}

#[test]
fn scan_lists_folders_and_notes_depth_first() {
    assert_eq!(
        scan_folder_for_markdown("/notes", EntryKind::Directory, &sample()),
        Ok(vec![
            entry("readme.md", "/notes/readme.md", false),
            entry("work", "/notes/work", true),
            entry("plan.markdown", "/notes/work/plan.markdown", false),
            entry("old", "/notes/work/old", true),
            entry("a.txt", "/notes/work/old/a.txt", false),
            entry("empty", "/notes/work/empty", true),
            entry("last.txt", "/notes/last.txt", false),
        ])
    );
}

#[test]
fn scan_never_reports_hidden_names_or_what_is_below_them() {
    let found = scan_folder_for_markdown("/notes", EntryKind::Directory, &sample()).unwrap();
    for e in &found {
        assert!(!e.name.starts_with('.'), "{}", e.path);
        let below = e.path.strip_prefix("/notes/").unwrap();
        for segment in below.split('/') {
            assert!(!segment.starts_with('.'), "{}", e.path);
        }
    }
}

#[test]
fn scan_reports_files_only_with_note_extensions() {
    let found = scan_folder_for_markdown("/notes", EntryKind::Directory, &sample()).unwrap();
    for e in &found {
        if !e.is_dir {
            assert!(
                e.name.ends_with(".md") || e.name.ends_with(".markdown") || e.name.ends_with(".txt"),
                "{}",
                e.path
            );
        }
    }
}

#[test]
fn scan_keeps_a_hidden_root() {
    let children = vec![file("a.md")];
    assert_eq!(
        scan_folder_for_markdown("/home/me/.notes", EntryKind::Directory, &children),
        Ok(vec![entry("a.md", "/home/me/.notes/a.md", false)])
    );
}

#[test]
fn scan_of_an_empty_folder_is_empty() {
    assert_eq!(scan_folder_for_markdown("/notes", EntryKind::Directory, &Vec::new()), Ok(vec![]));
}

#[test]
fn scan_lists_folders_whatever_their_names_end_in() {
    let children = vec![dir("photos.png", vec![file("a.md")]), dir("notes.md", vec![])];
    assert_eq!(
        scan_folder_for_markdown("/n/", EntryKind::Directory, &children),
        Ok(vec![
            entry("photos.png", "/n/photos.png", true),
            entry("a.md", "/n/photos.png/a.md", false),
            entry("notes.md", "/n/notes.md", true),
        ])
    );
}

#[test]
fn scan_ignores_children_of_what_is_no_directory() {
    let children = vec![TreeNode {
        name: "a.md".to_string(),
        kind: EntryKind::File,
        children: vec![file("inner.md")],
    }];
    assert_eq!(
        scan_folder_for_markdown("/n", EntryKind::Directory, &children),
        Ok(vec![entry("a.md", "/n/a.md", false)])
    );
}

#[test]
fn scan_needs_a_directory() {
    assert_eq!(
        scan_folder_for_markdown("/missing", EntryKind::Missing, &Vec::new()),
        Err(FsError::NotFound)
    );
    assert_eq!(
        scan_folder_for_markdown("/notes/a.md", EntryKind::File, &Vec::new()),
        Err(FsError::NotADirectory)
    );
    assert_eq!(
        scan_folder_for_markdown("/dev/null", EntryKind::Other, &Vec::new()),
        Err(FsError::NotADirectory)
    );
}

#[test]
fn copy_plan_creates_each_directory_before_its_contents() {
    let children = vec![
        file("a.md"),
        dir("sub", vec![file("b.txt"), dir("deep", vec![file("c.png")])]),
        file(".hidden"),
    ];
    assert_eq!(
        copy_dir_all("/src", "/dst", &children),
        vec![
            make("/dst"),
            copy("/src/a.md", "/dst/a.md"),
            make("/dst/sub"),
            copy("/src/sub/b.txt", "/dst/sub/b.txt"),
            make("/dst/sub/deep"),
            copy("/src/sub/deep/c.png", "/dst/sub/deep/c.png"),
            copy("/src/.hidden", "/dst/.hidden"),
        ]
    );
}

#[test]
fn copy_plan_of_an_empty_directory_only_creates_it() {
    assert_eq!(copy_dir_all("/src", "/dst", &Vec::new()), vec![make("/dst")]);
}

#[test]
fn copy_plan_copies_everything_that_is_no_directory_as_a_file() {
    let children = vec![other("link"), dir(".git", vec![file("HEAD")])];
    assert_eq!(
        copy_dir_all("/src", "/dst", &children),
        vec![
            make("/dst"),
            copy("/src/link", "/dst/link"),
            make("/dst/.git"),
            copy("/src/.git/HEAD", "/dst/.git/HEAD"),
        ]
    );
}

#[test]
fn scan_of_a_copy_has_the_shape_of_the_source() {
    let at_a = scan_folder_for_markdown("/a", EntryKind::Directory, &sample()).unwrap();
    let at_b = scan_folder_for_markdown("/somewhere/b", EntryKind::Directory, &sample()).unwrap();
    assert_eq!(at_a.len(), at_b.len());
    for (x, y) in at_a.iter().zip(at_b.iter()) {
        assert_eq!(x.name, y.name);
        assert_eq!(x.is_dir, y.is_dir);
        assert_eq!(x.path.strip_prefix("/a/"), y.path.strip_prefix("/somewhere/b/"));
    }
}

#[test]
fn copy_plan_reaches_everything_that_a_scan_reports() {
    let ops = copy_dir_all("/a", "/b", &sample());
    let found = scan_folder_for_markdown("/a", EntryKind::Directory, &sample()).unwrap();
    for e in &found {
        let below = e.path.strip_prefix("/a").unwrap();
        let target = format!("/b{}", below);
        let wanted = if e.is_dir { make(&target) } else { copy(&e.path, &target) };
        assert!(ops.contains(&wanted), "{}", e.path);
    }
}

#[test]
fn scan_descends_only_into_visible_directories() {
    assert!(scan_descends("work", EntryKind::Directory));
    assert!(scan_descends("notes.md", EntryKind::Directory));
    assert!(!scan_descends(".git", EntryKind::Directory));
    assert!(!scan_descends("work", EntryKind::File));
    assert!(!scan_descends("work", EntryKind::Other));
    assert!(!scan_descends("work", EntryKind::Missing));
}

#[test]
fn scan_is_the_same_without_what_it_does_not_look_into() {
    let full = vec![
        dir(".git", vec![file("notes.md"), dir("objects", vec![file("x.txt")])]),
        TreeNode { name: "a.md".to_string(), kind: EntryKind::File, children: vec![file("b.md")] },
        dir("work", vec![file("plan.md")]),
    ];
    let pruned = vec![dir(".git", vec![]), file("a.md"), dir("work", vec![file("plan.md")])];
    assert_eq!(
        scan_folder_for_markdown("/n", EntryKind::Directory, &full),
        scan_folder_for_markdown("/n", EntryKind::Directory, &pruned)
    );
}
