//! Directory snapshots, the discovery of note files in them, and plans for
//! copying them.
//!
//! A snapshot lists what a directory held when the caller read it: for each
//! entry its name, what it is, and, for a directory, its own entries. The
//! order of a listing is the order in which results appear.

use vstd::prelude::*;
use crate::entry::EntryKind;
use crate::error::FsError;
use crate::paths::{name_is_hidden, is_hidden, is_note_name, join, joined, name_is_note};

verus! {

/// One entry of a directory snapshot.
#[derive(Debug)]
pub struct TreeNode {
    /// The entry's name within its directory.
    pub name: String,
    /// What the entry is.
    pub kind: EntryKind,
    /// The entries below it; read only when `kind` is `Directory`.
    pub children: Vec<TreeNode>,
}

/// A discovered folder or note file.
#[derive(Clone, Debug, PartialEq, Eq)]
pub struct MarkdownFile {
    /// The final name segment.
    pub name: String,
    /// The path, built from the scanned folder's path and the names below it.
    pub path: String,
    /// Whether this is a folder.
    pub is_dir: bool,
}

/// The model of a `MarkdownFile`.
pub struct MarkdownFileView {
    pub name: Seq<char>,
    pub path: Seq<char>,
    pub is_dir: bool,
}

impl View for MarkdownFile {
    type V = MarkdownFileView;

    open spec fn view(&self) -> MarkdownFileView {
        MarkdownFileView { name: self.name@, path: self.path@, is_dir: self.is_dir }
    }
}

/// A discovery, told by the names that lead to it from the scanned folder.
pub struct Found {
    /// The names from the scanned folder down to the entry, the entry's own
    /// name last.
    pub trail: Seq<Seq<char>>,
    /// Whether the entry is a folder.
    pub is_dir: bool,
}

/// What a scan reports for one entry that lies below `prefix`: nothing for a
/// hidden entry; a folder and, after it, what is found inside it; a file if
/// its name has a note extension; nothing for anything else.
pub open spec fn found_at(prefix: Seq<Seq<char>>, node: TreeNode) -> Seq<Found>
    decreases node,
{
    if is_hidden(node.name@) {
        Seq::empty()
    } else {
        match node.kind {
            EntryKind::Directory => seq![Found { trail: prefix.push(node.name@), is_dir: true }]
                + found_in(prefix.push(node.name@), node.children@),
            EntryKind::File => if is_note_name(node.name@) {
                seq![Found { trail: prefix.push(node.name@), is_dir: false }]
            } else {
                Seq::empty()
            },
            _ => Seq::empty(),
        }
    }
}

/// What a scan reports for a listing that lies below `prefix`, entry by
/// entry in the listing's order.
pub open spec fn found_in(prefix: Seq<Seq<char>>, items: Seq<TreeNode>) -> Seq<Found>
    decreases items,
{
    if items.len() == 0 {
        Seq::empty()
    } else {
        found_in(prefix, items.drop_last()) + found_at(prefix, items.last())
    }
}

/// The path reached from `root` by joining the names of `trail` in turn.
pub open spec fn path_under(root: Seq<char>, trail: Seq<Seq<char>>) -> Seq<char>
    decreases trail.len(),
{
    if trail.len() == 0 {
        root
    } else {
        joined(path_under(root, trail.drop_last()), trail.last())
    }
}

/// The entry reported for a discovery below `root`.
pub open spec fn entry_of(root: Seq<char>, found: Found) -> MarkdownFileView {
    MarkdownFileView {
        name: found.trail.last(),
        path: path_under(root, found.trail),
        is_dir: found.is_dir,
    }
}

/// The entries reported for a list of discoveries below `root`.
pub open spec fn entries_of(root: Seq<char>, found: Seq<Found>) -> Seq<MarkdownFileView> {
    found.map_values(|f: Found| entry_of(root, f))
}

/// The models of a list of entries.
pub open spec fn files_view(files: Seq<MarkdownFile>) -> Seq<MarkdownFileView> {
    files.map_values(|f: MarkdownFile| f@)
}

fn scan_node(
    dir: &str,
    node: &TreeNode,
    files: &mut Vec<MarkdownFile>,
    Ghost(root): Ghost<Seq<char>>,
    Ghost(prefix): Ghost<Seq<Seq<char>>>,
)
    requires
        dir@ == path_under(root, prefix),
    ensures
        files_view(final(files)@) == files_view(old(files)@) + entries_of(
            root,
            found_at(prefix, *node),
        ),
    decreases node,
{
    let ghost before = files_view(files@);
    if name_is_hidden(node.name.as_str()) {
        assert(files_view(files@) =~= before + entries_of(root, found_at(prefix, *node)));
        return ;
    }
    let ghost trail = prefix.push(node.name@);
    assert(trail.drop_last() =~= prefix);
    match node.kind {
        EntryKind::Directory => {
            let path = join(dir, node.name.as_str());
            let ghost head = Found { trail, is_dir: true };
            files.push(MarkdownFile { name: node.name.clone(), path: path.clone(), is_dir: true });
            assert(files_view(files@) =~= before.push(entry_of(root, head)));
            let mut i: usize = 0;
            assert(node.children@.take(0) =~= Seq::<TreeNode>::empty());
            while i < node.children.len()
                invariant
                    i <= node.children.len(),
                    path@ == path_under(root, trail),
                    files_view(files@) == before.push(entry_of(root, head)) + entries_of(
                        root,
                        found_in(trail, node.children@.take(i as int)),
                    ),
                decreases node.children.len() - i,
            {
                let ghost so_far = found_in(trail, node.children@.take(i as int));
                scan_node(path.as_str(), &node.children[i], files, Ghost(root), Ghost(trail));
                proof {
                    let next = node.children@.take(i + 1);
                    assert(next.drop_last() =~= node.children@.take(i as int));
                    assert(next.last() == node.children@[i as int]);
                    let step = found_at(trail, node.children@[i as int]);
                    assert(found_in(trail, next) == so_far + step);
                    assert(entries_of(root, so_far + step) =~= entries_of(root, so_far)
                        + entries_of(root, step));
                }
                i = i + 1;
            }
            proof {
                assert(node.children@.take(i as int) =~= node.children@);
                let inner = found_in(trail, node.children@);
                assert(entries_of(root, seq![head] + inner) =~= seq![entry_of(root, head)]
                    + entries_of(root, inner));
                assert(files_view(files@) =~= before + entries_of(root, found_at(prefix, *node)));
            }
        },
        EntryKind::File => {
            if name_is_note(node.name.as_str()) {
                let path = join(dir, node.name.as_str());
                let ghost head = Found { trail, is_dir: false };
                files.push(MarkdownFile { name: node.name.clone(), path, is_dir: false });
                assert(files_view(files@) =~= before.push(entry_of(root, head)));
                assert(entries_of(root, seq![head]) =~= seq![entry_of(root, head)]);
                assert(files_view(files@) =~= before + entries_of(root, found_at(prefix, *node)));
            } else {
                assert(files_view(files@) =~= before + entries_of(root, found_at(prefix, *node)));
            }
        },
        _ => {
            assert(files_view(files@) =~= before + entries_of(root, found_at(prefix, *node)));
        },
    }
}

/// Lists the folders and note files of a directory snapshot, depth first:
/// each visible folder, followed at once by what is found inside it.
///
/// `folder_kind` says what was found at `folder_path`, and `children` what
/// the folder held. A missing folder is `NotFound`; anything but a directory
/// is `NotADirectory`. Entries whose names begin with `.` are left out and
/// not looked into; files are listed only with the extensions `md`,
/// `markdown` and `txt`.
pub fn scan_folder_for_markdown(
    folder_path: &str,
    folder_kind: EntryKind,
    children: &Vec<TreeNode>,
) -> (r: Result<Vec<MarkdownFile>, FsError>)
    ensures
        match folder_kind {
            EntryKind::Missing => r == Err::<Vec<MarkdownFile>, FsError>(FsError::NotFound),
            EntryKind::Directory => r matches Ok(files) && files_view(files@) == entries_of(
                folder_path@,
                found_in(Seq::empty(), children@),
            ),
            _ => r == Err::<Vec<MarkdownFile>, FsError>(FsError::NotADirectory),
        },
{
    match folder_kind {
        EntryKind::Missing => {
            return Err(FsError::NotFound);
        },
        EntryKind::Directory => {},
        _ => {
            return Err(FsError::NotADirectory);
        },
    }
    let mut files: Vec<MarkdownFile> = Vec::new();
    let ghost top = Seq::<Seq<char>>::empty();
    let mut i: usize = 0;
    assert(children@.take(0) =~= Seq::<TreeNode>::empty());
    assert(files_view(files@) =~= entries_of(folder_path@, found_in(top, children@.take(0))));
    while i < children.len()
        invariant
            i <= children.len(),
            top == Seq::<Seq<char>>::empty(),
            files_view(files@) == entries_of(
                folder_path@,
                found_in(top, children@.take(i as int)),
            ),
        decreases children.len() - i,
    {
        let ghost so_far = found_in(top, children@.take(i as int));
        scan_node(folder_path, &children[i], &mut files, Ghost(folder_path@), Ghost(top));
        proof {
            let next = children@.take(i + 1);
            assert(next.drop_last() =~= children@.take(i as int));
            assert(next.last() == children@[i as int]);
            let step = found_at(top, children@[i as int]);
            assert(found_in(top, next) == so_far + step);
            assert(entries_of(folder_path@, so_far + step) =~= entries_of(folder_path@, so_far)
                + entries_of(folder_path@, step));
        }
        i = i + 1;
    }
    assert(children@.take(i as int) =~= children@);
    Ok(files)
}

/// What a discovery below `prefix` has to look like: its trail goes through
/// `prefix`, no name after `prefix` is hidden, and a file has a note
/// extension.
pub open spec fn visible_note(prefix: Seq<Seq<char>>, found: Found) -> bool {
    &&& found.trail.len() > prefix.len()
    &&& found.trail.subrange(0, prefix.len() as int) == prefix
    &&& forall|j: int| prefix.len() <= j < found.trail.len() ==> !is_hidden(#[trigger] found.trail[j])
    &&& !found.is_dir ==> is_note_name(found.trail.last())
}

proof fn lemma_found_at_visible(prefix: Seq<Seq<char>>, node: TreeNode)
    ensures
        forall|i: int|
            0 <= i < found_at(prefix, node).len() ==> visible_note(
                prefix,
                #[trigger] found_at(prefix, node)[i],
            ),
    decreases node,
{
    if !is_hidden(node.name@) {
        let trail = prefix.push(node.name@);
        assert(trail.subrange(0, prefix.len() as int) =~= prefix);
        match node.kind {
            EntryKind::Directory => {
                lemma_found_in_visible(trail, node.children@);
                let inner = found_in(trail, node.children@);
                assert forall|i: int| 0 <= i < found_at(prefix, node).len() implies visible_note(
                    prefix,
                    #[trigger] found_at(prefix, node)[i],
                ) by {
                    if i > 0 {
                        let f = inner[i - 1];
                        assert(found_at(prefix, node)[i] == f);
                        assert(visible_note(trail, f));
                        assert(f.trail.subrange(0, prefix.len() as int) =~= f.trail.subrange(
                            0,
                            trail.len() as int,
                        ).subrange(0, prefix.len() as int));
                        assert forall|j: int| prefix.len() <= j < f.trail.len() implies !is_hidden(
                            #[trigger] f.trail[j],
                        ) by {
                            if j == prefix.len() {
                                assert(f.trail[j] == f.trail.subrange(0, trail.len() as int)[j]);
                            }
                        }
                    }
                }
            },
            _ => {},
        }
    }
}

proof fn lemma_found_in_visible(prefix: Seq<Seq<char>>, items: Seq<TreeNode>)
    ensures
        forall|i: int|
            0 <= i < found_in(prefix, items).len() ==> visible_note(
                prefix,
                #[trigger] found_in(prefix, items)[i],
            ),
    decreases items,
{
    if items.len() > 0 {
        lemma_found_in_visible(prefix, items.drop_last());
        lemma_found_at_visible(prefix, items.last());
        let head = found_in(prefix, items.drop_last());
        let tail = found_at(prefix, items.last());
        assert forall|i: int| 0 <= i < found_in(prefix, items).len() implies visible_note(
            prefix,
            #[trigger] found_in(prefix, items)[i],
        ) by {
            if i < head.len() {
                assert(found_in(prefix, items)[i] == head[i]);
            } else {
                assert(found_in(prefix, items)[i] == tail[i - head.len()]);
            }
        }
    }
}

/// A scan never reports an entry whose own name, or the name of a folder on
/// the way to it from the scanned folder, begins with `.`, and never a file
/// without a note extension. Every reported path is the scanned folder's
/// path joined with the names on the way.
pub proof fn law_scan_reports_only_visible_notes(
    root: Seq<char>,
    children: Seq<TreeNode>,
    i: int,
)
    requires
        0 <= i < entries_of(root, found_in(Seq::empty(), children)).len(),
    ensures
        ({
            let found = found_in(Seq::empty(), children)[i];
            let entry = entries_of(root, found_in(Seq::empty(), children))[i];
            &&& found.trail.len() > 0
            &&& entry.name == found.trail.last()
            &&& entry.path == path_under(root, found.trail)
            &&& forall|j: int| 0 <= j < found.trail.len() ==> !is_hidden(#[trigger] found.trail[j])
            &&& !is_hidden(entry.name)
            &&& entry.is_dir || is_note_name(entry.name)
        }),
{
    lemma_found_in_visible(Seq::empty(), children);
    let found = found_in(Seq::empty(), children)[i];
    assert(visible_note(Seq::empty(), found));
    assert(!is_hidden(found.trail[found.trail.len() - 1]));
}

/// Scanning one snapshot under two folder paths reports the same names and
/// kinds in the same order, at the same trails below each folder.
pub proof fn law_scan_shape_ignores_root(
    first: Seq<char>,
    second: Seq<char>,
    children: Seq<TreeNode>,
)
    ensures
        ({
            let found = found_in(Seq::empty(), children);
            let a = entries_of(first, found);
            let b = entries_of(second, found);
            &&& a.len() == b.len()
            &&& forall|i: int|
                0 <= i < a.len() ==> {
                    &&& (#[trigger] a[i]).name == b[i].name
                    &&& a[i].is_dir == b[i].is_dir
                    &&& a[i].path == path_under(first, found[i].trail)
                    &&& b[i].path == path_under(second, found[i].trail)
                }
        }),
{
}

/// One step of copying a tree.
#[derive(Clone, Debug, PartialEq, Eq)]
pub enum CopyOp {
    /// Create the directory at `path`, and those above it, unless present.
    CreateDirAll { path: String },
    /// Copy the bytes of the file at `from` to `to`.
    CopyFile { from: String, to: String },
}

/// The model of a `CopyOp`.
pub enum CopyOpView {
    CreateDirAll { path: Seq<char> },
    CopyFile { from: Seq<char>, to: Seq<char> },
}

impl View for CopyOp {
    type V = CopyOpView;

    open spec fn view(&self) -> CopyOpView {
        match *self {
            CopyOp::CreateDirAll { path } => CopyOpView::CreateDirAll { path: path@ },
            CopyOp::CopyFile { from, to } => CopyOpView::CopyFile { from: from@, to: to@ },
        }
    }
}

/// The models of a list of copy operations.
pub open spec fn ops_view(ops: Seq<CopyOp>) -> Seq<CopyOpView> {
    ops.map_values(|op: CopyOp| op@)
}

/// The steps that copy one entry of `src` into `dst`: a directory is created
/// and filled in turn, anything else is copied as a file.
pub open spec fn copy_ops_at(src: Seq<char>, dst: Seq<char>, node: TreeNode) -> Seq<CopyOpView>
    decreases node,
{
    let from = joined(src, node.name@);
    let to = joined(dst, node.name@);
    if node.kind is Directory {
        seq![CopyOpView::CreateDirAll { path: to }] + copy_ops_in(from, to, node.children@)
    } else {
        seq![CopyOpView::CopyFile { from, to }]
    }
}

/// The steps that copy the entries of a listing of `src` into `dst`, in the
/// listing's order.
pub open spec fn copy_ops_in(src: Seq<char>, dst: Seq<char>, items: Seq<TreeNode>) -> Seq<
    CopyOpView,
>
    decreases items,
{
    if items.len() == 0 {
        Seq::empty()
    } else {
        copy_ops_in(src, dst, items.drop_last()) + copy_ops_at(src, dst, items.last())
    }
}

/// The steps that copy the directory `src` to `dst`: `dst` is created first,
/// its contents follow.
pub open spec fn copy_ops(src: Seq<char>, dst: Seq<char>, items: Seq<TreeNode>) -> Seq<CopyOpView> {
    seq![CopyOpView::CreateDirAll { path: dst }] + copy_ops_in(src, dst, items)
}

fn copy_node(src: &str, dst: &str, node: &TreeNode, ops: &mut Vec<CopyOp>)
    ensures
        ops_view(final(ops)@) == ops_view(old(ops)@) + copy_ops_at(src@, dst@, *node),
    decreases node,
{
    let ghost before = ops_view(ops@);
    let from = join(src, node.name.as_str());
    let to = join(dst, node.name.as_str());
    if node.kind.is_dir() {
        let ghost head = CopyOpView::CreateDirAll { path: to@ };
        ops.push(CopyOp::CreateDirAll { path: to.clone() });
        assert(ops_view(ops@) =~= before.push(head));
        let mut i: usize = 0;
        assert(node.children@.take(0) =~= Seq::<TreeNode>::empty());
        while i < node.children.len()
            invariant
                i <= node.children.len(),
                ops_view(ops@) == before.push(head) + copy_ops_in(
                    from@,
                    to@,
                    node.children@.take(i as int),
                ),
            decreases node.children.len() - i,
        {
            copy_node(from.as_str(), to.as_str(), &node.children[i], ops);
            proof {
                let next = node.children@.take(i + 1);
                assert(next.drop_last() =~= node.children@.take(i as int));
                assert(next.last() == node.children@[i as int]);
            }
            i = i + 1;
        }
        proof {
            assert(node.children@.take(i as int) =~= node.children@);
            assert(ops_view(ops@) =~= before + copy_ops_at(src@, dst@, *node));
        }
    } else {
        ops.push(CopyOp::CopyFile { from, to });
        assert(ops_view(ops@) =~= before + copy_ops_at(src@, dst@, *node));
    }
}

/// Plans the copy of the directory `src` to `dst` from a snapshot of what
/// `src` holds: `dst` is created, every directory below is created before
/// its contents, and every other entry is copied as a file to the same
/// place below `dst` that it has below `src`. The steps are to be carried
/// out in order, stopping at the first that fails.
pub fn copy_dir_all(src: &str, dst: &str, children: &Vec<TreeNode>) -> (ops: Vec<CopyOp>)
    ensures
        ops_view(ops@) == copy_ops(src@, dst@, children@),
{
    let mut ops: Vec<CopyOp> = Vec::new();
    ops.push(CopyOp::CreateDirAll { path: String::from_str(dst) });
    let ghost head = CopyOpView::CreateDirAll { path: dst@ };
    assert(ops_view(ops@) =~= seq![head]);
    let mut i: usize = 0;
    assert(children@.take(0) =~= Seq::<TreeNode>::empty());
    while i < children.len()
        invariant
            i <= children.len(),
            ops_view(ops@) == seq![head] + copy_ops_in(src@, dst@, children@.take(i as int)),
        decreases children.len() - i,
    {
        copy_node(src, dst, &children[i], &mut ops);
        proof {
            let next = children@.take(i + 1);
            assert(next.drop_last() =~= children@.take(i as int));
            assert(next.last() == children@[i as int]);
        }
        i = i + 1;
    }
    assert(children@.take(i as int) =~= children@);
    ops
}

/// The step of a copy plan that brings a discovery from below `src` to the
/// same trail below `dst`.
pub open spec fn copy_step_for(src: Seq<char>, dst: Seq<char>, found: Found) -> CopyOpView {
    if found.is_dir {
        CopyOpView::CreateDirAll { path: path_under(dst, found.trail) }
    } else {
        CopyOpView::CopyFile {
            from: path_under(src, found.trail),
            to: path_under(dst, found.trail),
        }
    }
}

proof fn lemma_contains_in_sum(a: Seq<CopyOpView>, b: Seq<CopyOpView>, op: CopyOpView)
    requires
        a.contains(op) || b.contains(op),
    ensures
        (a + b).contains(op),
{
    if a.contains(op) {
        let j = choose|j: int| 0 <= j < a.len() && a[j] == op;
        assert((a + b)[j] == op);
    } else {
        let j = choose|j: int| 0 <= j < b.len() && b[j] == op;
        assert((a + b)[a.len() + j] == op);
    }
}

proof fn lemma_copy_at_covers(
    src: Seq<char>,
    dst: Seq<char>,
    prefix: Seq<Seq<char>>,
    node: TreeNode,
)
    ensures
        forall|i: int|
            0 <= i < found_at(prefix, node).len() ==> copy_ops_at(
                path_under(src, prefix),
                path_under(dst, prefix),
                node,
            ).contains(copy_step_for(src, dst, #[trigger] found_at(prefix, node)[i])),
    decreases node,
{
    if !is_hidden(node.name@) {
        let trail = prefix.push(node.name@);
        assert(trail.drop_last() =~= prefix);
        let from = path_under(src, trail);
        let to = path_under(dst, trail);
        let ops = copy_ops_at(path_under(src, prefix), path_under(dst, prefix), node);
        match node.kind {
            EntryKind::Directory => {
                lemma_copy_in_covers(src, dst, trail, node.children@);
                let inner = found_in(trail, node.children@);
                let head = seq![CopyOpView::CreateDirAll { path: to }];
                let rest = copy_ops_in(from, to, node.children@);
                assert(ops == head + rest);
                assert forall|i: int| 0 <= i < found_at(prefix, node).len() implies ops.contains(
                    copy_step_for(src, dst, #[trigger] found_at(prefix, node)[i]),
                ) by {
                    if i == 0 {
                        assert(ops[0] == copy_step_for(src, dst, found_at(prefix, node)[0]));
                    } else {
                        assert(found_at(prefix, node)[i] == inner[i - 1]);
                        lemma_contains_in_sum(head, rest, copy_step_for(src, dst, inner[i - 1]));
                    }
                }
            },
            EntryKind::File => {
                if is_note_name(node.name@) {
                    assert(ops[0] == copy_step_for(src, dst, found_at(prefix, node)[0]));
                }
            },
            _ => {},
        }
    }
}

proof fn lemma_copy_in_covers(
    src: Seq<char>,
    dst: Seq<char>,
    prefix: Seq<Seq<char>>,
    items: Seq<TreeNode>,
)
    ensures
        forall|i: int|
            0 <= i < found_in(prefix, items).len() ==> copy_ops_in(
                path_under(src, prefix),
                path_under(dst, prefix),
                items,
            ).contains(copy_step_for(src, dst, #[trigger] found_in(prefix, items)[i])),
    decreases items,
{
    if items.len() > 0 {
        lemma_copy_in_covers(src, dst, prefix, items.drop_last());
        lemma_copy_at_covers(src, dst, prefix, items.last());
        let head = found_in(prefix, items.drop_last());
        let tail = found_at(prefix, items.last());
        let from = path_under(src, prefix);
        let to = path_under(dst, prefix);
        let a = copy_ops_in(from, to, items.drop_last());
        let b = copy_ops_at(from, to, items.last());
        assert forall|i: int| 0 <= i < found_in(prefix, items).len() implies copy_ops_in(
            from,
            to,
            items,
        ).contains(copy_step_for(src, dst, #[trigger] found_in(prefix, items)[i])) by {
            if i < head.len() {
                assert(found_in(prefix, items)[i] == head[i]);
                lemma_contains_in_sum(a, b, copy_step_for(src, dst, head[i]));
            } else {
                assert(found_in(prefix, items)[i] == tail[i - head.len()]);
                lemma_contains_in_sum(a, b, copy_step_for(src, dst, tail[i - head.len()]));
            }
        }
    }
}

/// Whatever a scan of a snapshot reports, the plan that copies the snapshot
/// brings to the same trail below the destination: a reported folder is
/// created there, a reported file is copied there from its place below the
/// source.
pub proof fn law_copy_reaches_what_scan_reports(
    src: Seq<char>,
    dst: Seq<char>,
    children: Seq<TreeNode>,
    i: int,
)
    requires
        0 <= i < found_in(Seq::empty(), children).len(),
    ensures
        copy_ops(src, dst, children).contains(
            copy_step_for(src, dst, found_in(Seq::empty(), children)[i]),
        ),
{
    lemma_copy_in_covers(src, dst, Seq::empty(), children);
    lemma_contains_in_sum(
        seq![CopyOpView::CreateDirAll { path: dst }],
        copy_ops_in(src, dst, children),
        copy_step_for(src, dst, found_in(Seq::empty(), children)[i]),
    );
}

/// Every entry of one node of a snapshot, hidden or not, told by its trail:
/// the node itself and, for a directory, everything below it.
pub open spec fn listed_at(prefix: Seq<Seq<char>>, node: TreeNode) -> Seq<Found>
    decreases node,
{
    let trail = prefix.push(node.name@);
    if node.kind is Directory {
        seq![Found { trail, is_dir: true }] + listed_in(trail, node.children@)
    } else {
        seq![Found { trail, is_dir: false }]
    }
}

/// Every entry of a listing, hidden or not, each directory followed at once
/// by what lies below it.
pub open spec fn listed_in(prefix: Seq<Seq<char>>, items: Seq<TreeNode>) -> Seq<Found>
    decreases items,
{
    if items.len() == 0 {
        Seq::empty()
    } else {
        listed_in(prefix, items.drop_last()) + listed_at(prefix, items.last())
    }
}

/// The copy steps for a list of entries, one each.
pub open spec fn steps_for(src: Seq<char>, dst: Seq<char>, listed: Seq<Found>) -> Seq<CopyOpView> {
    listed.map_values(|f: Found| copy_step_for(src, dst, f))
}

proof fn lemma_copy_at_is_listing(
    src: Seq<char>,
    dst: Seq<char>,
    prefix: Seq<Seq<char>>,
    node: TreeNode,
)
    ensures
        copy_ops_at(path_under(src, prefix), path_under(dst, prefix), node) == steps_for(
            src,
            dst,
            listed_at(prefix, node),
        ),
    decreases node,
{
    let trail = prefix.push(node.name@);
    assert(trail.drop_last() =~= prefix);
    let ops = copy_ops_at(path_under(src, prefix), path_under(dst, prefix), node);
    if node.kind is Directory {
        lemma_copy_in_is_listing(src, dst, trail, node.children@);
        let head = Found { trail, is_dir: true };
        let inner = listed_in(trail, node.children@);
        assert(steps_for(src, dst, seq![head] + inner) =~= seq![copy_step_for(src, dst, head)]
            + steps_for(src, dst, inner));
        assert(ops =~= steps_for(src, dst, listed_at(prefix, node)));
    } else {
        let head = Found { trail, is_dir: false };
        assert(steps_for(src, dst, seq![head]) =~= seq![copy_step_for(src, dst, head)]);
        assert(ops =~= steps_for(src, dst, listed_at(prefix, node)));
    }
}

proof fn lemma_copy_in_is_listing(
    src: Seq<char>,
    dst: Seq<char>,
    prefix: Seq<Seq<char>>,
    items: Seq<TreeNode>,
)
    ensures
        copy_ops_in(path_under(src, prefix), path_under(dst, prefix), items) == steps_for(
            src,
            dst,
            listed_in(prefix, items),
        ),
    decreases items,
{
    let from = path_under(src, prefix);
    let to = path_under(dst, prefix);
    if items.len() == 0 {
        assert(copy_ops_in(from, to, items) =~= steps_for(src, dst, listed_in(prefix, items)));
    } else {
        lemma_copy_in_is_listing(src, dst, prefix, items.drop_last());
        lemma_copy_at_is_listing(src, dst, prefix, items.last());
        let a = listed_in(prefix, items.drop_last());
        let b = listed_at(prefix, items.last());
        assert(steps_for(src, dst, a + b) =~= steps_for(src, dst, a) + steps_for(src, dst, b));
    }
}

/// A copy plan creates the destination and has, after that, exactly one step
/// for every entry of the snapshot, hidden or not, in the snapshot's order:
/// a directory is created and a file is copied at the trail below the
/// destination that the entry has below the source.
pub proof fn law_copy_plan_is_the_listing(src: Seq<char>, dst: Seq<char>, children: Seq<TreeNode>)
    ensures
        copy_ops(src, dst, children) == seq![CopyOpView::CreateDirAll { path: dst }] + steps_for(
            src,
            dst,
            listed_in(Seq::empty(), children),
        ),
{
    lemma_copy_in_is_listing(src, dst, Seq::empty(), children);
}

/// Whether a scan looks into an entry: only into directories that are not
/// hidden.
pub open spec fn looked_into(name: Seq<char>, kind: EntryKind) -> bool {
    !is_hidden(name) && kind is Directory
}

/// Whether a scan looks into the entry `name` of kind `kind`. A snapshot
/// need not list the entries below anything else.
pub fn scan_descends(name: &str, kind: EntryKind) -> (r: bool)
    ensures
        r == looked_into(name@, kind),
{
    !name_is_hidden(name) && kind.is_dir()
}

/// What lies below an entry that a scan does not look into has no effect on
/// what the scan reports.
pub proof fn law_scan_ignores_what_it_does_not_look_into(
    prefix: Seq<Seq<char>>,
    first: TreeNode,
    second: TreeNode,
)
    requires
        first.name@ == second.name@,
        first.kind == second.kind,
        !looked_into(first.name@, first.kind),
    ensures
        found_at(prefix, first) == found_at(prefix, second),
{
}

} // verus!
