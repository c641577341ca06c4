//! Plans for creating, renaming, moving, copying and deleting entries.
//!
//! Each function checks its inputs, looks for a free name where one is
//! needed, and returns what has to be done on disk. The caller says what it
//! found at the paths involved and supplies the probe that tells whether a
//! path is taken. No function here overwrites anything: every target was
//! found free by the probe.

use vstd::prelude::*;
use crate::entry::{
    CopyStep, CopyStepView, EntryKind, FileWrite, ProbedPath, ProbedPathView, Relocation,
    RelocationView, Removal, RemovalView,
};
use crate::error::FsError;
use crate::names::{ensure_valid_name, is_separator, name_fault};
use crate::paths::{
    comps, file_name, file_name_of, is_parent_ref, is_real, joined, lemma_comps_of_joined,
    lemma_file_name_of_joined, lemma_parent_drops_last, lemma_parent_is_some,
    lemma_parent_of_joined, parent, parent_of, path_eq, path_starts_with, same_path, starts_with,
};
use crate::resolve::{
    answers_from, law_placed_is_first_free, lemma_resolution_places, placed, resolve_avoiding,
    resolve_unique_path, strings, target_of, total_probe,
};

verus! {

/// The failure that stops a creation before any name is looked for.
pub open spec fn create_check(name: Seq<char>, parent_kind: EntryKind) -> Option<FsError> {
    match name_fault(name) {
        Some(fault) => Some(FsError::InvalidName(fault)),
        None => match parent_kind {
            EntryKind::Missing => Some(FsError::NotFound),
            EntryKind::Directory => None,
            _ => Some(FsError::NotADirectory),
        },
    }
}

/// Plans a new folder named `folder_name` inside `parent_folder_path`.
///
/// Fails on an invalid name, on a missing parent, and on a parent that is
/// no directory, in that order. Otherwise returns the first free path for
/// the name, which the caller creates as a directory, or `NoAvailableName`.
pub fn create_folder<F: Fn(String) -> bool>(
    parent_folder_path: &str,
    folder_name: &str,
    parent_kind: EntryKind,
    probe: &F,
) -> (r: Result<String, FsError>)
    requires
        total_probe(probe),
    ensures
        match create_check(folder_name@, parent_kind) {
            Some(e) => r == Err::<String, FsError>(e),
            None => match r {
                Ok(path) => placed(
                    probe,
                    Seq::empty(),
                    parent_folder_path@,
                    folder_name@,
                    true,
                    Some(path@),
                ),
                Err(e) => e == FsError::NoAvailableName && placed(
                    probe,
                    Seq::empty(),
                    parent_folder_path@,
                    folder_name@,
                    true,
                    None,
                ),
            },
        },
{
    match ensure_valid_name(folder_name) {
        Err(e) => {
            return Err(e);
        },
        Ok(_) => {},
    }
    match parent_kind {
        EntryKind::Missing => {
            return Err(FsError::NotFound);
        },
        EntryKind::Directory => {},
        _ => {
            return Err(FsError::NotADirectory);
        },
    }
    let found = resolve_unique_path(parent_folder_path, folder_name, true, probe);
    proof {
        lemma_resolution_places(
            probe,
            Seq::empty(),
            parent_folder_path@,
            folder_name@,
            true,
            found,
        );
    }
    match found {
        Ok((target, _)) => Ok(target),
        Err(e) => Err(e),
    }
}

/// The text that a new file receives: what was given, or nothing.
pub open spec fn content_text(content: Option<String>) -> Seq<char> {
    match content {
        Some(text) => text@,
        None => Seq::empty(),
    }
}

/// Plans a new file named `file_name` inside `parent_folder_path`.
///
/// Fails as `create_folder` does. Otherwise returns the first free path for
/// the name together with the text to write there: `content`, or the empty
/// text when none was given.
pub fn create_markdown_file<F: Fn(String) -> bool>(
    parent_folder_path: &str,
    file_name: &str,
    content: Option<String>,
    parent_kind: EntryKind,
    probe: &F,
) -> (r: Result<FileWrite, FsError>)
    requires
        total_probe(probe),
    ensures
        match create_check(file_name@, parent_kind) {
            Some(e) => r == Err::<FileWrite, FsError>(e),
            None => match r {
                Ok(write) => write@.content == content_text(content) && placed(
                    probe,
                    Seq::empty(),
                    parent_folder_path@,
                    file_name@,
                    false,
                    Some(write@.path),
                ),
                Err(e) => e == FsError::NoAvailableName && placed(
                    probe,
                    Seq::empty(),
                    parent_folder_path@,
                    file_name@,
                    false,
                    None,
                ),
            },
        },
{
    match ensure_valid_name(file_name) {
        Err(e) => {
            return Err(e);
        },
        Ok(_) => {},
    }
    match parent_kind {
        EntryKind::Missing => {
            return Err(FsError::NotFound);
        },
        EntryKind::Directory => {},
        _ => {
            return Err(FsError::NotADirectory);
        },
    }
    let found = resolve_unique_path(parent_folder_path, file_name, false, probe);
    proof {
        lemma_resolution_places(
            probe,
            Seq::empty(),
            parent_folder_path@,
            file_name@,
            false,
            found,
        );
    }
    match found {
        Ok((target, _)) => {
            let text = match content {
                Some(text) => text,
                None => String::new(),
            };
            Ok(FileWrite { path: target, content: text })
        },
        Err(e) => Err(e),
    }
}

/// The model of a planned relocation or its failure.
pub open spec fn relocation_view(r: Result<Relocation, FsError>) -> Result<
    RelocationView,
    FsError,
> {
    match r {
        Ok(plan) => Ok(plan@),
        Err(e) => Err(e),
    }
}

/// What a rename comes to before any name is looked for, where that is
/// settled: an invalid new name, a missing source, a source without a final
/// name segment, or a new name equal to the present one.
pub open spec fn rename_check(source: Seq<char>, new_name: Seq<char>, kind: EntryKind) -> Option<
    Result<RelocationView, FsError>,
> {
    match name_fault(new_name) {
        Some(fault) => Some(Err(FsError::InvalidName(fault))),
        None => if kind is Missing {
            Some(Err(FsError::NotFound))
        } else {
            match file_name_of(source) {
                None => Some(Err(FsError::InvalidSource)),
                Some(current) => if current == new_name {
                    Some(Ok(RelocationView::Unchanged { path: source }))
                } else {
                    None
                },
            }
        },
    }
}

/// What a rename comes to once the search has ended at `target`.
pub open spec fn rename_outcome(source: Seq<char>, target: Option<Seq<char>>) -> Result<
    RelocationView,
    FsError,
> {
    match target {
        None => Err(FsError::NoAvailableName),
        Some(to) => if path_eq(to, source) {
            Ok(RelocationView::Unchanged { path: source })
        } else {
            Ok(RelocationView::Rename { from: source, to })
        },
    }
}

/// Plans giving the entry at `source_path` the name `new_name` within its
/// directory.
///
/// Where `rename_check` settles the matter, its answer is returned.
/// Otherwise a free name is looked for in the source's directory, as a
/// folder name when the source is a directory, and the result is what
/// `rename_outcome` makes of the search. In particular a rename to the
/// present name changes nothing.
pub fn rename_entry<F: Fn(String) -> bool>(
    source_path: &str,
    new_name: &str,
    source_kind: EntryKind,
    probe: &F,
) -> (r: Result<Relocation, FsError>)
    requires
        total_probe(probe),
    ensures
        match rename_check(source_path@, new_name@, source_kind) {
            Some(decided) => relocation_view(r) == decided,
            None => exists|target: Option<Seq<char>>|
                #![trigger rename_outcome(source_path@, target)]
                placed(
                    probe,
                    Seq::empty(),
                    parent_of(source_path@).unwrap(),
                    new_name@,
                    source_kind is Directory,
                    target,
                ) && relocation_view(r) == rename_outcome(source_path@, target),
        },
        name_fault(new_name@) is None && !(source_kind is Missing) && file_name_of(source_path@)
            == Some(new_name@) ==> relocation_view(r) == Ok::<RelocationView, FsError>(
            RelocationView::Unchanged { path: source_path@ },
        ),
{
    match ensure_valid_name(new_name) {
        Err(e) => {
            return Err(e);
        },
        Ok(_) => {},
    }
    if !source_kind.is_present() {
        return Err(FsError::NotFound);
    }
    let current = match file_name(source_path) {
        Some(name) => name,
        None => {
            return Err(FsError::InvalidSource);
        },
    };
    if current == String::from_str(new_name) {
        return Ok(Relocation::Unchanged { path: String::from_str(source_path) });
    }
    proof {
        // A path with a final name segment has a parent.
        lemma_parent_is_some(source_path@);
    }
    let folder = match parent(source_path) {
        Some(folder) => folder,
        None => {
            return Err(FsError::InvalidSource);
        },
    };
    let is_dir = source_kind.is_dir();
    let found = resolve_unique_path(folder.as_str(), new_name, is_dir, probe);
    proof {
        lemma_resolution_places(probe, Seq::empty(), folder@, new_name@, is_dir, found);
    }
    let r = match found {
        Err(e) => Err(e),
        Ok((target, _)) => {
            if same_path(target.as_str(), source_path) {
                Ok(Relocation::Unchanged { path: String::from_str(source_path) })
            } else {
                Ok(Relocation::Rename { from: String::from_str(source_path), to: target })
            }
        },
    };
    assert(relocation_view(r) == rename_outcome(source_path@, target_of(found)));
    r
}

/// The model of a planned removal or its failure.
pub open spec fn removal_view(r: Result<Removal, FsError>) -> Result<RemovalView, FsError> {
    match r {
        Ok(plan) => Ok(plan@),
        Err(e) => Err(e),
    }
}

/// Plans the removal of the entry at `target_path`: with everything below it
/// when it is a directory, alone otherwise. A missing target is `NotFound`.
pub fn delete_entry(target_path: &str, kind: EntryKind) -> (r: Result<Removal, FsError>)
    ensures
        removal_view(r) == match kind {
            EntryKind::Missing => Err::<RemovalView, FsError>(FsError::NotFound),
            EntryKind::Directory => Ok::<RemovalView, FsError>(
                RemovalView::Tree { path: target_path@ },
            ),
            _ => Ok::<RemovalView, FsError>(RemovalView::File { path: target_path@ }),
        },
{
    match kind {
        EntryKind::Missing => Err(FsError::NotFound),
        EntryKind::Directory => Ok(Removal::Tree { path: String::from_str(target_path) }),
        _ => Ok(Removal::File { path: String::from_str(target_path) }),
    }
}

/// What a move comes to before any name is looked for, where that is settled:
/// a missing source, a destination that is missing or no directory, a
/// destination that already holds the source, a directory moved into itself
/// or below itself, or a source without a final name segment.
pub open spec fn move_check(
    source: Seq<char>,
    dest: Seq<char>,
    source_kind: EntryKind,
    dest_kind: EntryKind,
) -> Option<Result<RelocationView, FsError>> {
    if source_kind is Missing {
        Some(Err(FsError::NotFound))
    } else if dest_kind is Missing {
        Some(Err(FsError::NotFound))
    } else if !(dest_kind is Directory) {
        Some(Err(FsError::NotADirectory))
    } else if parent_of(source) is Some && path_eq(parent_of(source).unwrap(), dest) {
        Some(Ok(RelocationView::Unchanged { path: source }))
    } else if source_kind is Directory && path_starts_with(dest, source) {
        Some(Err(FsError::SelfContainment))
    } else if file_name_of(source) is None {
        Some(Err(FsError::InvalidSource))
    } else {
        None
    }
}

/// What a move comes to once the search has ended at `target`. The free path
/// is checked once more against the source.
pub open spec fn move_outcome(source: Seq<char>, is_dir: bool, target: Option<Seq<char>>) -> Result<
    RelocationView,
    FsError,
> {
    match target {
        None => Err(FsError::NoAvailableName),
        Some(to) => if is_dir && path_starts_with(to, source) {
            Err(FsError::SelfContainment)
        } else {
            Ok(RelocationView::Rename { from: source, to })
        },
    }
}

/// Plans moving the entry at `source_path` into the directory
/// `dest_folder_path`, keeping its final name where that is free.
///
/// Where `move_check` settles the matter, its answer is returned. Otherwise
/// a free name for the source's final name segment is looked for in the
/// destination, and the result is what `move_outcome` makes of the search.
pub fn move_entry<F: Fn(String) -> bool>(
    source_path: &str,
    dest_folder_path: &str,
    source_kind: EntryKind,
    dest_kind: EntryKind,
    probe: &F,
) -> (r: Result<Relocation, FsError>)
    requires
        total_probe(probe),
    ensures
        match move_check(source_path@, dest_folder_path@, source_kind, dest_kind) {
            Some(decided) => relocation_view(r) == decided,
            None => exists|target: Option<Seq<char>>|
                #![trigger move_outcome(source_path@, source_kind is Directory, target)]
                placed(
                    probe,
                    Seq::empty(),
                    dest_folder_path@,
                    file_name_of(source_path@).unwrap(),
                    source_kind is Directory,
                    target,
                ) && relocation_view(r) == move_outcome(
                    source_path@,
                    source_kind is Directory,
                    target,
                ),
        },
{
    if !source_kind.is_present() {
        return Err(FsError::NotFound);
    }
    match dest_kind {
        EntryKind::Missing => {
            return Err(FsError::NotFound);
        },
        EntryKind::Directory => {},
        _ => {
            return Err(FsError::NotADirectory);
        },
    }
    match parent(source_path) {
        Some(folder) => {
            if same_path(folder.as_str(), dest_folder_path) {
                return Ok(Relocation::Unchanged { path: String::from_str(source_path) });
            }
        },
        None => {},
    }
    let is_dir = source_kind.is_dir();
    if is_dir && starts_with(dest_folder_path, source_path) {
        return Err(FsError::SelfContainment);
    }
    let name = match file_name(source_path) {
        Some(name) => name,
        None => {
            return Err(FsError::InvalidSource);
        },
    };
    let found = resolve_unique_path(dest_folder_path, name.as_str(), is_dir, probe);
    proof {
        lemma_resolution_places(probe, Seq::empty(), dest_folder_path@, name@, is_dir, found);
    }
    let r = match found {
        Err(e) => Err(e),
        Ok((target, _)) => {
            if is_dir && starts_with(target.as_str(), source_path) {
                Err(FsError::SelfContainment)
            } else {
                Ok(Relocation::Rename { from: String::from_str(source_path), to: target })
            }
        },
    };
    assert(relocation_view(r) == move_outcome(source_path@, is_dir, target_of(found)));
    r
}

/// The models of a list of probed paths.
pub open spec fn probed(s: Seq<ProbedPath>) -> Seq<ProbedPathView> {
    s.map_values(|x: ProbedPath| x@)
}

/// The models of a list of copy steps.
pub open spec fn steps_view(s: Seq<CopyStep>) -> Seq<CopyStepView> {
    s.map_values(|x: CopyStep| x@)
}

/// The paths that a list of copy steps writes to.
pub open spec fn targets(steps: Seq<CopyStepView>) -> Seq<Seq<char>> {
    steps.map_values(|x: CopyStepView| x.to)
}

/// The paths that a list of copy steps reads from.
pub open spec fn origins(steps: Seq<CopyStepView>) -> Seq<Seq<char>> {
    steps.map_values(|x: CopyStepView| x.from)
}

/// `steps` is a plan for the first `n` sources: a missing source has no
/// step; every other source has one, in order, from its path to a path in
/// `dest` that was found free and is the target of no earlier step.
pub open spec fn copy_planned<F: Fn(String) -> bool>(
    probe: &F,
    dest: Seq<char>,
    sources: Seq<ProbedPathView>,
    n: nat,
    steps: Seq<CopyStepView>,
) -> bool
    decreases n,
{
    if n == 0 {
        steps.len() == 0
    } else {
        let source = sources[n - 1];
        if source.kind is Missing {
            copy_planned(probe, dest, sources, (n - 1) as nat, steps)
        } else {
            &&& steps.len() > 0
            &&& copy_planned(probe, dest, sources, (n - 1) as nat, steps.drop_last())
            &&& file_name_of(source.path) is Some
            &&& steps.last().from == source.path
            &&& steps.last().is_dir == (source.kind is Directory)
            &&& placed(
                probe,
                targets(steps.drop_last()),
                dest,
                file_name_of(source.path).unwrap(),
                source.kind is Directory,
                Some(steps.last().to),
            )
        }
    }
}

/// The batch stopped with `e` at source `n`, after `done` was planned for the
/// sources before it: the source is present and has no final name segment, or
/// every name for it was found taken.
pub open spec fn copy_stopped<F: Fn(String) -> bool>(
    probe: &F,
    dest: Seq<char>,
    sources: Seq<ProbedPathView>,
    n: nat,
    done: Seq<CopyStepView>,
    e: FsError,
) -> bool {
    &&& n < sources.len()
    &&& copy_planned(probe, dest, sources, n, done)
    &&& !(sources[n as int].kind is Missing)
    &&& match file_name_of(sources[n as int].path) {
        None => e == FsError::InvalidSource,
        Some(name) => e == FsError::NoAvailableName && placed(
            probe,
            targets(done),
            dest,
            name,
            sources[n as int].kind is Directory,
            None,
        ),
    }
}

/// Plans copying every present source into the directory
/// `dest_folder_path`.
///
/// A destination that is missing or no directory fails the batch. A missing
/// source is passed over. Every other source gets a step to a free path in
/// the destination under its own final name or a numbered variant; paths
/// that earlier steps of the batch write to count as taken. A present source
/// without a final name segment, or one for which no name is free, fails the
/// whole batch, and no steps are returned.
pub fn copy_entries_to_folder<F: Fn(String) -> bool>(
    sources: &Vec<ProbedPath>,
    dest_folder_path: &str,
    dest_kind: EntryKind,
    probe: &F,
) -> (r: Result<Vec<CopyStep>, FsError>)
    requires
        total_probe(probe),
    ensures
        match dest_kind {
            EntryKind::Missing => r == Err::<Vec<CopyStep>, FsError>(FsError::NotFound),
            EntryKind::Directory => match r {
                Ok(steps) => copy_planned(
                    probe,
                    dest_folder_path@,
                    probed(sources@),
                    sources.len() as nat,
                    steps_view(steps@),
                ),
                Err(e) => exists|n: nat, done: Seq<CopyStepView>|
                    copy_stopped(probe, dest_folder_path@, probed(sources@), n, done, e),
            },
            _ => r == Err::<Vec<CopyStep>, FsError>(FsError::NotADirectory),
        },
{
    match dest_kind {
        EntryKind::Missing => {
            return Err(FsError::NotFound);
        },
        EntryKind::Directory => {},
        _ => {
            return Err(FsError::NotADirectory);
        },
    }
    let mut steps: Vec<CopyStep> = Vec::new();
    let mut written: Vec<String> = Vec::new();
    let mut i: usize = 0;
    assert(strings(written@) =~= targets(steps_view(steps@)));
    while i < sources.len()
        invariant
            i <= sources.len(),
            total_probe(probe),
            dest_kind is Directory,
            copy_planned(
                probe,
                dest_folder_path@,
                probed(sources@),
                i as nat,
                steps_view(steps@),
            ),
            strings(written@) == targets(steps_view(steps@)),
        decreases sources.len() - i,
    {
        let source = &sources[i];
        let ghost all = probed(sources@);
        let ghost done = steps_view(steps@);
        assert(all[i as int] == source@);
        if source.kind.is_present() {
            let name = match file_name(source.path.as_str()) {
                Some(name) => name,
                None => {
                    assert(copy_stopped(
                        probe,
                        dest_folder_path@,
                        all,
                        i as nat,
                        done,
                        FsError::InvalidSource,
                    ));
                    return Err(FsError::InvalidSource);
                },
            };
            let is_dir = source.kind.is_dir();
            let found = resolve_avoiding(dest_folder_path, name.as_str(), is_dir, &written, probe);
            proof {
                lemma_resolution_places(
                    probe,
                    strings(written@),
                    dest_folder_path@,
                    name@,
                    is_dir,
                    found,
                );
            }
            match found {
                Err(e) => {
                    assert(copy_stopped(probe, dest_folder_path@, all, i as nat, done, e));
                    return Err(e);
                },
                Ok((target, _)) => {
                    let ghost to = target@;
                    let ghost written_before = written@;
                    written.push(target.clone());
                    steps.push(CopyStep { from: source.path.clone(), to: target, is_dir });
                    proof {
                        let now = steps_view(steps@);
                        assert(now.drop_last() =~= done);
                        assert(now.last() == steps@.last()@);
                        assert(strings(written@) =~= strings(written_before).push(to));
                        assert(targets(now) =~= targets(done).push(to));
                    }
                },
            }
        }
        i = i + 1;
    }
    Ok(steps)
}

/// The paths of the sources among the first `n` that are present, in order.
pub open spec fn present_paths(sources: Seq<ProbedPathView>, n: nat) -> Seq<Seq<char>>
    decreases n,
{
    if n == 0 {
        Seq::empty()
    } else if sources[n - 1].kind is Missing {
        present_paths(sources, (n - 1) as nat)
    } else {
        present_paths(sources, (n - 1) as nat).push(sources[n - 1].path)
    }
}

/// A batch copies exactly the sources that are present, each once and in the
/// order given; the missing ones are passed over.
pub proof fn law_copy_skips_missing<F: Fn(String) -> bool>(
    probe: &F,
    dest: Seq<char>,
    sources: Seq<ProbedPathView>,
    n: nat,
    steps: Seq<CopyStepView>,
)
    requires
        copy_planned(probe, dest, sources, n, steps),
    ensures
        origins(steps) == present_paths(sources, n),
    decreases n,
{
    if n == 0 {
        assert(origins(steps) =~= present_paths(sources, n));
    } else if sources[n - 1].kind is Missing {
        law_copy_skips_missing(probe, dest, sources, (n - 1) as nat, steps);
    } else {
        law_copy_skips_missing(probe, dest, sources, (n - 1) as nat, steps.drop_last());
        assert(origins(steps) =~= origins(steps.drop_last()).push(steps.last().from));
    }
}

/// No two steps of a batch write to the same path.
pub proof fn law_copy_targets_distinct<F: Fn(String) -> bool>(
    probe: &F,
    dest: Seq<char>,
    sources: Seq<ProbedPathView>,
    n: nat,
    steps: Seq<CopyStepView>,
)
    requires
        copy_planned(probe, dest, sources, n, steps),
    ensures
        forall|i: int, j: int| 0 <= i < j < steps.len() ==> steps[i].to != steps[j].to,
    decreases n,
{
    if n == 0 {
    } else if sources[n - 1].kind is Missing {
        law_copy_targets_distinct(probe, dest, sources, (n - 1) as nat, steps);
    } else {
        let before = steps.drop_last();
        law_copy_targets_distinct(probe, dest, sources, (n - 1) as nat, before);
        let last = steps.last().to;
        assert(!targets(before).contains(last));
        assert forall|i: int, j: int| 0 <= i < j < steps.len() implies steps[i].to != steps[j].to by {
            if j == steps.len() - 1 {
                assert(targets(before)[i] == steps[i].to);
            } else {
                assert(before[i] == steps[i]);
                assert(before[j] == steps[j]);
            }
        }
    }
}

/// With a probe that answers from a fixed set of paths, no step of a batch
/// writes to a path in the set: a copy never lands on what is present.
pub proof fn law_copy_targets_are_free<F: Fn(String) -> bool>(
    probe: &F,
    taken: Set<Seq<char>>,
    dest: Seq<char>,
    sources: Seq<ProbedPathView>,
    n: nat,
    steps: Seq<CopyStepView>,
)
    requires
        answers_from(probe, taken),
        copy_planned(probe, dest, sources, n, steps),
    ensures
        forall|i: int| 0 <= i < steps.len() ==> !taken.contains(#[trigger] steps[i].to),
    decreases n,
{
    if n == 0 {
    } else if sources[n - 1].kind is Missing {
        law_copy_targets_are_free(probe, taken, dest, sources, (n - 1) as nat, steps);
    } else {
        let before = steps.drop_last();
        law_copy_targets_are_free(probe, taken, dest, sources, (n - 1) as nat, before);
        law_placed_is_first_free(
            probe,
            taken,
            targets(before),
            dest,
            file_name_of(sources[n - 1].path).unwrap(),
            sources[n - 1].kind is Directory,
            Some(steps.last().to),
        );
        assert forall|i: int| 0 <= i < steps.len() implies !taken.contains(
            #[trigger] steps[i].to,
        ) by {
            if i < steps.len() - 1 {
                assert(before[i] == steps[i]);
            }
        }
    }
}

/// Renaming an entry to the name it already has changes nothing: the plan
/// leaves it at its path.
pub proof fn law_rename_to_current_name(source: Seq<char>, new_name: Seq<char>, kind: EntryKind)
    requires
        !(kind is Missing),
        name_fault(new_name) is None,
        file_name_of(source) == Some(new_name),
    ensures
        rename_check(source, new_name, kind) == Some(
            Ok::<RelocationView, FsError>(RelocationView::Unchanged { path: source }),
        ),
{
}

/// Moving an entry into the directory that already holds it changes nothing.
pub proof fn law_move_to_own_parent(
    source: Seq<char>,
    dest: Seq<char>,
    source_kind: EntryKind,
    dest_kind: EntryKind,
)
    requires
        !(source_kind is Missing),
        dest_kind is Directory,
        parent_of(source) is Some,
        path_eq(parent_of(source).unwrap(), dest),
    ensures
        move_check(source, dest, source_kind, dest_kind) == Some(
            Ok::<RelocationView, FsError>(RelocationView::Unchanged { path: source }),
        ),
{
}

/// Moving a directory into itself or into anything below it fails with
/// `SelfContainment`.
pub proof fn law_move_into_itself(
    source: Seq<char>,
    dest: Seq<char>,
    source_kind: EntryKind,
    dest_kind: EntryKind,
)
    requires
        source_kind is Directory,
        dest_kind is Directory,
        path_starts_with(dest, source),
    ensures
        move_check(source, dest, source_kind, dest_kind) == Some(
            Err::<RelocationView, FsError>(FsError::SelfContainment),
        ),
{
    if parent_of(source) is Some {
        lemma_parent_drops_last(source);
        let folder = parent_of(source).unwrap();
        if path_eq(folder, dest) {
            assert(comps(dest).len() == comps(source).len() - 1);
            assert(comps(source).len() <= comps(dest).len());
        }
    }
}

/// Moving a directory into one of its own children fails with
/// `SelfContainment`.
pub proof fn law_move_into_child(
    source: Seq<char>,
    child_name: Seq<char>,
    source_kind: EntryKind,
    dest_kind: EntryKind,
)
    requires
        source_kind is Directory,
        dest_kind is Directory,
        is_real(child_name),
        !child_name.contains('/'),
    ensures
        move_check(source, joined(source, child_name), source_kind, dest_kind) == Some(
            Err::<RelocationView, FsError>(FsError::SelfContainment),
        ),
{
    lemma_comps_of_joined(source, child_name);
    let dest = joined(source, child_name);
    assert(comps(dest).subrange(0, comps(source).len() as int) =~= comps(source));
    assert(path_starts_with(dest, source));
    law_move_into_itself(source, dest, source_kind, dest_kind);
}

/// Renaming the entry `name` of a directory to `name` changes nothing,
/// whatever the directory.
pub proof fn law_rename_child_to_its_name(dir: Seq<char>, name: Seq<char>, kind: EntryKind)
    requires
        !(kind is Missing),
        name_fault(name) is None,
        is_real(name),
        !is_parent_ref(name),
    ensures
        rename_check(joined(dir, name), name, kind) == Some(
            Ok::<RelocationView, FsError>(RelocationView::Unchanged { path: joined(dir, name) }),
        ),
{
    assert(!name.contains('/')) by {
        if name.contains('/') {
            let i = choose|i: int| 0 <= i < name.len() && name[i] == '/';
            assert(is_separator(name[i]));
        }
    }
    lemma_file_name_of_joined(dir, name);
}

/// Moving the entry `name` of a directory into that directory changes
/// nothing.
pub proof fn law_move_back_to_parent(
    dir: Seq<char>,
    name: Seq<char>,
    source_kind: EntryKind,
    dest_kind: EntryKind,
)
    requires
        !(source_kind is Missing),
        dest_kind is Directory,
        is_real(name),
        !name.contains('/'),
    ensures
        move_check(joined(dir, name), dir, source_kind, dest_kind) == Some(
            Ok::<RelocationView, FsError>(RelocationView::Unchanged { path: joined(dir, name) }),
        ),
{
    lemma_parent_of_joined(dir, name);
}

} // verus!
