//! Finding a name that collides with nothing in a directory.
//!
//! The wanted name is tried first, its numbered variants after it, in
//! order. Whether a path is taken is asked of a probe that the caller
//! supplies; every attempt is asked anew, and nothing is reserved on disk.

use vstd::prelude::*;
use crate::error::FsError;
use crate::names::{base_extension, base_stem, candidate, numbered, NameCandidate};
use crate::paths::{
    file_name_of, is_parent_ref, is_real, join, joined, lemma_file_name_of_joined,
    lemma_parent_of_joined, parent_of, path_eq,
};
use crate::text::{
    decimal, last_index_of, lemma_decimal_has_no, lemma_last_index_of, lemma_part_has_no,
    lemma_sum_has_no,
};

verus! {

/// The highest number that is tried as a suffix.
pub const MAX_ATTEMPTS: usize = 500;

/// The path tried at attempt `k`.
pub open spec fn attempt_path(parent: Seq<char>, desired: Seq<char>, is_dir: bool, k: nat) -> Seq<
    char,
> {
    joined(parent, candidate(desired, is_dir, k))
}

/// The texts of a list of strings.
pub open spec fn strings(s: Seq<String>) -> Seq<Seq<char>> {
    s.map_values(|x: String| x@)
}

/// The probe can be asked about any path.
pub open spec fn total_probe<F: Fn(String) -> bool>(probe: &F) -> bool {
    forall|p: String| #[trigger] probe.requires((p,))
}

/// The probe may answer `answer` when asked about the path `p`.
pub open spec fn answered<F: Fn(String) -> bool>(probe: &F, p: Seq<char>, answer: bool) -> bool {
    exists|s: String| s@ == p && #[trigger] probe.ensures((s,), answer)
}

/// `p` is set aside already, or the probe found it on disk.
pub open spec fn seen_taken<F: Fn(String) -> bool>(
    probe: &F,
    reserved: Seq<Seq<char>>,
    p: Seq<char>,
) -> bool {
    reserved.contains(p) || answered(probe, p, true)
}

/// `p` is not set aside and the probe did not find it on disk.
pub open spec fn seen_free<F: Fn(String) -> bool>(
    probe: &F,
    reserved: Seq<Seq<char>>,
    p: Seq<char>,
) -> bool {
    !reserved.contains(p) && answered(probe, p, false)
}

/// Attempt `k` is the first one that was found free.
pub open spec fn settles_at<F: Fn(String) -> bool>(
    probe: &F,
    reserved: Seq<Seq<char>>,
    parent: Seq<char>,
    desired: Seq<char>,
    is_dir: bool,
    k: nat,
) -> bool {
    &&& k <= MAX_ATTEMPTS
    &&& seen_free(probe, reserved, attempt_path(parent, desired, is_dir, k))
    &&& forall|j: nat|
        j < k ==> seen_taken(probe, reserved, #[trigger] attempt_path(parent, desired, is_dir, j))
}

/// Every attempt, from the wanted name to the highest number, was found taken.
pub open spec fn exhausted<F: Fn(String) -> bool>(
    probe: &F,
    reserved: Seq<Seq<char>>,
    parent: Seq<char>,
    desired: Seq<char>,
    is_dir: bool,
) -> bool {
    forall|j: nat|
        j <= MAX_ATTEMPTS ==> seen_taken(
            probe,
            reserved,
            #[trigger] attempt_path(parent, desired, is_dir, j),
        )
}

/// What a search for a free name may return: the first attempt found free,
/// with its path, or `NoAvailableName` after every attempt was found taken.
pub open spec fn resolution<F: Fn(String) -> bool>(
    probe: &F,
    reserved: Seq<Seq<char>>,
    parent: Seq<char>,
    desired: Seq<char>,
    is_dir: bool,
    r: Result<(String, String), FsError>,
) -> bool {
    match r {
        Ok((path, name)) => exists|k: nat|
            #![trigger candidate(desired, is_dir, k)]
            settles_at(probe, reserved, parent, desired, is_dir, k) && name@ == candidate(
                desired,
                is_dir,
                k,
            ) && path@ == attempt_path(parent, desired, is_dir, k),
        Err(e) => e == FsError::NoAvailableName && exhausted(
            probe,
            reserved,
            parent,
            desired,
            is_dir,
        ),
    }
}

/// Where a search may end: at a free path, or nowhere once every attempt was
/// found taken.
pub open spec fn placed<F: Fn(String) -> bool>(
    probe: &F,
    reserved: Seq<Seq<char>>,
    parent: Seq<char>,
    desired: Seq<char>,
    is_dir: bool,
    target: Option<Seq<char>>,
) -> bool {
    match target {
        Some(path) => exists|k: nat|
            #![trigger attempt_path(parent, desired, is_dir, k)]
            settles_at(probe, reserved, parent, desired, is_dir, k) && path == attempt_path(
                parent,
                desired,
                is_dir,
                k,
            ),
        None => exhausted(probe, reserved, parent, desired, is_dir),
    }
}

/// The path that a search returned, if it returned one.
pub open spec fn target_of(r: Result<(String, String), FsError>) -> Option<Seq<char>> {
    match r {
        Ok((path, _)) => Some(path@),
        Err(_) => None,
    }
}

/// A search that ended as `resolution` allows ended where `placed` allows.
pub proof fn lemma_resolution_places<F: Fn(String) -> bool>(
    probe: &F,
    reserved: Seq<Seq<char>>,
    parent: Seq<char>,
    desired: Seq<char>,
    is_dir: bool,
    r: Result<(String, String), FsError>,
)
    requires
        resolution(probe, reserved, parent, desired, is_dir, r),
    ensures
        placed(probe, reserved, parent, desired, is_dir, target_of(r)),
        r is Err ==> r == Err::<(String, String), FsError>(FsError::NoAvailableName),
{
    match r {
        Ok((path, name)) => {
            let k = choose|k: nat|
                #![trigger candidate(desired, is_dir, k)]
                settles_at(probe, reserved, parent, desired, is_dir, k) && name@ == candidate(
                    desired,
                    is_dir,
                    k,
                ) && path@ == attempt_path(parent, desired, is_dir, k);
            assert(path@ == attempt_path(parent, desired, is_dir, k));
        },
        Err(e) => {},
    }
}

/// Whether `p` is among `list`.
pub fn contains_text(list: &Vec<String>, p: &String) -> (r: bool)
    ensures
        r == strings(list@).contains(p@),
{
    let mut i: usize = 0;
    while i < list.len()
        invariant
            i <= list.len(),
            forall|j: int| 0 <= j < i ==> list@[j]@ != p@,
        decreases list.len() - i,
    {
        if list[i] == *p {
            assert(strings(list@)[i as int] == p@);
            return true;
        }
        i = i + 1;
    }
    assert forall|j: int| 0 <= j < strings(list@).len() implies strings(list@)[j] != p@ by {
        assert(strings(list@)[j] == list@[j]@);
    }
    false
}

/// Looks for a free name in `parent`, treating the paths in `reserved` as
/// taken without asking the probe about them.
pub fn resolve_avoiding<F: Fn(String) -> bool>(
    parent: &str,
    desired_name: &str,
    is_dir: bool,
    reserved: &Vec<String>,
    probe: &F,
) -> (r: Result<(String, String), FsError>)
    requires
        total_probe(probe),
    ensures
        resolution(probe, strings(reserved@), parent@, desired_name@, is_dir, r),
{
    let parts = NameCandidate::of(desired_name, is_dir);
    let ghost set_aside = strings(reserved@);
    let mut counter: usize = 0;
    while counter <= MAX_ATTEMPTS
        invariant
            counter <= MAX_ATTEMPTS + 1,
            total_probe(probe),
            set_aside == strings(reserved@),
            parts@.stem == base_stem(desired_name@, is_dir),
            parts@.extension == base_extension(desired_name@, is_dir),
            forall|j: nat|
                j < counter ==> seen_taken(
                    probe,
                    set_aside,
                    #[trigger] attempt_path(parent@, desired_name@, is_dir, j),
                ),
        decreases MAX_ATTEMPTS + 1 - counter,
    {
        let name = if counter == 0 {
            String::from_str(desired_name)
        } else {
            parts.numbered(counter)
        };
        let path = join(parent, name.as_str());
        assert(name@ == candidate(desired_name@, is_dir, counter as nat));
        assert(path@ == attempt_path(parent@, desired_name@, is_dir, counter as nat));
        let set_aside_here = contains_text(reserved, &path);
        if !set_aside_here {
            let asked = path.clone();
            let on_disk = probe(asked);
            assert(probe.ensures((path,), on_disk));
            assert(answered(probe, path@, on_disk));
            if !on_disk {
                assert(settles_at(
                    probe,
                    set_aside,
                    parent@,
                    desired_name@,
                    is_dir,
                    counter as nat,
                ));
                return Ok((path, name));
            }
        }
        counter = counter + 1;
    }
    Err(FsError::NoAvailableName)
}

/// Looks for a free name for `desired_name` in `parent`: the name itself if
/// the probe does not find it, else the first numbered variant that the probe
/// does not find. Returns the free path and its final name.
pub fn resolve_unique_path<F: Fn(String) -> bool>(
    parent: &str,
    desired_name: &str,
    is_dir: bool,
    probe: &F,
) -> (r: Result<(String, String), FsError>)
    requires
        total_probe(probe),
    ensures
        resolution(probe, Seq::empty(), parent@, desired_name@, is_dir, r),
{
    let reserved: Vec<String> = Vec::new();
    assert(strings(reserved@) =~= Seq::<Seq<char>>::empty());
    resolve_avoiding(parent, desired_name, is_dir, &reserved, probe)
}

/// The probe answers as a fixed set of paths dictates: `true` exactly for the
/// paths in `taken`.
pub open spec fn answers_from<F: Fn(String) -> bool>(probe: &F, taken: Set<Seq<char>>) -> bool {
    forall|s: String, b: bool| #[trigger] probe.ensures((s,), b) ==> b == taken.contains(s@)
}

/// A name that is not present in the directory is returned unchanged.
pub proof fn law_free_name_is_kept<F: Fn(String) -> bool>(
    probe: &F,
    taken: Set<Seq<char>>,
    parent: Seq<char>,
    desired: Seq<char>,
    is_dir: bool,
    r: Result<(String, String), FsError>,
)
    requires
        answers_from(probe, taken),
        resolution(probe, Seq::empty(), parent, desired, is_dir, r),
        !taken.contains(joined(parent, desired)),
    ensures
        r matches Ok((path, name)) && name@ == desired && path@ == joined(parent, desired),
{
    let none = Seq::<Seq<char>>::empty();
    let first = attempt_path(parent, desired, is_dir, 0);
    assert(first == joined(parent, desired));
    assert(!seen_taken(probe, none, first));
    match r {
        Ok((path, name)) => {
            let k = choose|k: nat|
                #![trigger candidate(desired, is_dir, k)]
                settles_at(probe, none, parent, desired, is_dir, k) && name@ == candidate(
                    desired,
                    is_dir,
                    k,
                ) && path@ == attempt_path(parent, desired, is_dir, k);
            if k > 0 {
                assert(seen_taken(probe, none, attempt_path(parent, desired, is_dir, 0)));
            }
        },
        Err(e) => {
            assert(seen_taken(probe, none, attempt_path(parent, desired, is_dir, 0)));
        },
    }
}

/// A name that collides gets the smallest positive number whose variant is
/// not present, written as `"stem k.ext"` or `"stem k"`, with `k` at most
/// `MAX_ATTEMPTS`. The search fails exactly when the name and all its
/// numbered variants up to `MAX_ATTEMPTS` are present.
pub proof fn law_collision_takes_smallest_number<F: Fn(String) -> bool>(
    probe: &F,
    taken: Set<Seq<char>>,
    parent: Seq<char>,
    desired: Seq<char>,
    is_dir: bool,
    r: Result<(String, String), FsError>,
)
    requires
        answers_from(probe, taken),
        resolution(probe, Seq::empty(), parent, desired, is_dir, r),
        taken.contains(joined(parent, desired)),
    ensures
        match r {
            Ok((path, name)) => exists|k: nat|
                #![trigger numbered(base_stem(desired, is_dir), base_extension(desired, is_dir), k)]
                1 <= k <= MAX_ATTEMPTS && name@ == numbered(
                    base_stem(desired, is_dir),
                    base_extension(desired, is_dir),
                    k,
                ) && path@ == joined(parent, name@) && !taken.contains(path@) && forall|j: nat|
                    j < k ==> taken.contains(#[trigger] attempt_path(parent, desired, is_dir, j)),
            Err(e) => e == FsError::NoAvailableName,
        },
        r is Err <==> forall|j: nat|
            j <= MAX_ATTEMPTS ==> taken.contains(
                #[trigger] attempt_path(parent, desired, is_dir, j),
            ),
{
    let none = Seq::<Seq<char>>::empty();
    assert forall|p: Seq<char>| seen_taken(probe, none, p) implies taken.contains(p) by {}
    assert forall|p: Seq<char>| seen_free(probe, none, p) implies !taken.contains(p) by {}
    match r {
        Ok((path, name)) => {
            let k = choose|k: nat|
                #![trigger candidate(desired, is_dir, k)]
                settles_at(probe, none, parent, desired, is_dir, k) && name@ == candidate(
                    desired,
                    is_dir,
                    k,
                ) && path@ == attempt_path(parent, desired, is_dir, k);
            assert(seen_free(probe, none, attempt_path(parent, desired, is_dir, k)));
            assert(attempt_path(parent, desired, is_dir, 0) == joined(parent, desired));
            assert(k >= 1);
            assert forall|j: nat| j < k implies taken.contains(
                #[trigger] attempt_path(parent, desired, is_dir, j),
            ) by {
                assert(seen_taken(probe, none, attempt_path(parent, desired, is_dir, j)));
            }
            assert(name@ == numbered(
                base_stem(desired, is_dir),
                base_extension(desired, is_dir),
                k,
            ));
            assert(!taken.contains(attempt_path(parent, desired, is_dir, k)));
        },
        Err(e) => {
            assert forall|j: nat| j <= MAX_ATTEMPTS implies taken.contains(
                #[trigger] attempt_path(parent, desired, is_dir, j),
            ) by {
                assert(seen_taken(probe, none, attempt_path(parent, desired, is_dir, j)));
            }
        },
    }
}

/// With a probe that answers from a fixed set of paths, a search ends at the
/// first attempt that is neither in the set nor set aside, and ends nowhere
/// exactly when every attempt is in the set or set aside. In particular the
/// path it ends at is not in the set: nothing that is present is ever chosen.
pub proof fn law_placed_is_first_free<F: Fn(String) -> bool>(
    probe: &F,
    taken: Set<Seq<char>>,
    reserved: Seq<Seq<char>>,
    parent: Seq<char>,
    desired: Seq<char>,
    is_dir: bool,
    target: Option<Seq<char>>,
)
    requires
        answers_from(probe, taken),
        placed(probe, reserved, parent, desired, is_dir, target),
    ensures
        match target {
            Some(path) => !taken.contains(path) && !reserved.contains(path) && exists|k: nat|
                #![trigger attempt_path(parent, desired, is_dir, k)]
                k <= MAX_ATTEMPTS && path == attempt_path(parent, desired, is_dir, k) && forall|
                    j: nat,
                |
                    j < k ==> {
                        let earlier = #[trigger] attempt_path(parent, desired, is_dir, j);
                        taken.contains(earlier) || reserved.contains(earlier)
                    },
            None => forall|j: nat|
                j <= MAX_ATTEMPTS ==> {
                    let tried = #[trigger] attempt_path(parent, desired, is_dir, j);
                    taken.contains(tried) || reserved.contains(tried)
                },
        },
{
    assert forall|p: Seq<char>| seen_taken(probe, reserved, p) implies taken.contains(p)
        || reserved.contains(p) by {}
    assert forall|p: Seq<char>| seen_free(probe, reserved, p) implies !taken.contains(p)
        && !reserved.contains(p) by {}
    match target {
        Some(path) => {
            let k = choose|k: nat|
                #![trigger attempt_path(parent, desired, is_dir, k)]
                settles_at(probe, reserved, parent, desired, is_dir, k) && path == attempt_path(
                    parent,
                    desired,
                    is_dir,
                    k,
                );
            assert(seen_free(probe, reserved, attempt_path(parent, desired, is_dir, k)));
            assert forall|j: nat| j < k implies {
                let earlier = #[trigger] attempt_path(parent, desired, is_dir, j);
                taken.contains(earlier) || reserved.contains(earlier)
            } by {
                assert(seen_taken(probe, reserved, attempt_path(parent, desired, is_dir, j)));
            }
        },
        None => {
            assert forall|j: nat| j <= MAX_ATTEMPTS implies {
                let tried = #[trigger] attempt_path(parent, desired, is_dir, j);
                taken.contains(tried) || reserved.contains(tried)
            } by {
                assert(seen_taken(probe, reserved, attempt_path(parent, desired, is_dir, j)));
            }
        },
    }
}

/// Every name that is tried for a single-segment name is a single segment
/// itself: it is not empty, not `.` and not `..`, and holds no `/`.
pub proof fn law_candidate_is_one_segment(desired: Seq<char>, is_dir: bool, k: nat)
    requires
        is_real(desired),
        !is_parent_ref(desired),
        !desired.contains('/'),
    ensures
        is_real(candidate(desired, is_dir, k)),
        !is_parent_ref(candidate(desired, is_dir, k)),
        !candidate(desired, is_dir, k).contains('/'),
{
    if k > 0 {
        let stem = base_stem(desired, is_dir);
        let space = seq![' '];
        let digits = decimal(k);
        let head = stem + space + digits;
        lemma_last_index_of(desired, '.');
        lemma_decimal_has_no(k, '/');
        assert(!stem.contains('/')) by {
            if !is_dir && last_index_of(desired, '.') > 0 {
                lemma_part_has_no(desired, 0, last_index_of(desired, '.'), '/');
            }
        }
        assert(!space.contains('/')) by {
            assert forall|i: int| 0 <= i < space.len() implies space[i] != '/' by {}
        }
        lemma_sum_has_no(stem, space, '/');
        lemma_sum_has_no(stem + space, digits, '/');
        assert(head[stem.len() as int] == ' ');
        match base_extension(desired, is_dir) {
            Some(ext) => {
                let dot = seq!['.'];
                let c = head + dot + ext;
                assert(c == candidate(desired, is_dir, k));
                assert(!dot.contains('/')) by {
                    assert forall|i: int| 0 <= i < dot.len() implies dot[i] != '/' by {}
                }
                lemma_part_has_no(
                    desired,
                    last_index_of(desired, '.') + 1,
                    desired.len() as int,
                    '/',
                );
                lemma_sum_has_no(head, dot, '/');
                lemma_sum_has_no(head + dot, ext, '/');
                assert(c[stem.len() as int] == ' ');
            },
            None => {
                assert(head == candidate(desired, is_dir, k));
            },
        }
    }
}

/// Every path that is tried lies directly in the directory searched: its
/// final name segment is the name tried, and its parent is that directory.
pub proof fn law_attempt_lies_in_parent(
    parent: Seq<char>,
    desired: Seq<char>,
    is_dir: bool,
    k: nat,
)
    requires
        is_real(desired),
        !is_parent_ref(desired),
        !desired.contains('/'),
    ensures
        file_name_of(attempt_path(parent, desired, is_dir, k)) == Some(
            candidate(desired, is_dir, k),
        ),
        parent_of(attempt_path(parent, desired, is_dir, k)) is Some,
        path_eq(parent_of(attempt_path(parent, desired, is_dir, k)).unwrap(), parent),
{
    law_candidate_is_one_segment(desired, is_dir, k);
    lemma_file_name_of_joined(parent, candidate(desired, is_dir, k));
    lemma_parent_of_joined(parent, candidate(desired, is_dir, k));
}

} // verus!
