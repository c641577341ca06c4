//! Path arithmetic on `/`-separated strings.
//!
//! A path is read as a list of components: the segments between `/`
//! characters, leaving out empty segments and `.` segments; only a `.` with
//! which a path begins is kept. A path is absolute when it begins with `/`. Two paths are the same when they agree
//! on both. A `..` segment is a component like any other: it is never
//! resolved against the segment before it. Nothing here consults the disk,
//! so links are never followed.

use vstd::prelude::*;
use crate::names::{extension_of, text_of};
use crate::text::{
    last_index_of, lemma_last_index_of, lemma_last_index_of_is, rfind_char, same_chars,
    slice_chars, to_chars,
};

verus! {

/// A segment counts as a component unless it is empty or a lone `.`.
pub open spec fn is_real(seg: Seq<char>) -> bool {
    seg.len() > 0 && !(seg.len() == 1 && seg[0] == '.')
}

/// The segment `..`, which names no entry of its own.
pub open spec fn is_parent_ref(seg: Seq<char>) -> bool {
    seg.len() == 2 && seg[0] == '.' && seg[1] == '.'
}

/// The segment `.`, which stands for the directory it is written in.
pub open spec fn is_self_ref(seg: Seq<char>) -> bool {
    seg.len() == 1 && seg[0] == '.'
}

/// A later segment as a list of zero or one components.
pub open spec fn kept(seg: Seq<char>) -> Seq<Seq<char>> {
    if is_real(seg) {
        seq![seg]
    } else {
        Seq::empty()
    }
}

/// The segment with which a path begins as a list of zero or one
/// components: whatever it holds, unless it is empty.
pub open spec fn kept_first(seg: Seq<char>) -> Seq<Seq<char>> {
    if seg.len() > 0 {
        seq![seg]
    } else {
        Seq::empty()
    }
}

/// Whether the path begins at the root.
pub open spec fn is_absolute(p: Seq<char>) -> bool {
    p.len() > 0 && p[0] == '/'
}

/// The components of a path, first to last.
pub open spec fn comps(p: Seq<char>) -> Seq<Seq<char>>
    decreases p.len(),
{
    let k = last_index_of(p, '/');
    if 0 <= k < p.len() {
        comps(p.subrange(0, k)) + kept(p.subrange(k + 1, p.len() as int))
    } else {
        kept_first(p)
    }
}

/// Two paths are the same when they have the same root flag and components.
pub open spec fn path_eq(a: Seq<char>, b: Seq<char>) -> bool {
    is_absolute(a) == is_absolute(b) && comps(a) == comps(b)
}

/// Whether `base` is `p` or an ancestor of `p`, component by component. The
/// root counts as a leading component, so a relative path with no component
/// is a prefix of every path, and no other relative path is a prefix of an
/// absolute one.
pub open spec fn path_starts_with(p: Seq<char>, base: Seq<char>) -> bool {
    if is_absolute(base) {
        is_absolute(p) && comps(base).is_prefix_of(comps(p))
    } else {
        comps(base).len() == 0 || (!is_absolute(p) && comps(base).is_prefix_of(comps(p)))
    }
}

/// The final name segment: the last component, unless there is none or it is
/// `.` or `..`.
pub open spec fn file_name_of(p: Seq<char>) -> Option<Seq<char>> {
    let c = comps(p);
    if c.len() > 0 && !is_parent_ref(c.last()) && !is_self_ref(c.last()) {
        Some(c.last())
    } else {
        None
    }
}

/// `q` without the separators and `.` segments at its end. A lone root stays.
pub open spec fn trimmed(q: Seq<char>) -> Seq<char>
    decreases q.len(),
{
    let k = last_index_of(q, '/');
    if !(0 <= k < q.len()) || is_real(q.subrange(k + 1, q.len() as int)) {
        q
    } else if k == 0 {
        q.subrange(0, 1)
    } else {
        trimmed(q.subrange(0, k))
    }
}

/// The path without its last component, as a prefix of the given text; `None`
/// when the path has no component.
pub open spec fn parent_of(p: Seq<char>) -> Option<Seq<char>>
    decreases p.len(),
{
    let k = last_index_of(p, '/');
    if !(0 <= k < p.len()) {
        if p.len() > 0 {
            Some(Seq::empty())
        } else {
            None
        }
    } else if is_real(p.subrange(k + 1, p.len() as int)) {
        Some(trimmed(p.subrange(0, k + 1)))
    } else if k == 0 {
        None
    } else {
        parent_of(p.subrange(0, k))
    }
}

/// `name` appended to `base` as a further segment. An absolute `name`
/// replaces `base`.
pub open spec fn joined(base: Seq<char>, name: Seq<char>) -> Seq<char> {
    if is_absolute(name) {
        name
    } else if base.len() == 0 || base.last() == '/' {
        base + name
    } else {
        base + seq!['/'] + name
    }
}

/// Names that begin with `.` are hidden.
pub open spec fn is_hidden(name: Seq<char>) -> bool {
    name.len() > 0 && name[0] == '.'
}

/// The extensions of note files: `md`, `markdown` and `txt`, in lower case.
pub open spec fn is_note_extension(ext: Seq<char>) -> bool {
    ext == seq!['m', 'd'] || ext == seq!['m', 'a', 'r', 'k', 'd', 'o', 'w', 'n'] || ext == seq![
        't',
        'x',
        't',
    ]
}

/// Whether a file name carries a note extension.
pub open spec fn is_note_name(name: Seq<char>) -> bool {
    match extension_of(name) {
        Some(ext) => is_note_extension(ext),
        None => false,
    }
}

/// Whether the final name segment of a path carries a note extension.
pub open spec fn is_note_path(p: Seq<char>) -> bool {
    match file_name_of(p) {
        Some(name) => is_note_name(name),
        None => false,
    }
}

/// The texts of a list of character vectors.
pub open spec fn texts(s: Seq<Vec<char>>) -> Seq<Seq<char>> {
    s.map_values(|v: Vec<char>| v@)
}

/// Trimming changes neither the components nor the root flag.
pub proof fn lemma_trimmed_same_path(q: Seq<char>)
    ensures
        path_eq(trimmed(q), q),
    decreases q.len(),
{
    let k = last_index_of(q, '/');
    lemma_last_index_of(q, '/');
    if !(0 <= k < q.len()) || is_real(q.subrange(k + 1, q.len() as int)) {
    } else if k == 0 {
        let r = q.subrange(0, 1);
        assert(r.last() == '/');
        assert(last_index_of(r, '/') == 0);
        assert(r.subrange(0, 0) =~= Seq::<char>::empty());
        assert(r.subrange(1, 1) =~= Seq::<char>::empty());
        assert(q.subrange(0, 0) =~= Seq::<char>::empty());
        lemma_comps_empty();
        assert(comps(r) =~= Seq::<Seq<char>>::empty());
        assert(comps(q) =~= Seq::<Seq<char>>::empty());
    } else {
        let h = q.subrange(0, k);
        lemma_trimmed_same_path(h);
        assert(comps(q) =~= comps(h));
        assert(h[0] == q[0]);
    }
}

/// The empty path has no component.
pub proof fn lemma_comps_empty()
    ensures
        comps(Seq::<char>::empty()) == Seq::<Seq<char>>::empty(),
{
    assert(last_index_of(Seq::<char>::empty(), '/') == -1);
}

/// The parent of a path has the same root flag and all components but the
/// last.
pub proof fn lemma_parent_drops_last(p: Seq<char>)
    requires
        parent_of(p) is Some,
    ensures
        comps(p).len() > 0,
        comps(parent_of(p).unwrap()) == comps(p).drop_last(),
        is_absolute(parent_of(p).unwrap()) == is_absolute(p),
    decreases p.len(),
{
    let k = last_index_of(p, '/');
    lemma_last_index_of(p, '/');
    let t = p.subrange(k + 1, p.len() as int);
    if !(0 <= k < p.len()) {
        lemma_comps_empty();
        assert(comps(p).drop_last() =~= Seq::<Seq<char>>::empty());
        assert(p[0] != '/');
    } else if is_real(t) {
        let h = p.subrange(0, k + 1);
        lemma_trimmed_same_path(h);
        assert(h.last() == '/');
        assert(last_index_of(h, '/') == k);
        assert(h.subrange(0, k) =~= p.subrange(0, k));
        assert(h.subrange(k + 1, h.len() as int) =~= Seq::<char>::empty());
        assert(comps(h) =~= comps(p.subrange(0, k)));
        assert(comps(p).drop_last() =~= comps(p.subrange(0, k)));
        assert(h[0] == p[0]);
    } else {
        let h = p.subrange(0, k);
        lemma_parent_drops_last(h);
        assert(comps(p) =~= comps(h));
        assert(h[0] == p[0]);
    }
}

/// Joining a single real segment onto a path appends one component and keeps
/// the root flag.
pub proof fn lemma_comps_of_joined(base: Seq<char>, name: Seq<char>)
    requires
        is_real(name),
        !name.contains('/'),
    ensures
        comps(joined(base, name)) == comps(base).push(name),
        is_absolute(joined(base, name)) == is_absolute(base),
{
    let j = joined(base, name);
    assert forall|i: int| 0 <= i < name.len() implies name[i] != '/' by {
        if name[i] == '/' {
            assert(name.contains('/'));
        }
    }
    assert(!is_absolute(name));
    if base.len() == 0 {
        assert(j =~= name);
        lemma_last_index_of_is(name, '/', -1);
        lemma_comps_empty();
        assert(base =~= Seq::<char>::empty());
        assert(comps(j) =~= comps(base).push(name));
    } else if base.last() == '/' {
        let n = base.len() as int;
        lemma_last_index_of_is(j, '/', n - 1);
        assert(j.subrange(0, n - 1) =~= base.subrange(0, n - 1));
        assert(j.subrange(n, j.len() as int) =~= name);
        assert(base.subrange(n, n) =~= Seq::<char>::empty());
        assert(last_index_of(base, '/') == n - 1);
        assert(comps(base) =~= comps(base.subrange(0, n - 1)));
        assert(comps(j) =~= comps(base).push(name));
    } else {
        let n = base.len() as int;
        lemma_last_index_of_is(j, '/', n);
        assert(j.subrange(0, n) =~= base);
        assert(j.subrange(n + 1, j.len() as int) =~= name);
        assert(comps(j) =~= comps(base).push(name));
    }
}

/// The final name segment of a joined path is the joined name.
pub proof fn lemma_file_name_of_joined(base: Seq<char>, name: Seq<char>)
    requires
        is_real(name),
        !is_parent_ref(name),
        !name.contains('/'),
    ensures
        file_name_of(joined(base, name)) == Some(name),
{
    lemma_comps_of_joined(base, name);
}

/// The parent of a joined path is the path it was joined onto.
pub proof fn lemma_parent_of_joined(base: Seq<char>, name: Seq<char>)
    requires
        is_real(name),
        !name.contains('/'),
    ensures
        parent_of(joined(base, name)) is Some,
        path_eq(parent_of(joined(base, name)).unwrap(), base),
{
    let j = joined(base, name);
    lemma_comps_of_joined(base, name);
    lemma_parent_is_some(j);
    lemma_parent_drops_last(j);
    assert(comps(base).push(name).drop_last() =~= comps(base));
}

/// A path has a parent exactly when it has a component.
pub proof fn lemma_parent_is_some(p: Seq<char>)
    ensures
        parent_of(p) is Some <==> comps(p).len() > 0,
    decreases p.len(),
{
    let k = last_index_of(p, '/');
    lemma_last_index_of(p, '/');
    let t = p.subrange(k + 1, p.len() as int);
    if !(0 <= k < p.len()) {
    } else if is_real(t) {
    } else if k == 0 {
        assert(p.subrange(0, 0) =~= Seq::<char>::empty());
        lemma_comps_empty();
        assert(comps(p) =~= Seq::<Seq<char>>::empty());
    } else {
        let h = p.subrange(0, k);
        lemma_parent_is_some(h);
        assert(comps(p) =~= comps(h));
    }
}

fn real_range(v: &Vec<char>, from: usize, to: usize) -> (r: bool)
    requires
        from <= to <= v.len(),
    ensures
        r == is_real(v@.subrange(from as int, to as int)),
{
    to > from && !(to - from == 1 && v[from] == '.')
}

fn comps_upto(v: &Vec<char>, end: usize) -> (r: Vec<Vec<char>>)
    requires
        end <= v.len(),
    ensures
        texts(r@) == comps(v@.subrange(0, end as int)),
    decreases end,
{
    let ghost p = v@.subrange(0, end as int);
    proof {
        lemma_last_index_of(p, '/');
    }
    match rfind_char(v, end, '/') {
        Some(k) => {
            let mut r = comps_upto(v, k);
            proof {
                assert(p.subrange(0, k as int) =~= v@.subrange(0, k as int));
                assert(p.subrange(k + 1, end as int) =~= v@.subrange(k + 1, end as int));
            }
            if real_range(v, k + 1, end) {
                let seg = slice_chars(v, k + 1, end);
                let ghost before = r@;
                r.push(seg);
                assert(texts(r@) =~= texts(before).push(seg@));
                assert(texts(r@) =~= comps(p));
            } else {
                assert(texts(r@) =~= comps(p));
            }
            r
        },
        None => {
            let mut r: Vec<Vec<char>> = Vec::new();
            if end > 0 {
                let seg = slice_chars(v, 0, end);
                r.push(seg);
                assert(texts(r@) =~= comps(p));
            } else {
                assert(texts(r@) =~= comps(p));
            }
            r
        },
    }
}

fn is_prefix(a: &Vec<Vec<char>>, b: &Vec<Vec<char>>) -> (r: bool)
    ensures
        r == texts(a@).is_prefix_of(texts(b@)),
{
    if a.len() > b.len() {
        return false;
    }
    let mut i: usize = 0;
    while i < a.len()
        invariant
            a.len() <= b.len(),
            i <= a.len(),
            forall|j: int| 0 <= j < i ==> a@[j]@ == b@[j]@,
        decreases a.len() - i,
    {
        if !same_chars(&a[i], &b[i]) {
            proof {
                let ta = texts(a@);
                let tb = texts(b@);
                assert(ta[i as int] == a@[i as int]@);
                assert(tb.subrange(0, ta.len() as int)[i as int] == b@[i as int]@);
            }
            return false;
        }
        i = i + 1;
    }
    assert(texts(a@) =~= texts(b@).subrange(0, a.len() as int));
    true
}

fn split_path(path: &str) -> (r: (bool, Vec<Vec<char>>))
    ensures
        r.0 == is_absolute(path@),
        texts(r.1@) == comps(path@),
{
    let v = to_chars(path);
    assert(v@.subrange(0, v.len() as int) =~= path@);
    let rooted = v.len() > 0 && v[0] == '/';
    (rooted, comps_upto(&v, v.len()))
}

/// Whether two paths have the same root flag and the same components.
pub fn same_path(a: &str, b: &str) -> (r: bool)
    ensures
        r == path_eq(a@, b@),
{
    let (ra, ca) = split_path(a);
    let (rb, cb) = split_path(b);
    let ab = is_prefix(&ca, &cb);
    if ra == rb && ca.len() == cb.len() && ab {
        assert(texts(cb@).subrange(0, ca.len() as int) =~= texts(cb@));
        true
    } else {
        false
    }
}

/// Whether `base` is `path` itself or one of its ancestors.
pub fn starts_with(path: &str, base: &str) -> (r: bool)
    ensures
        r == path_starts_with(path@, base@),
{
    let (rp, cp) = split_path(path);
    let (rb, cb) = split_path(base);
    if rb {
        rp && is_prefix(&cb, &cp)
    } else {
        cb.len() == 0 || (!rp && is_prefix(&cb, &cp))
    }
}

fn last_component(v: &Vec<char>, end: usize) -> (r: Option<(usize, usize)>)
    requires
        end <= v.len(),
    ensures
        match r {
            Some((s, e)) => s < e <= end && comps(v@.subrange(0, end as int)).len() > 0 && comps(
                v@.subrange(0, end as int),
            ).last() == v@.subrange(s as int, e as int),
            None => comps(v@.subrange(0, end as int)).len() == 0,
        },
    decreases end,
{
    let ghost p = v@.subrange(0, end as int);
    proof {
        lemma_last_index_of(p, '/');
    }
    match rfind_char(v, end, '/') {
        Some(k) => {
            proof {
                assert(p.subrange(0, k as int) =~= v@.subrange(0, k as int));
                assert(p.subrange(k + 1, end as int) =~= v@.subrange(k + 1, end as int));
            }
            if real_range(v, k + 1, end) {
                Some((k + 1, end))
            } else {
                assert(comps(p) =~= comps(v@.subrange(0, k as int)));
                last_component(v, k)
            }
        },
        None => {
            if end > 0 {
                Some((0, end))
            } else {
                None
            }
        },
    }
}

/// The final name segment of `path`, if it has one.
pub fn file_name(path: &str) -> (r: Option<String>)
    ensures
        text_of(r) == file_name_of(path@),
{
    let v = to_chars(path);
    assert(v@.subrange(0, v.len() as int) =~= path@);
    match last_component(&v, v.len()) {
        Some((s, e)) => {
            if e - s == 2 && v[s] == '.' && v[s + 1] == '.' {
                None
            } else if e - s == 1 && v[s] == '.' {
                None
            } else {
                Some(String::from_str(path.substring_char(s, e)))
            }
        },
        None => None,
    }
}

fn trim_end(v: &Vec<char>, end: usize) -> (n: usize)
    requires
        end <= v.len(),
    ensures
        n <= end,
        v@.subrange(0, n as int) == trimmed(v@.subrange(0, end as int)),
    decreases end,
{
    let ghost q = v@.subrange(0, end as int);
    proof {
        lemma_last_index_of(q, '/');
    }
    match rfind_char(v, end, '/') {
        Some(k) => {
            proof {
                assert(q.subrange(k + 1, end as int) =~= v@.subrange(k + 1, end as int));
            }
            if real_range(v, k + 1, end) {
                end
            } else if k > 0 {
                assert(q.subrange(0, k as int) =~= v@.subrange(0, k as int));
                trim_end(v, k)
            } else {
                assert(q.subrange(0, 1) =~= v@.subrange(0, 1));
                1
            }
        },
        None => end,
    }
}

fn parent_end(v: &Vec<char>, end: usize) -> (r: Option<usize>)
    requires
        end <= v.len(),
    ensures
        match r {
            Some(n) => n <= end && parent_of(v@.subrange(0, end as int)) == Some(
                v@.subrange(0, n as int),
            ),
            None => parent_of(v@.subrange(0, end as int)) is None,
        },
    decreases end,
{
    let ghost p = v@.subrange(0, end as int);
    proof {
        lemma_last_index_of(p, '/');
    }
    match rfind_char(v, end, '/') {
        Some(k) => {
            proof {
                assert(p.subrange(k + 1, end as int) =~= v@.subrange(k + 1, end as int));
            }
            if real_range(v, k + 1, end) {
                assert(p.subrange(0, k + 1) =~= v@.subrange(0, k + 1));
                Some(trim_end(v, k + 1))
            } else if k > 0 {
                assert(p.subrange(0, k as int) =~= v@.subrange(0, k as int));
                parent_end(v, k)
            } else {
                None
            }
        },
        None => {
            if end > 0 {
                assert(v@.subrange(0, 0) =~= Seq::<char>::empty());
                Some(0)
            } else {
                None
            }
        },
    }
}

/// The path of the directory that holds `path`, if `path` has a component.
pub fn parent(path: &str) -> (r: Option<String>)
    ensures
        text_of(r) == parent_of(path@),
{
    let v = to_chars(path);
    assert(v@.subrange(0, v.len() as int) =~= path@);
    match parent_end(&v, v.len()) {
        Some(n) => Some(String::from_str(path.substring_char(0, n))),
        None => None,
    }
}

/// Appends `name` to `base` as a further segment.
pub fn join(base: &str, name: &str) -> (r: String)
    ensures
        r@ == joined(base@, name@),
{
    proof {
        reveal_strlit("/");
    }
    let name_len: usize = name.unicode_len();
    if name_len > 0 && name.get_char(0) == '/' {
        return String::from_str(name);
    }
    let base_len: usize = base.unicode_len();
    let mut r = String::from_str(base);
    if base_len > 0 && base.get_char(base_len - 1) != '/' {
        r.append("/");
        assert(r@ =~= base@ + seq!['/']);
    }
    r.append(name);
    r
}

/// Whether `name` begins with `.`.
pub fn name_is_hidden(name: &str) -> (r: bool)
    ensures
        r == is_hidden(name@),
{
    name.unicode_len() > 0 && name.get_char(0) == '.'
}

fn note_extension_at(v: &Vec<char>, from: usize) -> (r: bool)
    requires
        from <= v.len(),
    ensures
        r == is_note_extension(v@.subrange(from as int, v.len() as int)),
{
    let ghost ext = v@.subrange(from as int, v.len() as int);
    let n: usize = v.len() - from;
    proof {
        assert(ext.len() == n);
        assert(seq!['m', 'd'].len() == 2);
        assert(seq!['t', 'x', 't'].len() == 3);
        assert(seq!['m', 'a', 'r', 'k', 'd', 'o', 'w', 'n'].len() == 8);
    }
    if n == 2 {
        let r = v[from] == 'm' && v[from + 1] == 'd';
        assert(r == (ext =~= seq!['m', 'd']));
        r
    } else if n == 3 {
        let r = v[from] == 't' && v[from + 1] == 'x' && v[from + 2] == 't';
        assert(r == (ext =~= seq!['t', 'x', 't']));
        r
    } else if n == 8 {
        let r = v[from] == 'm' && v[from + 1] == 'a' && v[from + 2] == 'r' && v[from + 3] == 'k'
            && v[from + 4] == 'd' && v[from + 5] == 'o' && v[from + 6] == 'w' && v[from + 7]
            == 'n';
        assert(r == (ext =~= seq!['m', 'a', 'r', 'k', 'd', 'o', 'w', 'n']));
        r
    } else {
        false
    }
}

/// Whether a file name ends in `.md`, `.markdown` or `.txt`.
pub fn name_is_note(name: &str) -> (r: bool)
    ensures
        r == is_note_name(name@),
{
    let v = to_chars(name);
    proof {
        assert(v@.subrange(0, v.len() as int) =~= name@);
        lemma_last_index_of(name@, '.');
    }
    match rfind_char(&v, v.len(), '.') {
        Some(dot) => dot > 0 && note_extension_at(&v, dot + 1),
        None => false,
    }
}

/// Whether the final name segment of `path` ends in a note extension.
pub fn path_is_note(path: &str) -> (r: bool)
    ensures
        r == is_note_path(path@),
{
    match file_name(path) {
        Some(name) => name_is_note(name.as_str()),
        None => false,
    }
}

} // verus!
