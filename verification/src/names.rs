//! Validation of user-supplied names and the numbered variants that are
//! tried when a name is already taken.

use vstd::prelude::*;
use crate::error::{FsError, NameFault};
use crate::text::{decimal, decimal_string, last_index_of, lemma_last_index_of, rfind_char, to_chars};

verus! {

/// `/` and `\` separate path segments and may not stand in a name.
pub open spec fn is_separator(c: char) -> bool {
    c == '/' || c == '\\'
}

/// Characters that some file systems refuse in a name.
pub open spec fn is_forbidden(c: char) -> bool {
    c == '<' || c == '>' || c == ':' || c == '"' || c == '|' || c == '?' || c == '*'
}

/// What is wrong with `name`, if anything. An empty name is reported first,
/// a separator next, a forbidden character last.
pub open spec fn name_fault(name: Seq<char>) -> Option<NameFault> {
    if name.len() == 0 {
        Some(NameFault::Empty)
    } else if exists|i: int| 0 <= i < name.len() && is_separator(#[trigger] name[i]) {
        Some(NameFault::Separator)
    } else if exists|i: int| 0 <= i < name.len() && is_forbidden(#[trigger] name[i]) {
        Some(NameFault::ForbiddenChar)
    } else {
        None
    }
}

/// Accepts `name` as the name of a new file or folder, or says why not.
pub fn ensure_valid_name(name: &str) -> (r: Result<(), FsError>)
    ensures
        r == match name_fault(name@) {
            Some(fault) => Err::<(), FsError>(FsError::InvalidName(fault)),
            None => Ok::<(), FsError>(()),
        },
{
    let v = to_chars(name);
    if v.len() == 0 {
        return Err(FsError::InvalidName(NameFault::Empty));
    }
    let mut i: usize = 0;
    while i < v.len()
        invariant
            i <= v.len(),
            v@ == name@,
            v.len() > 0,
            forall|j: int| 0 <= j < i ==> !is_separator(#[trigger] v@[j]),
        decreases v.len() - i,
    {
        let c = v[i];
        if c == '/' || c == '\\' {
            assert(is_separator(v@[i as int]));
            return Err(FsError::InvalidName(NameFault::Separator));
        }
        i = i + 1;
    }
    let mut k: usize = 0;
    while k < v.len()
        invariant
            k <= v.len(),
            v@ == name@,
            v.len() > 0,
            forall|j: int| 0 <= j < v.len() ==> !is_separator(#[trigger] v@[j]),
            forall|j: int| 0 <= j < k ==> !is_forbidden(#[trigger] v@[j]),
        decreases v.len() - k,
    {
        let c = v[k];
        if c == '<' || c == '>' || c == ':' || c == '"' || c == '|' || c == '?' || c == '*' {
            assert(is_forbidden(v@[k as int]));
            return Err(FsError::InvalidName(NameFault::ForbiddenChar));
        }
        k = k + 1;
    }
    Ok(())
}

/// The part of a file name before its last `.`; the whole name when it has no
/// `.` or its only `.` comes first.
pub open spec fn stem_of(name: Seq<char>) -> Seq<char> {
    let dot = last_index_of(name, '.');
    if dot <= 0 {
        name
    } else {
        name.subrange(0, dot)
    }
}

/// The part of a file name after its last `.`, when that `.` is not the first
/// character.
pub open spec fn extension_of(name: Seq<char>) -> Option<Seq<char>> {
    let dot = last_index_of(name, '.');
    if dot <= 0 {
        None
    } else {
        Some(name.subrange(dot + 1, name.len() as int))
    }
}

/// The text of an optional string.
pub open spec fn text_of(o: Option<String>) -> Option<Seq<char>> {
    match o {
        Some(s) => Some(s@),
        None => None,
    }
}

/// Splits a file name at its last `.` into stem and extension.
pub fn split_name_and_extension(name: &str) -> (r: (String, Option<String>))
    ensures
        r.0@ == stem_of(name@),
        text_of(r.1) == extension_of(name@),
{
    let v = to_chars(name);
    proof {
        assert(v@.subrange(0, v.len() as int) =~= name@);
        lemma_last_index_of(name@, '.');
    }
    match rfind_char(&v, v.len(), '.') {
        Some(dot) => {
            if dot == 0 {
                (String::from_str(name), None)
            } else {
                let stem = String::from_str(name.substring_char(0, dot));
                let ext = String::from_str(name.substring_char(dot + 1, v.len()));
                (stem, Some(ext))
            }
        },
        None => (String::from_str(name), None),
    }
}

/// A name that was split is its stem, a `.`, and its extension; a name that
/// was not split is its stem.
pub proof fn law_split_rejoins(name: Seq<char>)
    ensures
        match extension_of(name) {
            Some(ext) => stem_of(name) + seq!['.'] + ext == name,
            None => stem_of(name) == name,
        },
{
    lemma_last_index_of(name, '.');
    if extension_of(name) is Some {
        assert(stem_of(name) + seq!['.'] + extension_of(name).unwrap() =~= name);
    }
}

/// The stem that numbered variants are built on. A folder name is never split.
pub open spec fn base_stem(desired: Seq<char>, is_dir: bool) -> Seq<char> {
    if is_dir {
        desired
    } else {
        stem_of(desired)
    }
}

/// The extension that numbered variants keep. A folder name has none.
pub open spec fn base_extension(desired: Seq<char>, is_dir: bool) -> Option<Seq<char>> {
    if is_dir {
        None
    } else {
        extension_of(desired)
    }
}

/// `"stem k.ext"`, or `"stem k"` without an extension.
pub open spec fn numbered(stem: Seq<char>, extension: Option<Seq<char>>, k: nat) -> Seq<char> {
    match extension {
        Some(ext) => stem + seq![' '] + decimal(k) + seq!['.'] + ext,
        None => stem + seq![' '] + decimal(k),
    }
}

/// The name tried at attempt `k`: the wanted name itself first, its numbered
/// variants after that.
pub open spec fn candidate(desired: Seq<char>, is_dir: bool, k: nat) -> Seq<char> {
    if k == 0 {
        desired
    } else {
        numbered(base_stem(desired, is_dir), base_extension(desired, is_dir), k)
    }
}

/// A wanted name taken apart into the stem and the extension that its
/// numbered variants are built from.
#[derive(Clone, Debug, PartialEq, Eq)]
pub struct NameCandidate {
    pub stem: String,
    pub extension: Option<String>,
}

/// The model of a `NameCandidate`.
pub struct NameCandidateView {
    pub stem: Seq<char>,
    pub extension: Option<Seq<char>>,
}

impl View for NameCandidate {
    type V = NameCandidateView;

    open spec fn view(&self) -> NameCandidateView {
        NameCandidateView { stem: self.stem@, extension: text_of(self.extension) }
    }
}

impl NameCandidate {
    /// Takes `desired_name` apart: a file name at its last `.`, a folder name
    /// not at all.
    pub fn of(desired_name: &str, is_dir: bool) -> (c: NameCandidate)
        ensures
            c@.stem == base_stem(desired_name@, is_dir),
            c@.extension == base_extension(desired_name@, is_dir),
    {
        if is_dir {
            NameCandidate { stem: String::from_str(desired_name), extension: None }
        } else {
            let (stem, extension) = split_name_and_extension(desired_name);
            NameCandidate { stem, extension }
        }
    }

    /// The numbered variant `k`: `"stem k.ext"`, or `"stem k"` without an
    /// extension.
    pub fn numbered(&self, k: usize) -> (r: String)
        ensures
            r@ == numbered(self@.stem, self@.extension, k as nat),
    {
        numbered_name(self.stem.as_str(), &self.extension, k)
    }
}

/// Builds the numbered variant `k` of a name from its stem and extension.
pub fn numbered_name(stem: &str, extension: &Option<String>, k: usize) -> (r: String)
    ensures
        r@ == numbered(stem@, text_of(*extension), k as nat),
{
    proof {
        reveal_strlit(" ");
        reveal_strlit(".");
    }
    let mut r = String::from_str(stem);
    r.append(" ");
    assert(r@ =~= stem@ + seq![' ']);
    let digits = decimal_string(k);
    r.append(digits.as_str());
    match extension {
        Some(ext) => {
            r.append(".");
            assert(r@ =~= stem@ + seq![' '] + decimal(k as nat) + seq!['.']);
            r.append(ext.as_str());
        },
        None => {},
    }
    r
}

} // verus!
