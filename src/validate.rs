//! Validation of note names and tags, and the temporary-file name of a note.
use vstd::prelude::*;
use crate::text::{chars_of, lit, push_all, push_char, trim, trimmed, views_of};

verus! {

/// Longest accepted note name, in characters.
pub const MAX_NAME_CHARS: usize = 100;

/// Longest accepted tag, in characters.
pub const MAX_TAG_CHARS: usize = 50;

/// Why a note name was refused.
#[derive(Debug, Clone, Copy, PartialEq, Eq, Structural)]
pub enum NameError {
    Empty,
    PathSeparator,
    TooLong,
}

/// The message that reports a name error.
pub open spec fn name_error_text(e: NameError) -> Seq<char> {
    match e {
        NameError::Empty => "Note name cannot be empty."@,
        NameError::PathSeparator => "Note name cannot contain path separators."@,
        NameError::TooLong => "Note name cannot exceed 100 characters."@,
    }
}

impl NameError {
    pub fn message(&self) -> (r: String)
        ensures
            r@ == name_error_text(*self),
    {
        match self {
            NameError::Empty => lit("Note name cannot be empty."),
            NameError::PathSeparator => lit("Note name cannot contain path separators."),
            NameError::TooLong => lit("Note name cannot exceed 100 characters."),
        }
    }
}

/// What is wrong with a name, judged on its trimmed characters.
pub open spec fn name_fault(name: Seq<char>) -> Option<NameError> {
    let t = trimmed(name);
    if t.len() == 0 {
        Some(NameError::Empty)
    } else if t.contains('/') || t.contains('\\') {
        Some(NameError::PathSeparator)
    } else if t.len() > MAX_NAME_CHARS {
        Some(NameError::TooLong)
    } else {
        None
    }
}

/// Whether `c` occurs in `v`.
fn has_char(v: &Vec<char>, c: char) -> (r: bool)
    ensures
        r == v@.contains(c),
{
    let mut i: usize = 0;
    while i < v.len()
        invariant
            i <= v.len(),
            forall|k: int| 0 <= k < i ==> v@[k] != c,
        decreases v.len() - i,
    {
        if v[i] == c {
            return true;
        }
        i = i + 1;
    }
    false
}

/// Checks a note name: after trimming it must be non-empty, hold no `/` or `\`,
/// and have at most 100 characters.
pub fn validate_name(name: &str) -> (r: Result<(), NameError>)
    ensures
        r is Ok <==> name_fault(name@) is None,
        r matches Err(e) ==> name_fault(name@) == Some(e),
{
    let t = trim(name);
    if t.len() == 0 {
        return Err(NameError::Empty);
    }
    if has_char(&t, '/') || has_char(&t, '\\') {
        return Err(NameError::PathSeparator);
    }
    if t.len() > MAX_NAME_CHARS {
        return Err(NameError::TooLong);
    }
    Ok(())
}

/// The kind of fault of a single tag.
#[derive(Debug, Clone, Copy, PartialEq, Eq, Structural)]
pub enum TagFault {
    Empty,
    HasSpace,
    TooLong,
}

/// What is wrong with a tag, judged on its trimmed characters.
pub open spec fn tag_fault(tag: Seq<char>) -> Option<TagFault> {
    let t = trimmed(tag);
    if t.len() == 0 {
        Some(TagFault::Empty)
    } else if t.contains(' ') {
        Some(TagFault::HasSpace)
    } else if t.len() > MAX_TAG_CHARS {
        Some(TagFault::TooLong)
    } else {
        None
    }
}

/// Why a list of tags was refused; the offending tag is kept where the message names it.
#[derive(Debug, Clone, PartialEq, Eq)]
pub enum TagError {
    Empty,
    HasSpace(String),
    TooLong(String),
}

/// Whether `e` reports the fault of `tag`.
pub open spec fn reports(e: TagError, tag: Seq<char>) -> bool {
    match e {
        TagError::Empty => tag_fault(tag) == Some(TagFault::Empty),
        TagError::HasSpace(t) => tag_fault(tag) == Some(TagFault::HasSpace) && t@ == tag,
        TagError::TooLong(t) => tag_fault(tag) == Some(TagFault::TooLong) && t@ == tag,
    }
}

/// The message that reports fault `f` of tag `tag`.
pub open spec fn tag_error_text(f: TagFault, tag: Seq<char>) -> Seq<char> {
    match f {
        TagFault::Empty => "Tag cannot be empty."@,
        TagFault::HasSpace => "Tag '"@ + tag + "' cannot contain spaces."@,
        TagFault::TooLong => "Tag '"@ + tag + "' cannot exceed 50 characters."@,
    }
}

/// The index of the first faulty tag of `tags`, or -1.
pub open spec fn first_bad(tags: Seq<Seq<char>>) -> int
    decreases tags.len(),
{
    if tags.len() == 0 {
        -1
    } else if first_bad(tags.drop_last()) >= 0 {
        first_bad(tags.drop_last())
    } else if tag_fault(tags.last()) is Some {
        tags.len() - 1
    } else {
        -1
    }
}

/// The message for the tags `tags`, whose first faulty one is at `first_bad(tags)`.
pub open spec fn tags_error_text(tags: Seq<Seq<char>>) -> Seq<char> {
    let i = first_bad(tags);
    tag_error_text(tag_fault(tags[i]).unwrap(), tags[i])
}

impl TagError {
    pub fn message(&self) -> (r: String)
        ensures
            forall|tag: Seq<char>| reports(*self, tag) ==> r@ == tag_error_text(tag_fault(tag).unwrap(), tag),
    {
        match self {
            TagError::Empty => lit("Tag cannot be empty."),
            TagError::HasSpace(t) => {
                let mut m = lit("Tag '");
                push_all(&mut m, t.as_str());
                push_all(&mut m, "' cannot contain spaces.");
                m
            },
            TagError::TooLong(t) => {
                let mut m = lit("Tag '");
                push_all(&mut m, t.as_str());
                push_all(&mut m, "' cannot exceed 50 characters.");
                m
            },
        }
    }
}

/// Checks one tag.
fn check_tag(tag: &String) -> (r: Result<(), TagError>)
    ensures
        r is Ok <==> tag_fault(tag@) is None,
        r matches Err(e) ==> reports(e, tag@),
{
    let t = trim(tag.as_str());
    if t.len() == 0 {
        return Err(TagError::Empty);
    }
    if has_char(&t, ' ') {
        return Err(TagError::HasSpace(tag.clone()));
    }
    if t.len() > MAX_TAG_CHARS {
        return Err(TagError::TooLong(tag.clone()));
    }
    Ok(())
}

/// Checks each tag in order: after trimming it must be non-empty, hold no space
/// and have at most 50 characters. The first faulty tag decides the error.
pub fn validate_tags(tags: &Vec<String>) -> (r: Result<(), TagError>)
    ensures
        r is Ok <==> forall|i: int| 0 <= i < tags@.len() ==> tag_fault(#[trigger] tags@[i]@) is None,
        r matches Err(e) ==> exists|i: int|
            0 <= i < tags@.len() && reports(e, #[trigger] tags@[i]@) && forall|j: int|
                0 <= j < i ==> tag_fault(#[trigger] tags@[j]@) is None,
        r is Ok <==> first_bad(views_of(tags@)) < 0,
        r is Err ==> 0 <= first_bad(views_of(tags@)) < tags@.len(),
        r matches Err(e) ==> reports(e, tags@[first_bad(views_of(tags@))]@),
{
    proof {
        lemma_first_bad(views_of(tags@));
    }
    let mut i: usize = 0;
    while i < tags.len()
        invariant
            i <= tags.len(),
            forall|j: int| 0 <= j < i ==> tag_fault(#[trigger] tags@[j]@) is None,
        decreases tags.len() - i,
    {
        match check_tag(&tags[i]) {
            Ok(()) => {},
            Err(e) => {
                assert(reports(e, tags@[i as int]@));
                proof {
                    let vt = views_of(tags@);
                    assert forall|k: int| 0 <= k < vt.len() implies #[trigger] vt[k] == tags@[k]@ by {}
                    lemma_first_bad(vt);
                    let fb = first_bad(vt);
                    if fb < 0 {
                        assert(tag_fault(vt[i as int]) is None);
                    } else if fb < i {
                        assert(tag_fault(tags@[fb]@) is None);
                    } else if fb > i {
                        assert(tag_fault(vt[i as int]) is None);
                    }
                }
                return Err(e);
            },
        }
        i = i + 1;
    }
    proof {
        let vt = views_of(tags@);
        assert forall|k: int| 0 <= k < vt.len() implies tag_fault(#[trigger] vt[k]) is None by {
            assert(vt[k] == tags@[k]@);
        }
    }
    Ok(())
}

proof fn lemma_first_bad(tags: Seq<Seq<char>>)
    ensures
        first_bad(tags) < 0 <==> forall|i: int| 0 <= i < tags.len() ==> tag_fault(#[trigger] tags[i]) is None,
        first_bad(tags) >= 0 ==> first_bad(tags) < tags.len() && tag_fault(tags[first_bad(tags)]) is Some
            && forall|j: int| 0 <= j < first_bad(tags) ==> tag_fault(#[trigger] tags[j]) is None,
    decreases tags.len(),
{
    if tags.len() > 0 {
        let d = tags.drop_last();
        lemma_first_bad(d);
        assert forall|i: int| 0 <= i < d.len() implies d[i] == tags[i] by {}
        if first_bad(d) < 0 && tag_fault(tags.last()) is None {
            assert forall|i: int| 0 <= i < tags.len() implies tag_fault(#[trigger] tags[i]) is None by {
                if i < d.len() {
                    assert(d[i] == tags[i]);
                }
            }
        }
    }
}

/// What `char::is_alphanumeric` answers for `c`.
pub uninterp spec fn alnum(c: char) -> bool;

/// Relies on `char::is_alphanumeric`: the answer depends on the character alone.
#[verifier::external_body]
fn is_alphanumeric(c: char) -> (r: bool)
    ensures
        r == alnum(c),
{
    c.is_alphanumeric()
}

/// The character that stands for `c` in a temporary-file name.
pub open spec fn file_safe(c: char) -> char {
    if alnum(c) || c == '-' || c == '_' {
        c
    } else {
        '_'
    }
}

/// The temporary-file name for a note: every character that is not alphanumeric,
/// `-` or `_` becomes `_`.
pub fn sanitize_filename(name: &str) -> (r: String)
    ensures
        r@ == name@.map_values(|c: char| file_safe(c)),
{
    let cs = chars_of(name);
    let mut r = String::new();
    let mut i: usize = 0;
    while i < cs.len()
        invariant
            i <= cs.len(),
            cs@ == name@,
            r@ == name@.take(i as int).map_values(|c: char| file_safe(c)),
        decreases cs.len() - i,
    {
        let c = cs[i];
        let k = if is_alphanumeric(c) || c == '-' || c == '_' {
            c
        } else {
            '_'
        };
        push_char(&mut r, k);
        proof {
            assert(name@.take(i + 1).map_values(|c: char| file_safe(c)) == name@.take(
                i as int,
            ).map_values(|c: char| file_safe(c)).push(file_safe(c)));
        }
        i = i + 1;
    }
    proof {
        assert(name@.take(cs.len() as int) == name@);
    }
    r
}

} // verus!
