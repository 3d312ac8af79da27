//! Names of the copies that are kept when both sides changed a file.

use crate::path::{push_bytes, Component, Part, SyncPath, DOT};
use vstd::prelude::*;
use vstd::slice::{slice_subrange, slice_to_vec};

verus! {

/// Candidate names that are tried for a kept copy.
pub const MAX_COPIES: u32 = 1000;

/// The text of a name in which every piece that is not valid UTF-8 stands
/// replaced.
pub uninterp spec fn utf8_lossy(bytes: Seq<u8>) -> Seq<u8>;

/// Calls `String::from_utf8_lossy`, which keeps a text that is valid UTF-8 as
/// it is.
#[verifier::external_body]
pub(crate) fn to_lossy(bytes: &[u8]) -> (text: Vec<u8>)
    ensures
        text@ == utf8_lossy(bytes@),
        vstd::utf8::valid_utf8(bytes@) ==> text@ == bytes@,
{
    String::from_utf8_lossy(bytes).into_owned().into_bytes()
}

/// The text of a name: the name itself where it is valid UTF-8.
pub open spec fn text_of(name: Seq<u8>) -> Seq<u8> {
    if vstd::utf8::valid_utf8(name) {
        name
    } else {
        utf8_lossy(name)
    }
}

/// Offset of the last dot of a name, or -1.
pub open spec fn last_dot(name: Seq<u8>) -> int
    decreases name.len(),
{
    if name.len() == 0 {
        -1
    } else if name.last() == DOT {
        name.len() - 1
    } else {
        last_dot(name.drop_last())
    }
}

/// A name with a suffix before its extension: `doc.txt` and `local` make
/// `doc.local.txt`.
pub open spec fn suffixed(name: Seq<u8>, suffix: Seq<u8>) -> Seq<u8> {
    if last_dot(name) < 0 {
        name + seq![DOT] + suffix
    } else {
        name.take(last_dot(name)) + seq![DOT] + suffix + name.skip(last_dot(name))
    }
}

/// The decimal digits of a number.
pub open spec fn decimal(n: nat) -> Seq<u8>
    decreases n,
{
    if n < 10 {
        seq![(48 + n) as u8]
    } else {
        decimal(n / 10).push((48 + n % 10) as u8)
    }
}

/// The name that is tried at the given turn: the tag alone first, then the tag
/// with a number.
pub open spec fn candidate(name: Seq<u8>, tag: Seq<u8>, turn: nat) -> Seq<u8> {
    if turn == 0 {
        suffixed(name, tag)
    } else {
        suffixed(name, tag + seq![DOT] + decimal(turn))
    }
}

/// The path that is tried for the kept copy of `original` at the given turn:
/// beside it, under a candidate name. `name` is the text of its file name.
pub open spec fn copy_path(
    original: Seq<Part>,
    name: Seq<u8>,
    tag: Seq<u8>,
    turn: nat,
) -> Seq<Part> {
    crate::path::joined(
        match crate::path::parent_of(original) {
            Some(parent) => parent,
            None => seq![Part::Cur],
        },
        seq![Part::Normal(candidate(name, tag, turn))],
    )
}

/// The text of the file name of a path; empty if it has none.
pub open spec fn name_text(path: Seq<Part>) -> Seq<u8> {
    match crate::path::file_name_of(path) {
        Some(name) => text_of(name),
        None => Seq::empty(),
    }
}

fn find_last_dot(name: &[u8]) -> (at: Option<usize>)
    ensures
        at matches Some(i) ==> i == last_dot(name@) && i < name@.len(),
        at is None <==> last_dot(name@) < 0,
{
    let mut end: usize = name.len();
    assert(name@.take(end as int) =~= name@);
    while end > 0
        invariant
            end <= name@.len(),
            last_dot(name@) == last_dot(name@.take(end as int)),
        decreases end,
    {
        assert(name@.take(end as int).drop_last() =~= name@.take(end - 1));
        if name[end - 1] == DOT {
            return Some(end - 1);
        }
        end = end - 1;
    }
    None
}

/// A name with a suffix before its extension.
pub fn with_suffix(name: &[u8], suffix: &[u8]) -> (whole: Vec<u8>)
    ensures
        whole@ == suffixed(name@, suffix@),
{
    match find_last_dot(name) {
        Some(at) => {
            let mut whole = slice_to_vec(slice_subrange(name, 0, at));
            whole.push(DOT);
            push_bytes(&mut whole, suffix);
            push_bytes(&mut whole, slice_subrange(name, at, name.len()));
            assert(whole@ =~= suffixed(name@, suffix@));
            whole
        },
        None => {
            let mut whole = slice_to_vec(name);
            whole.push(DOT);
            push_bytes(&mut whole, suffix);
            assert(whole@ =~= suffixed(name@, suffix@));
            whole
        },
    }
}

fn digits(n: u32) -> (text: Vec<u8>)
    ensures
        text@ == decimal(n as nat),
    decreases n,
{
    if n < 10 {
        let mut text: Vec<u8> = Vec::new();
        text.push((48 + n) as u8);
        assert(text@ =~= decimal(n as nat));
        text
    } else {
        let mut text = digits(n / 10);
        text.push((48 + n % 10) as u8);
        text
    }
}

fn make_candidate(name: &[u8], tag: &[u8], turn: u32) -> (whole: Vec<u8>)
    ensures
        whole@ == candidate(name@, tag@, turn as nat),
{
    if turn == 0 {
        return with_suffix(name, tag);
    }
    let mut suffix = slice_to_vec(tag);
    suffix.push(DOT);
    let number = digits(turn);
    push_bytes(&mut suffix, number.as_slice());
    assert(suffix@ =~= tag@ + seq![DOT] + decimal(turn as nat));
    with_suffix(name, suffix.as_slice())
}

/// The path that is tried for the kept copy of `original` at the given turn.
pub fn keep_both_path(original: &SyncPath, tag: &str, turn: u32) -> (copy: SyncPath)
    ensures
        copy@ == copy_path(
            original@,
            name_text(original@),
            vstd::utf8::encode_utf8(tag@),
            turn as nat,
        ),
{
    let name: Vec<u8> = match original.file_name() {
        Some(name) => name,
        None => Vec::new(),
    };
    let text = to_lossy(name.as_slice());
    assert(text@ =~= name_text(original@));
    copy_path_for(original, text.as_slice(), tag, turn)
}

/// The same with the text of the file name already at hand.
pub fn copy_path_for(
    original: &SyncPath,
    name: &[u8],
    tag: &str,
    turn: u32,
) -> (copy: SyncPath)
    ensures
        copy@ == copy_path(original@, name@, vstd::utf8::encode_utf8(tag@), turn as nat),
{
    let chosen = make_candidate(name, tag.as_bytes(), turn);
    let mut last: Vec<Component> = Vec::new();
    last.push(Component::Normal(chosen));
    let file = SyncPath { parts: last };
    assert(file@ =~= seq![Part::Normal(chosen@)]);
    let parent = match original.parent() {
        Some(parent) => parent,
        None => {
            let mut here: Vec<Component> = Vec::new();
            here.push(Component::CurDir);
            let here_path = SyncPath { parts: here };
            assert(here_path@ =~= seq![Part::Cur]);
            here_path
        },
    };
    parent.join(&file)
}

} // verus!
