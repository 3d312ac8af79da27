//! Laws of [`crate::path`], [`crate::path_map`] and [`crate::names`].

use crate::names;
use crate::path;
use crate::path::{Part, PathStyle, PrefixPart, Separators};
use vstd::prelude::*;

verus! {

/// A list of components without the root or the `.` that it starts with.
pub open spec fn behind_start(parts: Seq<Part>) -> Seq<Part> {
    if parts.len() > 0 && (parts[0] is Root || parts[0] is Cur) {
        parts.skip(1)
    } else {
        parts
    }
}

/// A text without a slash is one component: none if it is empty, `.` and `..` by
/// their meaning, and else a name.
pub proof fn law_one_piece(text: Seq<u8>)
    requires
        forall|i: int| 0 <= i < text.len() ==> #[trigger] text[i] != 47u8,
    ensures
        path::path_parts(PathStyle::Posix, text) == (if text.len() == 0 {
            Seq::<Part>::empty()
        } else if text == seq![46u8] {
            seq![Part::Cur]
        } else if text == seq![46u8, 46u8] {
            seq![Part::Parent]
        } else {
            seq![Part::Normal(text)]
        }),
{
    path::lemma_cut_at(Separators::Slash, text, text.len() as int);
}

proof fn lemma_start(text: Seq<u8>)
    ensures
        behind_start(path::path_parts(PathStyle::Posix, text)) == path::relative_parts(
            Separators::Slash,
            text,
            false,
        ),
{
    let all = path::path_parts(PathStyle::Posix, text);
    let rest = path::relative_parts(Separators::Slash, text, false);
    if text.len() > 0 && text[0] == 47u8 {
        let names = path::relative_parts(Separators::Slash, text.skip(1), false);
        assert(path::cut(Separators::Slash, text) == 0);
        assert(text.take(0) =~= Seq::empty());
        assert(path::piece_parts(text.take(0), false) =~= Seq::empty());
        assert(rest =~= names);
        assert(behind_start(all) =~= names);
    } else if text.len() > 0 {
        let end = path::cut(Separators::Slash, text) as int;
        lemma_cut_inside(Separators::Slash, text);
        assert(end > 0);
        let piece = if end >= text.len() {
            text
        } else {
            text.take(end)
        };
        let behind = if end >= text.len() {
            Seq::empty()
        } else {
            path::relative_parts(Separators::Slash, text.skip(end + 1), false)
        };
        assert(all =~= path::piece_parts(piece, true) + behind);
        assert(rest =~= path::piece_parts(piece, false) + behind);
        assert(piece.len() > 0);
        assert(behind_start(all) =~= rest);
    } else {
        assert(behind_start(all) =~= rest);
    }
}

proof fn lemma_cut_inside(separators: Separators, text: Seq<u8>)
    ensures
        path::cut(separators, text) <= text.len(),
        path::cut(separators, text) < text.len() ==> path::separates(
            separators,
            text[path::cut(separators, text) as int],
        ),
        forall|i: int|
            0 <= i < path::cut(separators, text) ==> !path::separates(
                separators,
                #[trigger] text[i],
            ),
    decreases text.len(),
{
    if text.len() > 0 && !path::separates(separators, text[0]) {
        let rest = text.skip(1);
        lemma_cut_inside(separators, rest);
        let end = path::cut(separators, text) as int;
        assert(end == 1 + path::cut(separators, rest));
        assert forall|i: int| 0 <= i < end implies !path::separates(
            separators,
            #[trigger] text[i],
        ) by {
            if i > 0 {
                assert(rest[i - 1] == text[i]);
            }
        }
        if end < text.len() {
            assert(rest[end - 1] == text[end]);
        }
    }
}

proof fn lemma_relative_in_parts(first: Seq<u8>, second: Seq<u8>, lead: bool)
    ensures
        path::relative_parts(Separators::Slash, first + seq![47u8] + second, lead)
            == path::relative_parts(Separators::Slash, first, lead) + path::relative_parts(
            Separators::Slash,
            second,
            false,
        ),
    decreases first.len(),
{
    let whole = first + seq![47u8] + second;
    let end = path::cut(Separators::Slash, first) as int;
    lemma_cut_inside(Separators::Slash, first);
    assert forall|k: int| 0 <= k < end implies !path::separates(
        Separators::Slash,
        #[trigger] whole[k],
    ) by {
        assert(whole[k] == first[k]);
    }
    assert(end < first.len() ==> whole[end] == first[end]);
    path::lemma_cut_at(Separators::Slash, whole, end);
    assert(whole.take(end) =~= first.take(end));
    let piece = path::piece_parts(first.take(end), lead);
    if end >= first.len() {
        assert(first.take(end) =~= first);
        assert(whole.skip(end + 1) =~= second);
        assert(path::relative_parts(Separators::Slash, first, lead) =~= piece);
    } else {
        assert(whole.skip(end + 1) =~= first.skip(end + 1) + seq![47u8] + second);
        lemma_relative_in_parts(first.skip(end + 1), second, false);
        let inner = path::relative_parts(Separators::Slash, first.skip(end + 1), false);
        let outer = path::relative_parts(Separators::Slash, second, false);
        assert(piece + (inner + outer) =~= (piece + inner) + outer);
    }
}

/// A text that starts with a slash names a path from the root on. Else a slash
/// sets apart two texts of which each is read on its own: `a/b` is what `a` is and
/// then what `b` is, and neither a slash nor a `.` in between counts.
pub proof fn law_slashes_set_names_apart(first: Seq<u8>, second: Seq<u8>)
    ensures
        path::path_parts(PathStyle::Posix, seq![47u8] + second) == seq![Part::Root]
            + behind_start(path::path_parts(PathStyle::Posix, second)),
        first.len() > 0 ==> path::path_parts(PathStyle::Posix, first + seq![47u8] + second)
            == path::path_parts(PathStyle::Posix, first) + behind_start(
            path::path_parts(PathStyle::Posix, second),
        ),
{
    lemma_start(second);
    let rooted = seq![47u8] + second;
    assert(rooted.skip(1) =~= second);
    if first.len() > 0 {
        let whole = first + seq![47u8] + second;
        assert(whole[0] == first[0]);
        let tail = path::relative_parts(Separators::Slash, second, false);
        if first[0] == 47u8 {
            assert(whole.skip(1) =~= first.skip(1) + seq![47u8] + second);
            lemma_relative_in_parts(first.skip(1), second, false);
            let names = path::relative_parts(Separators::Slash, first.skip(1), false);
            assert(seq![Part::Root] + (names + tail) =~= (seq![Part::Root] + names) + tail);
        } else {
            lemma_relative_in_parts(first, second, true);
        }
    }
}

/// A text with slashes in the place of its backslashes.
pub open spec fn slashed(text: Seq<u8>) -> Seq<u8> {
    text.map_values(
        |byte: u8|
            if byte == 92u8 {
                47u8
            } else {
                byte
            },
    )
}

proof fn lemma_slashed_names(text: Seq<u8>, lead: bool)
    ensures
        path::relative_parts(Separators::Both, text, lead) == path::relative_parts(
            Separators::Slash,
            slashed(text),
            lead,
        ),
    decreases text.len(),
{
    let other = slashed(text);
    let end = path::cut(Separators::Both, text) as int;
    lemma_cut_inside(Separators::Both, text);
    assert forall|k: int| 0 <= k < end implies !path::separates(
        Separators::Slash,
        #[trigger] other[k],
    ) by {
        assert(!path::separates(Separators::Both, text[k]));
    }
    path::lemma_cut_at(Separators::Slash, other, end);
    assert(other.take(end) =~= text.take(end)) by {
        assert forall|k: int| 0 <= k < end implies other[k] == #[trigger] text[k] by {
            assert(!path::separates(Separators::Both, text[k]));
        }
    }
    if end < text.len() {
        assert(other.skip(end + 1) =~= slashed(text.skip(end + 1)));
        lemma_slashed_names(text.skip(end + 1), false);
    } else {
        assert(other.take(end) =~= other);
        assert(text.take(end) =~= text);
    }
}

/// On Windows a text without a prefix is read as elsewhere, with `\` as good as
/// `/`.
pub proof fn law_windows_has_two_separators(text: Seq<u8>)
    requires
        path::parsed_prefix(text) is None,
    ensures
        path::path_parts(PathStyle::Windows, text) == path::path_parts(
            PathStyle::Posix,
            slashed(text),
        ),
{
    lemma_slashed_names(text, true);
    if text.len() > 0 {
        lemma_slashed_names(text.skip(1), false);
        assert(slashed(text).skip(1) =~= slashed(text.skip(1)));
    }
}

/// A text that starts with neither two separators nor a drive has no prefix.
pub proof fn law_most_texts_have_no_prefix(text: Seq<u8>)
    requires
        !(text.len() >= 2 && (text[0] == 47u8 || text[0] == 92u8) && (text[1] == 47u8 || text[1]
            == 92u8)),
        !(text.len() >= 2 && text[1] == 58u8 && (65 <= text[0] <= 90 || 97 <= text[0] <= 122)),
    ensures
        path::parsed_prefix(text) is None,
{
}

/// A drive is a prefix, whatever the case of its letter; behind it a path starts
/// at the root only if a separator follows, and a leading `.` does not count.
pub proof fn law_drive_is_a_prefix(letter: u8, rest: Seq<u8>)
    requires
        65 <= letter <= 90 || 97 <= letter <= 122,
    ensures
        ({
            let drive = if letter >= 97 {
                (letter - 32) as u8
            } else {
                letter
            };
            let parts = path::path_parts(PathStyle::Posix, slashed(rest));
            path::path_parts(PathStyle::Windows, seq![letter, 58u8] + rest) == seq![
                Part::Prefix(PrefixPart::Disk(drive)),
            ] + (if rest.len() > 0 && (rest[0] == 47u8 || rest[0] == 92u8) {
                parts
            } else {
                behind_start(parts)
            })
        }),
{
    let text = seq![letter, 58u8] + rest;
    assert(text.skip(2) =~= rest);
    assert(text[0] == letter && text[1] == 58u8);
    lemma_slashed_names(rest, false);
    lemma_start(slashed(rest));
    if rest.len() > 0 {
        lemma_slashed_names(rest.skip(1), false);
        assert(slashed(rest).skip(1) =~= slashed(rest.skip(1)));
    }
}

/// A name without a separator of either kind.
pub open spec fn is_one_name(name: Seq<u8>) -> bool {
    forall|i: int| 0 <= i < name.len() ==> #[trigger] name[i] != 47u8 && name[i] != 92u8
}

proof fn lemma_piece_ends(separators: Separators, text: Seq<u8>, from: int, end: int)
    requires
        0 <= from <= end <= text.len(),
        forall|k: int| from <= k < end ==> !path::separates(separators, #[trigger] text[k]),
        end == text.len() || path::separates(separators, text[end]),
    ensures
        path::piece_end(separators, text, from) == end,
{
    let rest = text.skip(from);
    assert forall|k: int| 0 <= k < end - from implies !path::separates(
        separators,
        #[trigger] rest[k],
    ) by {
        assert(rest[k] == text[from + k]);
    }
    assert(end < text.len() ==> rest[end - from] == text[end]);
    path::lemma_cut_at(separators, rest, end - from);
}

/// A share is a prefix by its server and its name, with separators of either
/// kind, and what is behind it starts at the root.
pub proof fn law_share_is_a_prefix(
    server: Seq<u8>,
    share: Seq<u8>,
    one: u8,
    two: u8,
    three: u8,
    rest: Seq<u8>,
)
    requires
        one == 47u8 || one == 92u8,
        two == 47u8 || two == 92u8,
        three == 47u8 || three == 92u8,
        is_one_name(server),
        is_one_name(share),
        server.len() > 0,
        share.len() > 0,
        server != seq![46u8],
        server != seq![63u8],
        rest.len() == 0 || rest[0] == 47u8 || rest[0] == 92u8,
    ensures
        path::path_parts(
            PathStyle::Windows,
            seq![one, two] + server + seq![three] + share + rest,
        ) == seq![Part::Prefix(PrefixPart::Unc(server, share)), Part::Root] + behind_start(
            path::path_parts(PathStyle::Posix, slashed(rest)),
        ),
{
    let text = seq![one, two] + server + seq![three] + share + rest;
    let middle = 2 + server.len() as int;
    let end = middle + 1 + share.len();
    assert(text[0] == one && text[1] == two && text[middle] == three);
    assert forall|k: int| 2 <= k < middle implies !path::separates(
        Separators::Both,
        #[trigger] text[k],
    ) by {
        assert(text[k] == server[k - 2]);
    }
    assert forall|k: int| middle + 1 <= k < end implies !path::separates(
        Separators::Both,
        #[trigger] text[k],
    ) by {
        assert(text[k] == share[k - middle - 1]);
    }
    assert(end < text.len() ==> text[end] == rest[0]);
    lemma_piece_ends(Separators::Both, text, 2, middle);
    lemma_piece_ends(Separators::Both, text, middle + 1, end);
    assert(text.subrange(2, middle) =~= server);
    assert(text.subrange(middle + 1, end) =~= share);
    assert(text[2] == server[0]);
    if server.len() == 1 {
        assert(server =~= seq![server[0]]);
    } else {
        assert(text[3] == server[1]);
    }
    assert(!path::is_verbatim(text));
    assert(text.skip(end) =~= rest);
    lemma_slashed_names(rest, false);
    lemma_start(slashed(rest));
    if rest.len() > 0 {
        lemma_slashed_names(rest.skip(1), false);
        assert(slashed(rest).skip(1) =~= slashed(rest.skip(1)));
        let body = path::body_parts(Separators::Both, rest, true, true);
        let names = path::relative_parts(Separators::Slash, slashed(rest.skip(1)), false);
        assert(body == seq![Part::Root] + names);
        assert(behind_start(path::path_parts(PathStyle::Posix, slashed(rest))) =~= names);
        assert(seq![Part::Prefix(PrefixPart::Unc(server, share))] + (seq![Part::Root] + names)
            =~= seq![Part::Prefix(PrefixPart::Unc(server, share)), Part::Root] + names);
    } else {
        assert(slashed(rest) =~= Seq::empty());
        let names = path::relative_parts(Separators::Slash, slashed(rest), false);
        assert(names =~= Seq::empty());
        assert(path::relative_parts(Separators::Both, rest, false) =~= Seq::empty());
    }
}

/// The verbatim forms of a drive, a share and a name are prefixes of their own.
pub proof fn law_verbatim_prefixes(
    letter: u8,
    server: Seq<u8>,
    share: Seq<u8>,
    name: Seq<u8>,
)
    requires
        65 <= letter <= 90 || 97 <= letter <= 122,
        is_one_name(server),
        is_one_name(share),
        is_one_name(name),
        share.len() > 0,
        !(name.len() >= 2 && name[1] == 58u8),
    ensures
        ({
            let mark = seq![92u8, 92u8, 63u8, 92u8];
            &&& path::parsed_prefix(mark + seq![letter, 58u8]) == Some(
                PrefixPart::VerbatimDisk(
                    if letter >= 97 {
                        (letter - 32) as u8
                    } else {
                        letter
                    },
                ),
            )
            &&& path::parsed_prefix(
                mark + seq![85u8, 78u8, 67u8, 92u8] + server + seq![92u8] + share,
            ) == Some(PrefixPart::VerbatimUnc(server, share))
            &&& path::parsed_prefix(mark + name) == Some(PrefixPart::Verbatim(name))
            &&& path::parsed_prefix(seq![92u8, 92u8, 46u8, 92u8] + name) == Some(
                PrefixPart::Device(name),
            )
        }),
{
    let mark = seq![92u8, 92u8, 63u8, 92u8];
    let drive = mark + seq![letter, 58u8];
    assert(drive.len() == 6 && drive[0] == 92u8 && drive[1] == 92u8 && drive[2] == 63u8 && drive[3]
        == 92u8 && drive[4] == letter && drive[5] == 58u8);
    let unc = mark + seq![85u8, 78u8, 67u8, 92u8] + server + seq![92u8] + share;
    let middle = 8 + server.len() as int;
    assert(unc[0] == 92u8 && unc[1] == 92u8 && unc[2] == 63u8 && unc[3] == 92u8 && unc[4] == 85u8
        && unc[5] == 78u8 && unc[6] == 67u8 && unc[7] == 92u8 && unc[middle] == 92u8);
    assert forall|k: int| 8 <= k < middle implies !path::separates(
        Separators::Backslash,
        #[trigger] unc[k],
    ) by {
        assert(unc[k] == server[k - 8]);
    }
    assert forall|k: int| middle + 1 <= k < unc.len() implies !path::separates(
        Separators::Backslash,
        #[trigger] unc[k],
    ) by {
        assert(unc[k] == share[k - middle - 1]);
    }
    lemma_piece_ends(Separators::Backslash, unc, 8, middle);
    lemma_piece_ends(Separators::Backslash, unc, middle + 1, unc.len() as int);
    assert(unc.subrange(8, middle) =~= server);
    assert(unc.subrange(middle + 1, unc.len() as int) =~= share);
    let plain = mark + name;
    assert(plain[0] == 92u8 && plain[1] == 92u8 && plain[2] == 63u8 && plain[3] == 92u8);
    assert forall|k: int| 4 <= k < plain.len() implies plain[k] != 47u8 && #[trigger] plain[k]
        != 92u8 by {
        assert(plain[k] == name[k - 4]);
    }
    assert(name.len() >= 2 ==> plain[5] == name[1]);
    lemma_piece_ends(Separators::Backslash, plain, 4, plain.len() as int);
    assert(plain.subrange(4, plain.len() as int) =~= name);
    let device = seq![92u8, 92u8, 46u8, 92u8] + name;
    assert(device[0] == 92u8 && device[1] == 92u8 && device[2] == 46u8 && device[3] == 92u8);
    assert forall|k: int| 4 <= k < device.len() implies device[k] != 47u8 && #[trigger] device[k]
        != 92u8 by {
        assert(device[k] == name[k - 4]);
    }
    lemma_piece_ends(Separators::Both, device, 4, device.len() as int);
    assert(device.subrange(4, device.len() as int) =~= name);
}

/// The text of a prefix is the usual one.
pub proof fn law_prefix_texts(drive: u8, server: Seq<u8>, share: Seq<u8>, name: Seq<u8>)
    requires
        server != seq![63u8],
        share.len() > 0,
    ensures
        ({
            let mark = seq![92u8, 92u8, 63u8, 92u8];
            &&& path::prefix_text(PrefixPart::Disk(drive)) == seq![drive, 58u8]
            &&& path::prefix_text(PrefixPart::Unc(server, share)) == seq![92u8, 92u8] + server
                + seq![92u8] + share
            &&& path::prefix_text(PrefixPart::Device(name)) == seq![92u8, 92u8, 46u8, 92u8] + name
            &&& path::prefix_text(PrefixPart::VerbatimDisk(drive)) == mark + seq![drive, 58u8]
            &&& path::prefix_text(PrefixPart::VerbatimUnc(server, share)) == mark + seq![
                85u8,
                78u8,
                67u8,
                92u8,
            ] + server + seq![92u8] + share
            &&& path::prefix_text(PrefixPart::Verbatim(name)) == mark + name
        }),
{
    let mark = seq![92u8, 92u8, 63u8, 92u8];
    assert(path::prefix_text(PrefixPart::VerbatimUnc(server, share)) =~= mark + seq![
        85u8,
        78u8,
        67u8,
        92u8,
    ] + server + seq![92u8] + share);
}

/// Joining appends the components of a relative path, without a leading `.`. A
/// path from the root on replaces all but the prefix, and one with a prefix all.
pub proof fn law_joining(base: Seq<Part>, more: Seq<Part>)
    ensures
        base.len() == 0 ==> path::joined(base, more) == more,
        more.len() > 0 && more[0] is Prefix ==> path::joined(base, more) == more,
        base.len() > 0 && !path::has_verbatim_prefix(base) ==> ({
            let whole = path::joined(base, more);
            &&& more.len() == 0 ==> whole == base
            &&& more.len() > 0 && (more[0] is Normal || more[0] is Parent) ==> whole == base + more
            &&& more.len() > 0 && more[0] is Cur ==> whole == base + more.skip(1)
            &&& more.len() > 0 && more[0] is Root && !(base[0] is Prefix) ==> whole == more
            &&& more.len() > 0 && more[0] is Root && base[0] is Prefix ==> whole == seq![base[0]]
                + more
        }),
        path::has_verbatim_prefix(base) <==> base.len() > 0 && (base[0] matches Part::Prefix(p)
            && (p is Verbatim || p is VerbatimUnc || p is VerbatimDisk)),
{
    assert(base + Seq::<Part>::empty() =~= base);
    if more.len() == 0 {
        assert(more =~= Seq::empty());
    }
}

/// The parent of a path is the path without its last component; a root and a
/// prefix have none, nor has the empty path.
pub proof fn law_parents_and_names(above: Seq<Part>, last: Part)
    ensures
        path::parent_of(Seq::empty()) is None,
        path::parent_of(above.push(last)) == (if last is Root || last is Prefix {
            None::<Seq<Part>>
        } else {
            Some(above)
        }),
        path::file_name_of(Seq::empty()) is None,
        path::file_name_of(above.push(last)) == (match last {
            Part::Normal(name) => Some(name),
            _ => None::<Seq<u8>>,
        }),
        path::path_has_extension(above.push(last)) <==> (last matches Part::Normal(name)
            && exists|i: int| 0 < i < name.len() && #[trigger] name[i] == 46u8),
{
    assert(above.push(last).drop_last() =~= above);
}

/// What is left of a map outside of a directory is all of it that does not lie at
/// or under that directory, as it was.
pub proof fn law_outside_of_a_directory<V>(
    map: Map<Seq<Part>, V>,
    dir: Seq<Part>,
    key: Seq<Part>,
)
    ensures
        crate::path_map::outside(map, dir).contains_key(key) <==> map.contains_key(key) && !(
        dir.len() <= key.len() && key.take(dir.len() as int) == dir),
        crate::path_map::outside(map, dir).contains_key(key) ==> crate::path_map::outside(
            map,
            dir,
        )[key] == map[key],
{
    if dir.len() <= key.len() {
        assert(key.take(dir.len() as int) =~= key.subrange(0, dir.len() as int));
    }
}

/// The text of a name that is valid is the name itself.
pub proof fn law_text_of_a_name(name: Seq<u8>)
    ensures
        vstd::utf8::valid_utf8(name) ==> names::text_of(name) == name,
        !vstd::utf8::valid_utf8(name) ==> names::text_of(name) == names::utf8_lossy(name),
{
}

proof fn lemma_last_dot(stem: Seq<u8>, ext: Seq<u8>)
    requires
        forall|i: int| 0 <= i < ext.len() ==> #[trigger] ext[i] != 46u8,
    ensures
        names::last_dot(stem + seq![46u8] + ext) == stem.len(),
    decreases ext.len(),
{
    let whole = stem + seq![46u8] + ext;
    if ext.len() > 0 {
        assert(whole.last() == ext.last());
        assert(whole.drop_last() =~= stem + seq![46u8] + ext.drop_last());
        lemma_last_dot(stem, ext.drop_last());
    } else {
        assert(whole.last() == 46u8);
    }
}

proof fn lemma_no_dot(name: Seq<u8>)
    requires
        forall|i: int| 0 <= i < name.len() ==> #[trigger] name[i] != 46u8,
    ensures
        names::last_dot(name) == -1,
    decreases name.len(),
{
    if name.len() > 0 {
        assert(name[name.len() - 1] != 46u8);
        lemma_no_dot(name.drop_last());
    }
}

/// A suffix comes before the extension, which is what follows the last dot, and
/// behind a name that has none.
pub proof fn law_suffix_before_extension(stem: Seq<u8>, ext: Seq<u8>, suffix: Seq<u8>)
    requires
        forall|i: int| 0 <= i < ext.len() ==> #[trigger] ext[i] != 46u8,
    ensures
        names::suffixed(stem + seq![46u8] + ext, suffix) == stem + seq![46u8] + suffix + seq![
            46u8,
        ] + ext,
        names::suffixed(ext, suffix) == ext + seq![46u8] + suffix,
{
    lemma_last_dot(stem, ext);
    lemma_no_dot(ext);
    let whole = stem + seq![46u8] + ext;
    assert(whole.take(stem.len() as int) =~= stem);
    assert(whole.skip(stem.len() as int) =~= seq![46u8] + ext);
    assert(names::suffixed(whole, suffix) =~= stem + seq![46u8] + suffix + seq![46u8] + ext);
}

/// The number that decimal digits stand for.
pub open spec fn number(digits: Seq<u8>) -> int
    decreases digits.len(),
{
    if digits.len() == 0 {
        0
    } else {
        10 * number(digits.drop_last()) + (digits.last() - 48)
    }
}

/// The digits of a number stand for that number, and none of them is a zero in
/// front of others.
pub proof fn law_decimal_digits(n: nat)
    ensures
        names::decimal(n).len() > 0,
        number(names::decimal(n)) == n,
        forall|i: int| 0 <= i < names::decimal(n).len() ==> 48 <= #[trigger] names::decimal(n)[i]
            <= 57,
        names::decimal(n).len() > 1 ==> names::decimal(n)[0] != 48u8,
    decreases n,
{
    let text = names::decimal(n);
    if n < 10 {
        assert(text.drop_last() =~= Seq::empty());
        assert(text.last() == 48 + n);
        assert(number(text.drop_last()) == 0);
    } else {
        law_decimal_digits(n / 10);
        let before = names::decimal(n / 10);
        assert(text.drop_last() =~= before);
        assert(text.last() == 48 + n % 10);
        if before.len() == 1 {
            assert(before.drop_last() =~= Seq::empty());
            assert(number(before) == before[0] - 48) by {
                reveal_with_fuel(number, 2);
            }
        }
        assert(text[0] == before[0]);
        assert forall|i: int| 0 <= i < text.len() implies 48 <= #[trigger] text[i] <= 57 by {
            if i < before.len() {
                assert(text[i] == before[i]);
            }
        }
    }
}

/// The first candidate for a kept copy has the tag before its extension, and each
/// further one the tag, a dot and its number.
pub proof fn law_candidates(name: Seq<u8>, tag: Seq<u8>, turn: nat)
    ensures
        names::candidate(name, tag, 0) == names::suffixed(name, tag),
        turn > 0 ==> names::candidate(name, tag, turn) == names::suffixed(
            name,
            tag + seq![46u8] + names::decimal(turn),
        ),
        names::MAX_COPIES == 1000,
{
}

/// The candidate for a copy of `dir/name` is a name in `dir`, whatever `dir` is. The
/// copy of a path without a parent lies in the current directory.
pub proof fn law_copies_lie_beside(
    dir: Seq<Part>,
    last: Part,
    name: Seq<u8>,
    tag: Seq<u8>,
    turn: nat,
)
    requires
        !path::has_verbatim_prefix(dir),
    ensures
        ({
            let copy = Part::Normal(names::candidate(name, tag, turn));
            &&& !(last is Root || last is Prefix) ==> names::copy_path(
                dir.push(last),
                name,
                tag,
                turn,
            ) == dir.push(copy)
            &&& last is Root || last is Prefix ==> names::copy_path(
                dir.push(last),
                name,
                tag,
                turn,
            ) == seq![Part::Cur, copy]
            &&& names::copy_path(Seq::empty(), name, tag, turn) == seq![Part::Cur, copy]
        }),
{
    let copy = Part::Normal(names::candidate(name, tag, turn));
    law_parents_and_names(dir, last);
    assert(seq![Part::Cur] + seq![copy] =~= seq![Part::Cur, copy]);
    assert(dir + seq![copy] =~= dir.push(copy));
    if dir.len() == 0 {
        assert(dir =~= Seq::empty());
        assert(seq![copy] =~= dir.push(copy));
    }
}

/// The local version of `dir/name` is kept in `dir` under the text of its name with
/// the tag `local`.
pub proof fn law_kept_copy(dir: Seq<Part>, name: Seq<u8>, turn: u32)
    requires
        !path::has_verbatim_prefix(dir),
    ensures
        crate::apply::kept_copy(dir.push(Part::Normal(name)), turn) == dir.push(
            Part::Normal(
                names::candidate(
                    names::text_of(name),
                    seq![108u8, 111u8, 99u8, 97u8, 108u8],
                    turn as nat,
                ),
            ),
        ),
{
    reveal_strlit("local");
    crate::apply_laws::lemma_ascii(crate::apply::LOCAL_TAG@);
    let tag = vstd::utf8::encode_utf8(crate::apply::LOCAL_TAG@);
    assert(tag =~= seq![108u8, 111u8, 99u8, 97u8, 108u8]);
    law_copies_lie_beside(dir, Part::Normal(name), names::text_of(name), tag, turn as nat);
}

/// The text of the file name of a path is that of its last component, and empty if
/// that is no name.
pub proof fn law_text_of_a_file_name(dir: Seq<Part>, last: Part)
    ensures
        names::name_text(dir.push(last)) == (match last {
            Part::Normal(name) => names::text_of(name),
            _ => Seq::<u8>::empty(),
        }),
        names::name_text(Seq::empty()) == Seq::<u8>::empty(),
{
}

/// A component is a name that a path may hold on Windows: not empty, without a
/// separator, and neither `.` nor `..`.
pub open spec fn is_windows_name(part: Part) -> bool {
    part matches Part::Normal(name) && name.len() > 0 && is_one_name(name) && name != seq![46u8]
        && name != seq![46u8, 46u8]
}

proof fn lemma_backslashes(first: Seq<u8>, second: Seq<u8>)
    requires
        forall|i: int| 0 <= i < second.len() ==> #[trigger] second[i] != 92u8,
    ensures
        path::relative_parts(Separators::Backslash, first + seq![92u8] + second, true)
            == path::relative_parts(Separators::Backslash, first, true) + path::piece_parts(
            second,
            true,
        ),
        path::relative_parts(Separators::Backslash, second, true) == path::piece_parts(
            second,
            true,
        ),
    decreases first.len(),
{
    let whole = first + seq![92u8] + second;
    path::lemma_cut_at(Separators::Backslash, second, second.len() as int);
    assert(path::relative_parts(Separators::Backslash, second, true) =~= path::piece_parts(
        second,
        true,
    ));
    let end = path::cut(Separators::Backslash, first) as int;
    lemma_cut_inside(Separators::Backslash, first);
    assert forall|k: int| 0 <= k < end implies !path::separates(
        Separators::Backslash,
        #[trigger] whole[k],
    ) by {
        assert(whole[k] == first[k]);
    }
    assert(end < first.len() ==> whole[end] == first[end]);
    path::lemma_cut_at(Separators::Backslash, whole, end);
    assert(whole.take(end) =~= first.take(end));
    let piece = path::piece_parts(first.take(end), true);
    assert(end < whole.len());
    assert(path::relative_parts(Separators::Backslash, whole, true) == piece
        + path::relative_parts(Separators::Backslash, whole.skip(end + 1), true));
    if end >= first.len() {
        assert(first.take(end) =~= first);
        assert(whole.skip(end + 1) =~= second);
        assert(path::relative_parts(Separators::Backslash, first, true) =~= piece);
    } else {
        assert(whole.skip(end + 1) =~= first.skip(end + 1) + seq![92u8] + second);
        lemma_backslashes(first.skip(end + 1), second);
        let inner = path::relative_parts(Separators::Backslash, first.skip(end + 1), true);
        let outer = path::piece_parts(second, true);
        assert(piece + (inner + outer) =~= (piece + inner) + outer);
    }
}

proof fn lemma_rendered_drive(drive: u8, names: Seq<Part>)
    requires
        forall|i: int| 0 <= i < names.len() ==> is_windows_name(#[trigger] names[i]),
    ensures
        ({
            let head = seq![Part::Prefix(PrefixPart::VerbatimDisk(drive)), Part::Root];
            let text = path::rendered(head + names);
            let start = seq![92u8, 92u8, 63u8, 92u8, drive, 58u8, 92u8];
            &&& text.len() >= 7
            &&& text.take(7) == start
            &&& path::relative_parts(Separators::Backslash, text.skip(7), true) == names
        }),
    decreases names.len(),
{
    let head = seq![Part::Prefix(PrefixPart::VerbatimDisk(drive)), Part::Root];
    let parts = head + names;
    let text = path::rendered(parts);
    let start = seq![92u8, 92u8, 63u8, 92u8, drive, 58u8, 92u8];
    if names.len() == 0 {
        let prefix = seq![Part::Prefix(PrefixPart::VerbatimDisk(drive))];
        assert(parts =~= head);
        assert(parts.drop_last() =~= prefix);
        assert(prefix.drop_last() =~= Seq::empty());
        assert(path::rendered(Seq::empty()) =~= Seq::empty());
        assert(path::rendered(prefix) =~= seq![92u8, 92u8, 63u8, 92u8, drive, 58u8]);
        assert(text =~= start);
        assert(text.take(7) =~= start);
        assert(text.skip(7) =~= Seq::empty());
        assert(path::relative_parts(Separators::Backslash, text.skip(7), true) =~= names);
    } else {
        let before = names.drop_last();
        let last = names.last();
        assert forall|i: int| 0 <= i < before.len() implies is_windows_name(
            #[trigger] before[i],
        ) by {
            assert(before[i] == names[i]);
        }
        lemma_rendered_drive(drive, before);
        assert(parts.drop_last() =~= head + before);
        assert(parts.last() == last);
        assert(is_windows_name(names[names.len() - 1]));
        let name = last->Normal_0;
        let earlier = path::rendered(head + before);
        let tail = earlier.skip(7);
        lemma_backslashes(tail, name);
        assert(path::piece_parts(name, true) == seq![last]);
        assert(names =~= before + seq![last]);
        if before.len() == 0 {
            assert((head + before).last() == Part::Root);
            assert(head + before =~= head);
            assert(text =~= earlier + name);
            let prefix = seq![Part::Prefix(PrefixPart::VerbatimDisk(drive))];
            assert(head.drop_last() =~= prefix);
            assert(prefix.drop_last() =~= Seq::empty());
            assert(path::rendered(Seq::empty()) =~= Seq::empty());
            assert(path::rendered(prefix) =~= seq![92u8, 92u8, 63u8, 92u8, drive, 58u8]);
            assert(earlier =~= start);
            assert(text.skip(7) =~= name);
            assert(before =~= Seq::empty());
            assert(names =~= seq![last]);
        } else {
            assert((head + before).last() == before.last());
            assert(is_windows_name(before[before.len() - 1]));
            assert(text =~= earlier + seq![92u8] + name);
            assert(text.skip(7) =~= tail + seq![92u8] + name);
        }
        assert(text.take(7) =~= earlier.take(7));
    }
}

proof fn lemma_resolved_names(base: Seq<Part>, more: Seq<Part>)
    requires
        forall|i: int| 0 <= i < more.len() ==> (#[trigger] more[i]) is Normal,
    ensures
        path::all_resolved(base, more) == base + more,
    decreases more.len(),
{
    if more.len() == 0 {
        assert(base + more =~= base);
    } else {
        let before = more.drop_last();
        assert forall|i: int| 0 <= i < before.len() implies (#[trigger] before[i]) is Normal by {
            assert(before[i] == more[i]);
        }
        lemma_resolved_names(base, before);
        assert(more[more.len() - 1] is Normal);
        assert((base + before).push(more.last()) =~= base + more);
    }
}

/// Names are joined to a directory of a drive in its verbatim form, which is what
/// Windows gives for a canonical path, as to any other directory.
pub proof fn law_joining_to_a_canonical_path(drive: u8, dirs: Seq<Part>, more: Seq<Part>)
    requires
        65 <= drive <= 90,
        forall|i: int| 0 <= i < dirs.len() ==> is_windows_name(#[trigger] dirs[i]),
        forall|i: int| 0 <= i < more.len() ==> is_windows_name(#[trigger] more[i]),
        more.len() > 0,
    ensures
        ({
            let base = seq![Part::Prefix(PrefixPart::VerbatimDisk(drive)), Part::Root] + dirs;
            path::joined(base, more) == base + more
        }),
{
    let head = seq![Part::Prefix(PrefixPart::VerbatimDisk(drive)), Part::Root];
    let base = head + dirs;
    let names = dirs + more;
    assert(base[0] == head[0]);
    assert(is_windows_name(more[0]));
    assert forall|i: int| 0 <= i < more.len() implies (#[trigger] more[i]) is Normal by {
        assert(is_windows_name(more[i]));
    }
    lemma_resolved_names(base, more);
    assert forall|i: int| 0 <= i < names.len() implies is_windows_name(#[trigger] names[i]) by {
        if i < dirs.len() {
            assert(names[i] == dirs[i]);
        } else {
            assert(names[i] == more[i - dirs.len()]);
        }
    }
    assert(base + more =~= head + names);
    lemma_rendered_drive(drive, names);
    let text = path::rendered(head + names);
    let start = seq![92u8, 92u8, 63u8, 92u8, drive, 58u8, 92u8];
    assert forall|i: int| 0 <= i < 7 implies #[trigger] text[i] == start[i] by {
        assert(text.take(7)[i] == text[i]);
    }
    assert(text[0] == 92u8 && text[1] == 92u8 && text[2] == 63u8 && text[3] == 92u8 && text[4]
        == drive && text[5] == 58u8 && text[6] == 92u8);
    assert(path::parsed_prefix(text) == Some(PrefixPart::VerbatimDisk(drive)));
    let rest = text.skip(6);
    assert(rest[0] == text[6]);
    assert(rest.skip(1) =~= text.skip(7));
    assert(path::path_parts(PathStyle::Windows, text) =~= head + names);
}

/// Behind a verbatim prefix only `\` sets names apart: what follows the last one
/// is one more component, with any slash in it, and a `.` counts wherever it is.
pub proof fn law_verbatim_names(letter: u8, first: Seq<u8>, last: Seq<u8>)
    requires
        65 <= letter <= 90,
        forall|i: int| 0 <= i < last.len() ==> #[trigger] last[i] != 92u8,
    ensures
        ({
            let drive = seq![92u8, 92u8, 63u8, 92u8, letter, 58u8, 92u8];
            let parts = |text: Seq<u8>| path::path_parts(PathStyle::Windows, drive + text);
            let component = if last.len() == 0 {
                Seq::<Part>::empty()
            } else if last == seq![46u8] {
                seq![Part::Cur]
            } else if last == seq![46u8, 46u8] {
                seq![Part::Parent]
            } else {
                seq![Part::Normal(last)]
            };
            let root = seq![Part::Prefix(PrefixPart::VerbatimDisk(letter)), Part::Root];
            &&& parts(last) == root + component
            &&& parts(first + seq![92u8] + last) == parts(first) + component
        }),
{
    let drive = seq![92u8, 92u8, 63u8, 92u8, letter, 58u8, 92u8];
    let root = seq![Part::Prefix(PrefixPart::VerbatimDisk(letter)), Part::Root];
    lemma_backslashes(first, last);
    lemma_verbatim_body(letter, last);
    lemma_verbatim_body(letter, first);
    lemma_verbatim_body(letter, first + seq![92u8] + last);
    let before = path::relative_parts(Separators::Backslash, first, true);
    let component = path::piece_parts(last, true);
    assert(root + (before + component) =~= (root + before) + component);
}

proof fn lemma_verbatim_body(letter: u8, text: Seq<u8>)
    requires
        65 <= letter <= 90,
    ensures
        path::path_parts(
            PathStyle::Windows,
            seq![92u8, 92u8, 63u8, 92u8, letter, 58u8, 92u8] + text,
        ) == seq![Part::Prefix(PrefixPart::VerbatimDisk(letter)), Part::Root]
            + path::relative_parts(Separators::Backslash, text, true),
{
    let drive = seq![92u8, 92u8, 63u8, 92u8, letter, 58u8, 92u8];
    let whole = drive + text;
    assert(whole[0] == 92u8 && whole[1] == 92u8 && whole[2] == 63u8 && whole[3] == 92u8 && whole[4]
        == letter && whole[5] == 58u8 && whole[6] == 92u8);
    let rest = whole.skip(6);
    assert(rest[0] == 92u8);
    assert(rest.skip(1) =~= text);
    let names = path::relative_parts(Separators::Backslash, text, true);
    assert(seq![Part::Prefix(PrefixPart::VerbatimDisk(letter))] + (seq![Part::Root] + names)
        =~= seq![Part::Prefix(PrefixPart::VerbatimDisk(letter)), Part::Root] + names);
}

/// Components behind a verbatim prefix are resolved one by one: `.` leaves things
/// as they are, `..` takes the last name back if there is one, the root takes all
/// back but the prefix, and a name is appended.
pub proof fn law_resolving(base: Seq<Part>, more: Seq<Part>, part: Part)
    ensures
        path::all_resolved(base, Seq::empty()) == base,
        ({
            let before = path::all_resolved(base, more);
            let after = path::all_resolved(base, more.push(part));
            &&& part is Cur ==> after == before
            &&& part is Normal || part is Prefix ==> after == before.push(part)
            &&& part is Root ==> after == before.take(1).push(Part::Root)
            &&& part is Parent && before.len() > 0 && before.last() is Normal ==> after
                == before.drop_last()
            &&& part is Parent && before.len() > 0 && !(before.last() is Normal) ==> after
                == before
        }),
{
    assert(more.push(part).drop_last() =~= more);
}

/// The text of a list of components has a backslash between two names and behind
/// a prefix that is no drive, and none twice.
pub proof fn law_rendering(parts: Seq<Part>, last: Part)
    ensures
        path::rendered(Seq::empty()) == Seq::<u8>::empty(),
        ({
            let own = match last {
                Part::Prefix(prefix) => path::prefix_text(prefix),
                Part::Root => seq![92u8],
                Part::Cur => seq![46u8],
                Part::Parent => seq![46u8, 46u8],
                Part::Normal(name) => name,
            };
            let set_apart = parts.len() > 0 && !(last is Root) && !(parts.last() is Root) && !(
            parts.last() matches Part::Prefix(p) && p is Disk);
            path::rendered(parts.push(last)) == path::rendered(parts) + (if set_apart {
                seq![92u8]
            } else {
                Seq::empty()
            }) + own
        }),
{
    assert(parts.push(last).drop_last() =~= parts);
    assert(path::rendered(parts) + Seq::<u8>::empty() =~= path::rendered(parts));
}

/// What is joined to a path with a verbatim prefix is resolved, and the text that
/// results is read anew; an empty path only closes the text with a separator.
pub proof fn law_joining_to_a_verbatim_path(base: Seq<Part>, more: Seq<Part>)
    requires
        path::has_verbatim_prefix(base),
        more.len() > 0 ==> !(more[0] is Prefix),
    ensures
        more.len() > 0 ==> path::joined(base, more) == path::path_parts(
            PathStyle::Windows,
            path::rendered(path::all_resolved(base, more)),
        ),
        more.len() == 0 ==> ({
            let text = path::rendered(base);
            path::joined(base, more) == path::path_parts(
                PathStyle::Windows,
                if text.len() > 0 && (text.last() == 47u8 || text.last() == 92u8) {
                    text
                } else {
                    text.push(92u8)
                },
            )
        }),
{
}

} // verus!
