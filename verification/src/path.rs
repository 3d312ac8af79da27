//! Paths as sequences of components, the form in which two paths are compared.

use vstd::prelude::*;
use vstd::slice::{slice_subrange, slice_to_vec};

verus! {

pub const SLASH: u8 = 47;

pub const BACKSLASH: u8 = 92;

pub const DOT: u8 = 46;

pub const COLON: u8 = 58;

pub const QUESTION_MARK: u8 = 63;

/// How a system writes paths.
#[derive(Clone, Copy, Debug, PartialEq, Eq, Structural)]
pub enum PathStyle {
    /// With `/` between names.
    Posix,
    /// With `\` or `/` between names, and drive or share prefixes.
    Windows,
}

/// Which bytes stand between the names of a path.
#[derive(Clone, Copy, Debug, PartialEq, Eq, Structural)]
pub enum Separators {
    Slash,
    Backslash,
    Both,
}

/// The prefix of a Windows path, in the one form in which prefixes are compared.
/// A drive is its letter in upper case, a share the names of server and share.
#[derive(Debug, PartialEq, Eq)]
pub enum Prefix {
    /// `\\?\name`.
    Verbatim(Vec<u8>),
    /// `\\?\UNC\server\share`.
    VerbatimUnc(Vec<u8>, Vec<u8>),
    /// `\\?\C:`.
    VerbatimDisk(u8),
    /// `\\.\name`.
    Device(Vec<u8>),
    /// `\\server\share`.
    Unc(Vec<u8>, Vec<u8>),
    /// `C:`.
    Disk(u8),
}

/// The mathematical value of a [`Prefix`].
#[verifier::ext_equal]
pub enum PrefixPart {
    Verbatim(Seq<u8>),
    VerbatimUnc(Seq<u8>, Seq<u8>),
    VerbatimDisk(u8),
    Device(Seq<u8>),
    Unc(Seq<u8>, Seq<u8>),
    Disk(u8),
}

impl View for Prefix {
    type V = PrefixPart;

    open spec fn view(&self) -> PrefixPart {
        match self {
            Prefix::Verbatim(name) => PrefixPart::Verbatim(name@),
            Prefix::VerbatimUnc(server, share) => PrefixPart::VerbatimUnc(server@, share@),
            Prefix::VerbatimDisk(drive) => PrefixPart::VerbatimDisk(*drive),
            Prefix::Device(name) => PrefixPart::Device(name@),
            Prefix::Unc(server, share) => PrefixPart::Unc(server@, share@),
            Prefix::Disk(drive) => PrefixPart::Disk(*drive),
        }
    }
}

/// One component of a path.
#[derive(Debug, PartialEq, Eq)]
pub enum Component {
    /// A drive or share prefix.
    Prefix(Prefix),
    /// The root directory.
    RootDir,
    /// A leading `.`.
    CurDir,
    /// `..`.
    ParentDir,
    /// A file or directory name.
    Normal(Vec<u8>),
}

/// The mathematical value of a [`Component`].
#[verifier::ext_equal]
pub enum Part {
    Prefix(PrefixPart),
    Root,
    Cur,
    Parent,
    Normal(Seq<u8>),
}

impl View for Component {
    type V = Part;

    open spec fn view(&self) -> Part {
        match self {
            Component::Prefix(prefix) => Part::Prefix(prefix@),
            Component::RootDir => Part::Root,
            Component::CurDir => Part::Cur,
            Component::ParentDir => Part::Parent,
            Component::Normal(name) => Part::Normal(name@),
        }
    }
}

/// The values of a list of components.
pub open spec fn parts_of(components: Seq<Component>) -> Seq<Part> {
    components.map_values(|c: Component| c@)
}

/// Whether two byte strings are the same.
pub fn bytes_eq(a: &[u8], b: &[u8]) -> (same: bool)
    ensures
        same == (a@ == b@),
{
    if a.len() != b.len() {
        return false;
    }
    let mut i: usize = 0;
    while i < a.len()
        invariant
            i <= a.len(),
            a.len() == b.len(),
            forall|k: int| 0 <= k < i ==> a@[k] == b@[k],
        decreases a.len() - i,
    {
        if a[i] != b[i] {
            return false;
        }
        i += 1;
    }
    assert(a@ =~= b@);
    true
}

impl Prefix {
    /// Whether two prefixes are the same.
    pub fn same(&self, other: &Prefix) -> (same: bool)
        ensures
            same == (self@ == other@),
    {
        match (self, other) {
            (Prefix::Verbatim(a), Prefix::Verbatim(b)) => bytes_eq(a.as_slice(), b.as_slice()),
            (Prefix::VerbatimUnc(a, x), Prefix::VerbatimUnc(b, y)) => {
                bytes_eq(a.as_slice(), b.as_slice()) && bytes_eq(x.as_slice(), y.as_slice())
            },
            (Prefix::VerbatimDisk(a), Prefix::VerbatimDisk(b)) => *a == *b,
            (Prefix::Device(a), Prefix::Device(b)) => bytes_eq(a.as_slice(), b.as_slice()),
            (Prefix::Unc(a, x), Prefix::Unc(b, y)) => {
                bytes_eq(a.as_slice(), b.as_slice()) && bytes_eq(x.as_slice(), y.as_slice())
            },
            (Prefix::Disk(a), Prefix::Disk(b)) => *a == *b,
            _ => false,
        }
    }

    /// Whether only `\` separates the names behind this prefix.
    fn is_verbatim(&self) -> (verbatim: bool)
        ensures
            verbatim == is_verbatim_prefix(self@),
    {
        match self {
            Prefix::Verbatim(_) | Prefix::VerbatimUnc(_, _) | Prefix::VerbatimDisk(_) => true,
            _ => false,
        }
    }

    /// The text of this prefix.
    pub fn text(&self) -> (text: Vec<u8>)
        ensures
            text@ == prefix_text(self@),
    {
        let mut text: Vec<u8> = Vec::new();
        match self {
            Prefix::Verbatim(name) => {
                push_marked(&mut text, QUESTION_MARK, name.as_slice());
            },
            Prefix::VerbatimUnc(server, share) => {
                let unc: [u8; 4] = [85, 78, 67, BACKSLASH];
                push_marked(&mut text, QUESTION_MARK, unc.as_slice());
                push_bytes(&mut text, server.as_slice());
                if share.len() > 0 {
                    text.push(BACKSLASH);
                    push_bytes(&mut text, share.as_slice());
                }
            },
            Prefix::VerbatimDisk(drive) => {
                let name: [u8; 2] = [*drive, COLON];
                push_marked(&mut text, QUESTION_MARK, name.as_slice());
            },
            Prefix::Device(name) => {
                push_marked(&mut text, DOT, name.as_slice());
            },
            Prefix::Unc(server, share) => {
                text.push(BACKSLASH);
                text.push(BACKSLASH);
                push_bytes(&mut text, server.as_slice());
                if server.len() == 1 && server[0] == QUESTION_MARK {
                    assert(server@ =~= seq![QUESTION_MARK]);
                    text.push(SLASH);
                } else {
                    text.push(BACKSLASH);
                }
                push_bytes(&mut text, share.as_slice());
            },
            Prefix::Disk(drive) => {
                text.push(*drive);
                text.push(COLON);
            },
        }
        assert(text@ =~= prefix_text(self@));
        text
    }
}

/// Appends bytes.
pub(crate) fn push_bytes(target: &mut Vec<u8>, bytes: &[u8])
    ensures
        final(target)@ == old(target)@ + bytes@,
{
    let mut copy = slice_to_vec(bytes);
    target.append(&mut copy);
}

/// Appends a name behind `\\?\` or `\\.\`.
fn push_marked(target: &mut Vec<u8>, mark: u8, name: &[u8])
    ensures
        final(target)@ == old(target)@ + marked(mark, name@),
{
    let ghost before = target@;
    target.push(BACKSLASH);
    target.push(BACKSLASH);
    target.push(mark);
    target.push(BACKSLASH);
    push_bytes(target, name);
    assert(target@ =~= before + marked(mark, name@));
}

impl Clone for Prefix {
    fn clone(&self) -> (copy: Self)
        ensures
            copy@ == self@,
    {
        match self {
            Prefix::Verbatim(name) => Prefix::Verbatim(slice_to_vec(name.as_slice())),
            Prefix::VerbatimUnc(server, share) => Prefix::VerbatimUnc(
                slice_to_vec(server.as_slice()),
                slice_to_vec(share.as_slice()),
            ),
            Prefix::VerbatimDisk(drive) => Prefix::VerbatimDisk(*drive),
            Prefix::Device(name) => Prefix::Device(slice_to_vec(name.as_slice())),
            Prefix::Unc(server, share) => Prefix::Unc(
                slice_to_vec(server.as_slice()),
                slice_to_vec(share.as_slice()),
            ),
            Prefix::Disk(drive) => Prefix::Disk(*drive),
        }
    }
}

impl Component {
    /// Whether two components are the same.
    pub fn same(&self, other: &Component) -> (same: bool)
        ensures
            same == (self@ == other@),
    {
        match (self, other) {
            (Component::Prefix(a), Component::Prefix(b)) => a.same(b),
            (Component::RootDir, Component::RootDir) => true,
            (Component::CurDir, Component::CurDir) => true,
            (Component::ParentDir, Component::ParentDir) => true,
            (Component::Normal(a), Component::Normal(b)) => bytes_eq(a.as_slice(), b.as_slice()),
            _ => false,
        }
    }
}

impl Clone for Component {
    fn clone(&self) -> (copy: Self)
        ensures
            copy@ == self@,
    {
        match self {
            Component::Prefix(prefix) => Component::Prefix(prefix.clone()),
            Component::RootDir => Component::RootDir,
            Component::CurDir => Component::CurDir,
            Component::ParentDir => Component::ParentDir,
            Component::Normal(name) => Component::Normal(slice_to_vec(name.as_slice())),
        }
    }
}

/// A byte stands between names.
pub open spec fn separates(separators: Separators, byte: u8) -> bool {
    match separators {
        Separators::Slash => byte == SLASH,
        Separators::Backslash => byte == BACKSLASH,
        Separators::Both => byte == SLASH || byte == BACKSLASH,
    }
}

/// Length of the text before the first separator.
pub open spec fn cut(separators: Separators, text: Seq<u8>) -> nat
    decreases text.len(),
{
    if text.len() == 0 || separates(separators, text[0]) {
        0
    } else {
        1 + cut(separators, text.skip(1))
    }
}

/// Where the piece of a text ends that starts at an offset.
pub open spec fn piece_end(separators: Separators, text: Seq<u8>, from: int) -> int {
    from + cut(separators, text.skip(from))
}

/// The component that one piece of the text between separators stands for, if
/// any: empty pieces stand for nothing, and `.` only where it leads.
pub open spec fn piece_parts(piece: Seq<u8>, leading: bool) -> Seq<Part> {
    if piece.len() == 0 {
        Seq::empty()
    } else if piece == seq![DOT] {
        if leading {
            seq![Part::Cur]
        } else {
            Seq::empty()
        }
    } else if piece == seq![DOT, DOT] {
        seq![Part::Parent]
    } else {
        seq![Part::Normal(piece)]
    }
}

/// The components of a text that does not start at the root. Where `\` alone
/// separates, every `.` counts as a component.
pub open spec fn relative_parts(separators: Separators, text: Seq<u8>, leading: bool) -> Seq<Part>
    decreases text.len(),
{
    let end = cut(separators, text) as int;
    if text.len() == 0 {
        Seq::empty()
    } else if end >= text.len() {
        piece_parts(text, leading)
    } else {
        piece_parts(text.take(end), leading) + relative_parts(
            separators,
            text.skip(end + 1),
            separators is Backslash,
        )
    }
}

/// A text starts with the verbatim mark `\\?\`, behind which only `\` separates.
pub open spec fn is_verbatim(text: Seq<u8>) -> bool {
    text.len() >= 4 && text[0] == BACKSLASH && text[1] == BACKSLASH && text[2] == QUESTION_MARK
        && text[3] == BACKSLASH
}

/// A letter of the alphabet.
pub open spec fn is_letter(byte: u8) -> bool {
    65 <= byte <= 90 || 97 <= byte <= 122
}

/// A letter in upper case.
pub open spec fn upper(byte: u8) -> u8 {
    if 97 <= byte <= 122 {
        (byte - 32) as u8
    } else {
        byte
    }
}

/// A drive such as `C:` stands at an offset.
pub open spec fn has_drive(text: Seq<u8>, at: int) -> bool {
    text.len() >= at + 2 && is_letter(text[at]) && text[at + 1] == COLON
}

/// A separator of either kind stands at an offset.
pub open spec fn separator_at(text: Seq<u8>, at: int) -> bool {
    at < text.len() && separates(Separators::Both, text[at])
}

/// The prefix of a text that starts with the verbatim mark.
pub open spec fn verbatim_prefix(text: Seq<u8>) -> PrefixPart {
    if text.len() >= 8 && text[4] == 85 && text[5] == 78 && text[6] == 67 && separator_at(text, 7) {
        let server = piece_end(Separators::Backslash, text, 8);
        let share = piece_end(Separators::Backslash, text, server + 1);
        PrefixPart::VerbatimUnc(
            text.subrange(8, server),
            if server < text.len() {
                text.subrange(server + 1, share)
            } else {
                Seq::empty()
            },
        )
    } else if has_drive(text, 4) && (text.len() == 6 || separator_at(text, 6)) {
        PrefixPart::VerbatimDisk(upper(text[4]))
    } else {
        PrefixPart::Verbatim(text.subrange(4, piece_end(Separators::Backslash, text, 4)))
    }
}

/// The prefix of a Windows path, if it has one: a drive such as `C:`, a share
/// such as `\\server\share`, a device such as `\\.\name`, or a verbatim one.
pub open spec fn parsed_prefix(text: Seq<u8>) -> Option<PrefixPart> {
    if is_verbatim(text) {
        Some(verbatim_prefix(text))
    } else if separator_at(text, 0) && separator_at(text, 1) {
        let server = piece_end(Separators::Both, text, 2);
        let share = piece_end(Separators::Both, text, server + 1);
        if text.len() >= 4 && text[2] == DOT && separator_at(text, 3) {
            Some(PrefixPart::Device(text.subrange(4, piece_end(Separators::Both, text, 4))))
        } else if 2 < server < text.len() && server + 1 < share {
            Some(PrefixPart::Unc(text.subrange(2, server), text.subrange(server + 1, share)))
        } else {
            None
        }
    } else if has_drive(text, 0) {
        Some(PrefixPart::Disk(upper(text[0])))
    } else {
        None
    }
}

/// Length of the text of a prefix.
pub open spec fn prefix_len(prefix: PrefixPart) -> nat {
    match prefix {
        PrefixPart::Verbatim(name) => 4 + name.len(),
        PrefixPart::VerbatimUnc(server, share) => 8 + server.len() + (if share.len() > 0 {
            1 + share.len()
        } else {
            0
        }),
        PrefixPart::VerbatimDisk(_) => 6,
        PrefixPart::Device(name) => 4 + name.len(),
        PrefixPart::Unc(server, share) => 2 + server.len() + 1 + share.len(),
        PrefixPart::Disk(_) => 2,
    }
}

/// Only `\` separates the names behind a prefix.
pub open spec fn is_verbatim_prefix(prefix: PrefixPart) -> bool {
    prefix is Verbatim || prefix is VerbatimUnc || prefix is VerbatimDisk
}

/// A name behind `\\?\` or `\\.\`.
pub open spec fn marked(mark: u8, name: Seq<u8>) -> Seq<u8> {
    seq![BACKSLASH, BACKSLASH, mark, BACKSLASH] + name
}

/// The text of a prefix. A share of a server named `?` is told from a verbatim
/// prefix by its slash.
pub open spec fn prefix_text(prefix: PrefixPart) -> Seq<u8> {
    match prefix {
        PrefixPart::Verbatim(name) => marked(QUESTION_MARK, name),
        PrefixPart::VerbatimUnc(server, share) => marked(
            QUESTION_MARK,
            seq![85u8, 78u8, 67u8, BACKSLASH],
        ) + server + (if share.len() > 0 {
            seq![BACKSLASH] + share
        } else {
            Seq::empty()
        }),
        PrefixPart::VerbatimDisk(drive) => marked(QUESTION_MARK, seq![drive, COLON]),
        PrefixPart::Device(name) => marked(DOT, name),
        PrefixPart::Unc(server, share) => seq![BACKSLASH, BACKSLASH] + server + seq![
            if server == seq![QUESTION_MARK] {
                SLASH
            } else {
                BACKSLASH
            },
        ] + share,
        PrefixPart::Disk(drive) => seq![drive, COLON],
    }
}

/// A byte behind the prefix of a path, or at the start of one without a prefix,
/// stands for the root.
pub open spec fn is_root_mark(separators: Separators, byte: u8) -> bool {
    separates(
        if separators is Slash {
            Separators::Slash
        } else {
            Separators::Both
        },
        byte,
    )
}

/// The components behind the prefix of a path, which is rooted if it starts with
/// a separator, or in any case. Only without a prefix a leading `.` counts.
pub open spec fn body_parts(
    separators: Separators,
    text: Seq<u8>,
    prefixed: bool,
    always_rooted: bool,
) -> Seq<Part> {
    let slashed = text.len() > 0 && is_root_mark(separators, text[0]);
    let names = if slashed {
        text.skip(1)
    } else {
        text
    };
    if slashed || always_rooted {
        seq![Part::Root] + relative_parts(separators, names, separators is Backslash)
    } else {
        relative_parts(separators, names, !prefixed)
    }
}

/// The components of a path text. On Windows a share or a device implies a root.
pub open spec fn path_parts(style: PathStyle, text: Seq<u8>) -> Seq<Part> {
    match style {
        PathStyle::Posix => body_parts(Separators::Slash, text, false, false),
        PathStyle::Windows => match parsed_prefix(text) {
            Some(prefix) => seq![Part::Prefix(prefix)] + body_parts(
                if is_verbatim_prefix(prefix) {
                    Separators::Backslash
                } else {
                    Separators::Both
                },
                text.skip(prefix_len(prefix) as int),
                true,
                prefix is Unc || prefix is Device,
            ),
            None => body_parts(Separators::Both, text, false, false),
        },
    }
}

/// The first separator of a text stands where nothing before it is one.
pub proof fn lemma_cut_at(separators: Separators, text: Seq<u8>, at: int)
    requires
        0 <= at <= text.len(),
        forall|k: int| 0 <= k < at ==> !separates(separators, #[trigger] text[k]),
        at == text.len() || separates(separators, text[at]),
    ensures
        cut(separators, text) == at,
    decreases at,
{
    if at > 0 {
        let rest = text.skip(1);
        assert(!separates(separators, text[0]));
        assert forall|k: int| 0 <= k < at - 1 implies !separates(
            separators,
            #[trigger] rest[k],
        ) by {
            assert(rest[k] == text[k + 1]);
        }
        assert(at == text.len() || rest[at - 1] == text[at]);
        lemma_cut_at(separators, rest, at - 1);
    }
}

fn is_separator(separators: Separators, byte: u8) -> (is: bool)
    ensures
        is == separates(separators, byte),
{
    match separators {
        Separators::Slash => byte == SLASH,
        Separators::Backslash => byte == BACKSLASH,
        Separators::Both => byte == SLASH || byte == BACKSLASH,
    }
}

/// Where the piece ends that starts at an offset.
fn find_end(separators: Separators, bytes: &[u8], from: usize) -> (end: usize)
    requires
        from <= bytes.len(),
    ensures
        end == piece_end(separators, bytes@, from as int),
        from <= end <= bytes.len(),
{
    let mut i: usize = from;
    while i < bytes.len() && !is_separator(separators, bytes[i])
        invariant
            from <= i <= bytes.len(),
            forall|k: int| from <= k < i ==> !separates(separators, #[trigger] bytes@[k]),
        decreases bytes.len() - i,
    {
        i += 1;
    }
    let ghost rest = bytes@.skip(from as int);
    proof {
        assert forall|k: int| 0 <= k < i - from implies !separates(
            separators,
            #[trigger] rest[k],
        ) by {
            assert(rest[k] == bytes@[from + k]);
        }
        lemma_cut_at(separators, rest, i - from);
    }
    i
}

fn starts_verbatim(bytes: &[u8]) -> (verbatim: bool)
    ensures
        verbatim == is_verbatim(bytes@),
{
    bytes.len() >= 4 && bytes[0] == BACKSLASH && bytes[1] == BACKSLASH && bytes[2]
        == QUESTION_MARK && bytes[3] == BACKSLASH
}

fn is_separator_at(bytes: &[u8], at: usize) -> (is: bool)
    ensures
        is == separator_at(bytes@, at as int),
{
    at < bytes.len() && is_separator(Separators::Both, bytes[at])
}

/// The drive that stands at an offset.
fn drive_at(bytes: &[u8], at: usize) -> (drive: Option<u8>)
    requires
        at < 8,
    ensures
        drive is Some <==> has_drive(bytes@, at as int),
        drive matches Some(letter) ==> letter == upper(bytes@[at as int]),
{
    if bytes.len() < at + 2 || bytes[at + 1] != COLON {
        return None;
    }
    let letter: u8 = bytes[at];
    if 97 <= letter && letter <= 122 {
        Some(letter - 32)
    } else if 65 <= letter && letter <= 90 {
        Some(letter)
    } else {
        None
    }
}

/// The bytes of a piece of text.
fn piece(bytes: &[u8], from: usize, to: usize) -> (copy: Vec<u8>)
    requires
        from <= to <= bytes.len(),
    ensures
        copy@ == bytes@.subrange(from as int, to as int),
{
    slice_to_vec(slice_subrange(bytes, from, to))
}

/// The prefix of a text that starts with the verbatim mark, and its length.
fn find_verbatim_prefix(bytes: &[u8]) -> (found: (Prefix, usize))
    requires
        is_verbatim(bytes@),
    ensures
        found.0@ == verbatim_prefix(bytes@),
        found.1 == prefix_len(found.0@),
        found.1 <= bytes.len(),
{
    if bytes.len() >= 8 && bytes[4] == 85 && bytes[5] == 78 && bytes[6] == 67 && is_separator_at(
        bytes,
        7,
    ) {
        let server: usize = find_end(Separators::Backslash, bytes, 8);
        if server < bytes.len() {
            let share: usize = find_end(Separators::Backslash, bytes, server + 1);
            let len: usize = if share > server + 1 {
                share
            } else {
                server
            };
            (Prefix::VerbatimUnc(piece(bytes, 8, server), piece(bytes, server + 1, share)), len)
        } else {
            (Prefix::VerbatimUnc(piece(bytes, 8, server), Vec::new()), server)
        }
    } else {
        if bytes.len() == 6 || is_separator_at(bytes, 6) {
            if let Some(drive) = drive_at(bytes, 4) {
                return (Prefix::VerbatimDisk(drive), 6);
            }
        }
        let end: usize = find_end(Separators::Backslash, bytes, 4);
        (Prefix::Verbatim(piece(bytes, 4, end)), end)
    }
}

/// The prefix of a Windows path, if it has one, and its length.
fn find_prefix(bytes: &[u8]) -> (found: Option<(Prefix, usize)>)
    ensures
        found is Some <==> parsed_prefix(bytes@) is Some,
        found matches Some(prefix) ==> Some(prefix.0@) == parsed_prefix(bytes@) && prefix.1
            == prefix_len(prefix.0@) && prefix.1 <= bytes.len(),
{
    if starts_verbatim(bytes) {
        return Some(find_verbatim_prefix(bytes));
    }
    if is_separator_at(bytes, 0) && is_separator_at(bytes, 1) {
        if bytes.len() >= 4 && bytes[2] == DOT && is_separator_at(bytes, 3) {
            let end: usize = find_end(Separators::Both, bytes, 4);
            return Some((Prefix::Device(piece(bytes, 4, end)), end));
        }
        let server: usize = find_end(Separators::Both, bytes, 2);
        if server <= 2 || server >= bytes.len() {
            return None;
        }
        let share: usize = find_end(Separators::Both, bytes, server + 1);
        if share <= server + 1 {
            return None;
        }
        let prefix = Prefix::Unc(piece(bytes, 2, server), piece(bytes, server + 1, share));
        return Some((prefix, share));
    }
    match drive_at(bytes, 0) {
        Some(drive) => Some((Prefix::Disk(drive), 2)),
        None => None,
    }
}

proof fn lemma_parts_push(components: Seq<Component>, one: Component)
    ensures
        parts_of(components.push(one)) == parts_of(components).push(one@),
{
    assert(parts_of(components.push(one)) =~= parts_of(components).push(one@));
}

/// The path of a file or directory, relative to a synchronised root or
/// absolute.
#[derive(Debug, PartialEq, Eq)]
pub struct SyncPath {
    pub parts: Vec<Component>,
}

impl View for SyncPath {
    type V = Seq<Part>;

    open spec fn view(&self) -> Seq<Part> {
        parts_of(self.parts@)
    }
}

/// Appends the component that a piece of text stands for.
fn push_piece(parts: &mut Vec<Component>, piece: &[u8], leading: bool)
    ensures
        parts_of(final(parts)@) == parts_of(old(parts)@) + piece_parts(piece@, leading),
{
    let ghost before = parts@;
    let ghost expected = piece_parts(piece@, leading);
    if piece.len() == 0 {
        assert(parts_of(before) + expected =~= parts_of(before));
    } else if piece.len() == 1 && piece[0] == DOT {
        assert(piece@ =~= seq![DOT]);
        if leading {
            parts.push(Component::CurDir);
            proof {
                lemma_parts_push(before, Component::CurDir);
            }
            assert(parts_of(parts@) =~= parts_of(before) + expected);
        } else {
            assert(parts_of(before) + expected =~= parts_of(before));
        }
    } else if piece.len() == 2 && piece[0] == DOT && piece[1] == DOT {
        assert(piece@ =~= seq![DOT, DOT]);
        parts.push(Component::ParentDir);
        proof {
            lemma_parts_push(before, Component::ParentDir);
        }
        assert(parts_of(parts@) =~= parts_of(before) + expected);
    } else {
        assert(piece@ != seq![DOT]) by {
            assert(piece@.len() != 1 || piece@[0] != DOT);
        }
        assert(piece@ != seq![DOT, DOT]) by {
            assert(piece@.len() != 2 || piece@[0] != DOT || piece@[1] != DOT);
        }
        let name = Component::Normal(slice_to_vec(piece));
        proof {
            lemma_parts_push(before, name);
        }
        parts.push(name);
        assert(parts_of(parts@) =~= parts_of(before) + expected);
    }
}

/// A path has a verbatim prefix.
pub open spec fn has_verbatim_prefix(path: Seq<Part>) -> bool {
    path.len() > 0 && (path[0] matches Part::Prefix(prefix) && is_verbatim_prefix(prefix))
}

/// A path with a verbatim prefix and one more component, which is resolved.
pub open spec fn resolved(base: Seq<Part>, part: Part) -> Seq<Part> {
    match part {
        Part::Root => base.take(1).push(Part::Root),
        Part::Cur => base,
        Part::Parent => if base.last() is Normal {
            base.drop_last()
        } else {
            base
        },
        _ => base.push(part),
    }
}

/// A path with a verbatim prefix and further components, resolved one by one.
pub open spec fn all_resolved(base: Seq<Part>, parts: Seq<Part>) -> Seq<Part>
    decreases parts.len(),
{
    if parts.len() == 0 {
        base
    } else {
        resolved(all_resolved(base, parts.drop_last()), parts.last())
    }
}

/// The text of a component.
pub open spec fn part_text(part: Part) -> Seq<u8> {
    match part {
        Part::Prefix(prefix) => prefix_text(prefix),
        Part::Root => seq![BACKSLASH],
        Part::Cur => seq![DOT],
        Part::Parent => seq![DOT, DOT],
        Part::Normal(name) => name,
    }
}

/// The next name behind a component is set apart from it by a separator.
pub open spec fn wants_separator(part: Part) -> bool {
    match part {
        Part::Prefix(prefix) => !(prefix is Disk),
        Part::Root => false,
        _ => true,
    }
}

/// The text of a list of components.
pub open spec fn rendered(parts: Seq<Part>) -> Seq<u8>
    decreases parts.len(),
{
    if parts.len() == 0 {
        Seq::empty()
    } else {
        let before = parts.drop_last();
        rendered(before) + (if before.len() > 0 && wants_separator(before.last())
            && !(parts.last() is Root) {
            seq![BACKSLASH]
        } else {
            Seq::empty()
        }) + part_text(parts.last())
    }
}

/// A text that ends with a separator: nothing is added to one that does.
pub open spec fn closed_text(text: Seq<u8>) -> Seq<u8> {
    if text.len() > 0 && separates(Separators::Both, text.last()) {
        text
    } else {
        text.push(BACKSLASH)
    }
}

/// The text of a path with a verbatim prefix to which another one is joined.
pub open spec fn verbatim_text(base: Seq<Part>, path: Seq<Part>) -> Seq<u8> {
    if path.len() == 0 {
        closed_text(rendered(base))
    } else {
        rendered(all_resolved(base, path))
    }
}

/// The value of the path that `base.join(path)` names. A path with a prefix
/// replaces the base, and a rooted one all but the prefix of the base. Behind a
/// verbatim prefix `.` and `..` are resolved, and the text that results is read.
pub open spec fn joined(base: Seq<Part>, path: Seq<Part>) -> Seq<Part> {
    if base.len() == 0 || (path.len() > 0 && path[0] is Prefix) {
        path
    } else if has_verbatim_prefix(base) {
        path_parts(PathStyle::Windows, verbatim_text(base, path))
    } else if path.len() > 0 && path[0] is Root {
        if base[0] is Prefix {
            seq![base[0]] + path
        } else {
            path
        }
    } else if path.len() > 0 && path[0] is Cur {
        base + path.skip(1)
    } else {
        base + path
    }
}

/// The value of the parent of a path, if it has one.
pub open spec fn parent_of(path: Seq<Part>) -> Option<Seq<Part>> {
    if path.len() == 0 || path.last() is Root || path.last() is Prefix {
        None
    } else {
        Some(path.drop_last())
    }
}

/// The last component, if it is a name.
pub open spec fn file_name_of(path: Seq<Part>) -> Option<Seq<u8>> {
    if path.len() == 0 {
        None
    } else {
        match path.last() {
            Part::Normal(name) => Some(name),
            _ => None,
        }
    }
}

/// A name has an extension when a dot stands somewhere behind its first byte.
pub open spec fn has_dot_inside(name: Seq<u8>) -> bool {
    exists|i: int| 0 < i < name.len() && name[i] == DOT
}

/// Whether the last component is a name with an extension.
pub open spec fn path_has_extension(path: Seq<Part>) -> bool {
    file_name_of(path) matches Some(name) && has_dot_inside(name)
}

/// Appends the components of the text from an offset on, which lies behind its
/// prefix.
fn push_body(
    parts: &mut Vec<Component>,
    separators: Separators,
    bytes: &[u8],
    from: usize,
    prefixed: bool,
    always_rooted: bool,
)
    requires
        from <= bytes.len(),
    ensures
        parts_of(final(parts)@) == parts_of(old(parts)@) + body_parts(
            separators,
            bytes@.skip(from as int),
            prefixed,
            always_rooted,
        ),
{
    let ghost base = parts_of(parts@);
    let ghost text = bytes@.skip(from as int);
    let verbatim = match separators {
        Separators::Backslash => true,
        _ => false,
    };
    let marks = match separators {
        Separators::Slash => Separators::Slash,
        _ => Separators::Both,
    };
    let slashed = from < bytes.len() && is_separator(marks, bytes[from]);
    let start: usize = if slashed {
        from + 1
    } else {
        from
    };
    assert(slashed ==> text.skip(1) =~= bytes@.skip(start as int));
    if slashed || always_rooted {
        proof {
            lemma_parts_push(parts@, Component::RootDir);
        }
        parts.push(Component::RootDir);
        push_names(parts, separators, bytes, start, verbatim);
        assert(parts_of(parts@) =~= base + body_parts(
            separators,
            text,
            prefixed,
            always_rooted,
        ));
    } else {
        push_names(parts, separators, bytes, start, !prefixed);
    }
}

/// Appends the components of the names in a text from an offset on.
fn push_names(
    parts: &mut Vec<Component>,
    separators: Separators,
    bytes: &[u8],
    from: usize,
    lead: bool,
)
    requires
        from <= bytes.len(),
    ensures
        parts_of(final(parts)@) == parts_of(old(parts)@) + relative_parts(
            separators,
            bytes@.skip(from as int),
            lead,
        ),
{
    let ghost whole = bytes@;
    let ghost expected = parts_of(parts@) + relative_parts(
        separators,
        whole.skip(from as int),
        lead,
    );
    let mut start: usize = from;
    let mut leading = lead;
    let verbatim = match separators {
        Separators::Backslash => true,
        _ => false,
    };
    let mut end: usize = find_end(separators, bytes, start);
    while end < bytes.len()
        invariant
            start <= end <= bytes.len(),
            bytes@ == whole,
            verbatim == (separators is Backslash),
            end == piece_end(separators, whole, start as int),
            expected == parts_of(parts@) + relative_parts(
                separators,
                whole.skip(start as int),
                leading,
            ),
        decreases bytes.len() - start,
    {
        let piece = slice_subrange(bytes, start, end);
        let ghost rest = whole.skip(start as int);
        let ghost before = parts_of(parts@);
        proof {
            assert(rest.take(end - start) =~= piece@);
            assert(rest.skip(end - start + 1) =~= whole.skip(end + 1));
        }
        push_piece(parts, piece, leading);
        assert(before + (piece_parts(piece@, leading) + relative_parts(
            separators,
            whole.skip(end + 1),
            verbatim,
        )) =~= (before + piece_parts(piece@, leading)) + relative_parts(
            separators,
            whole.skip(end + 1),
            verbatim,
        ));
        start = end + 1;
        leading = verbatim;
        end = find_end(separators, bytes, start);
    }
    let piece = slice_subrange(bytes, start, bytes.len());
    assert(whole.skip(start as int) =~= piece@);
    push_piece(parts, piece, leading);
}

/// Appends copies of the components from `from` on.
fn push_copies(target: &mut Vec<Component>, source: &Vec<Component>, from: usize, to: usize)
    requires
        from <= to <= source.len(),
    ensures
        parts_of(final(target)@) == parts_of(old(target)@) + parts_of(source@).subrange(
            from as int,
            to as int,
        ),
{
    let ghost start = parts_of(target@);
    let mut i: usize = from;
    assert(start + parts_of(source@).subrange(from as int, from as int) =~= start);
    while i < to
        invariant
            from <= i <= to <= source.len(),
            parts_of(target@) == start + parts_of(source@).subrange(from as int, i as int),
        decreases to - i,
    {
        let ghost before = target@;
        let copy = source[i].clone();
        proof {
            lemma_parts_push(before, copy);
        }
        target.push(copy);
        i += 1;
        assert(parts_of(target@) =~= start + parts_of(source@).subrange(from as int, i as int));
    }
}

/// Appends the components of a path behind a verbatim prefix.
fn resolve_all(parts: &mut Vec<Component>, path: &SyncPath)
    requires
        old(parts)@.len() > 0,
        parts_of(old(parts)@)[0] is Prefix,
    ensures
        parts_of(final(parts)@) == all_resolved(parts_of(old(parts)@), path@),
{
    let ghost base = parts_of(parts@);
    let mut i: usize = 0;
    assert(path@.take(0) =~= Seq::empty());
    while i < path.parts.len()
        invariant
            i <= path.parts@.len(),
            path@.len() == path.parts@.len(),
            parts@.len() > 0,
            parts_of(parts@)[0] is Prefix,
            parts_of(parts@) == all_resolved(base, path@.take(i as int)),
        decreases path.parts@.len() - i,
    {
        let ghost before = parts@;
        let part = &path.parts[i];
        assert(path@.take(i + 1).drop_last() =~= path@.take(i as int));
        assert(path@.take(i + 1).last() == part@);
        assert(parts_of(before)[0] == before[0]@);
        match part {
            Component::RootDir => {
                parts.truncate(1);
                parts.push(Component::RootDir);
                assert(parts_of(parts@) =~= parts_of(before).take(1).push(Part::Root));
            },
            Component::CurDir => {},
            Component::ParentDir => {
                let last: usize = parts.len() - 1;
                assert(parts_of(before).last() == before[last as int]@);
                let pops = match &parts[last] {
                    Component::Normal(_) => true,
                    _ => false,
                };
                if pops {
                    let _gone = parts.pop();
                    assert(parts_of(parts@) =~= parts_of(before).drop_last());
                }
            },
            _ => {
                let copy = part.clone();
                proof {
                    lemma_parts_push(before, copy);
                }
                parts.push(copy);
            },
        }
        assert(parts_of(parts@)[0] == parts@[0]@);
        i += 1;
    }
    assert(path@.take(i as int) =~= path@);
}

/// The text of a list of components.
fn render(parts: &Vec<Component>) -> (text: Vec<u8>)
    ensures
        text@ == rendered(parts_of(parts@)),
{
    let ghost all = parts_of(parts@);
    let mut text: Vec<u8> = Vec::new();
    let mut separated = false;
    let mut i: usize = 0;
    assert(all.take(0) =~= Seq::empty());
    while i < parts.len()
        invariant
            i <= parts@.len(),
            all == parts_of(parts@),
            all.len() == parts@.len(),
            separated == (i > 0 && wants_separator(all[i - 1])),
            text@ == rendered(all.take(i as int)),
        decreases parts@.len() - i,
    {
        let ghost before = text@;
        let part = &parts[i];
        assert(all[i as int] == part@);
        assert(all.take(i + 1).drop_last() =~= all.take(i as int));
        assert(i > 0 ==> all.take(i as int).last() == all[i - 1]);
        let is_root = match part {
            Component::RootDir => true,
            _ => false,
        };
        if separated && !is_root {
            text.push(BACKSLASH);
        }
        match part {
            Component::Prefix(prefix) => {
                let own = prefix.text();
                push_bytes(&mut text, own.as_slice());
                separated = match prefix {
                    Prefix::Disk(_) => false,
                    _ => true,
                };
            },
            Component::RootDir => {
                text.push(BACKSLASH);
                separated = false;
            },
            Component::CurDir => {
                text.push(DOT);
                separated = true;
            },
            Component::ParentDir => {
                text.push(DOT);
                text.push(DOT);
                separated = true;
            },
            Component::Normal(name) => {
                push_bytes(&mut text, name.as_slice());
                separated = true;
            },
        }
        i += 1;
        assert(text@ =~= rendered(all.take(i as int)));
    }
    assert(all.take(i as int) =~= all);
    text
}

impl Clone for SyncPath {
    fn clone(&self) -> (copy: Self)
        ensures
            copy@ == self@,
    {
        let mut parts: Vec<Component> = Vec::new();
        push_copies(&mut parts, &self.parts, 0, self.parts.len());
        assert(parts_of(parts@) =~= self@);
        SyncPath { parts }
    }
}

impl SyncPath {
    /// Splits a text at its slashes.
    pub fn parse(text: &str) -> (path: SyncPath)
        ensures
            path@ == path_parts(PathStyle::Posix, vstd::utf8::encode_utf8(text@)),
    {
        SyncPath::parse_as(PathStyle::Posix, text)
    }

    /// Splits a text into its components, as the given style has them.
    pub fn parse_as(style: PathStyle, text: &str) -> (path: SyncPath)
        ensures
            path@ == path_parts(style, vstd::utf8::encode_utf8(text@)),
    {
        SyncPath::parse_bytes(style, text.as_bytes())
    }

    /// Splits a text that need not be UTF-8 into its components.
    fn parse_bytes(style: PathStyle, bytes: &[u8]) -> (path: SyncPath)
        ensures
            path@ == path_parts(style, bytes@),
    {
        let mut parts: Vec<Component> = Vec::new();
        assert(parts_of(parts@) =~= Seq::empty());
        match style {
            PathStyle::Posix => {
                assert(bytes@.skip(0) =~= bytes@);
                push_body(&mut parts, Separators::Slash, bytes, 0, false, false);
                assert(parts_of(parts@) =~= path_parts(style, bytes@));
            },
            PathStyle::Windows => match find_prefix(bytes) {
                Some((prefix, len)) => {
                    let separators = if prefix.is_verbatim() {
                        Separators::Backslash
                    } else {
                        Separators::Both
                    };
                    let rooted = match &prefix {
                        Prefix::Unc(_, _) | Prefix::Device(_) => true,
                        _ => false,
                    };
                    let first = Component::Prefix(prefix);
                    proof {
                        lemma_parts_push(parts@, first);
                    }
                    parts.push(first);
                    assert(parts_of(parts@) =~= seq![first@]);
                    push_body(&mut parts, separators, bytes, len, true, rooted);
                },
                None => {
                    assert(bytes@.skip(0) =~= bytes@);
                    push_body(&mut parts, Separators::Both, bytes, 0, false, false);
                    assert(parts_of(parts@) =~= path_parts(style, bytes@));
                },
            },
        }
        SyncPath { parts }
    }

    /// Whether two paths have the same components.
    pub fn same(&self, other: &SyncPath) -> (same: bool)
        ensures
            same == (self@ == other@),
    {
        if self.parts.len() != other.parts.len() {
            assert(self@.len() != other@.len());
            return false;
        }
        let same = self.starts_with(other);
        assert(self@.subrange(0, other@.len() as int) =~= self@);
        same
    }

    /// Whether the components of `base` are the first components of this path.
    pub fn starts_with(&self, base: &SyncPath) -> (starts: bool)
        ensures
            starts == base@.is_prefix_of(self@),
    {
        if base.parts.len() > self.parts.len() {
            return false;
        }
        let mut i: usize = 0;
        while i < base.parts.len()
            invariant
                i <= base.parts.len() <= self.parts.len(),
                forall|k: int| 0 <= k < i ==> self@[k] == base@[k],
            decreases base.parts.len() - i,
        {
            if !self.parts[i].same(&base.parts[i]) {
                assert(self@[i as int] != base@[i as int]);
                assert(self@.subrange(0, base@.len() as int)[i as int] == self@[i as int]);
                return false;
            }
            i += 1;
        }
        assert(base@ =~= self@.subrange(0, base@.len() as int));
        true
    }

    /// What is left of this path behind `base`, or `None` if it does not start
    /// with `base`.
    pub fn strip_prefix(&self, base: &SyncPath) -> (rest: Option<SyncPath>)
        ensures
            rest is Some <==> base@.is_prefix_of(self@),
            rest matches Some(path) ==> path@ == self@.skip(base@.len() as int),
    {
        if !self.starts_with(base) {
            return None;
        }
        let mut parts: Vec<Component> = Vec::new();
        push_copies(&mut parts, &self.parts, base.parts.len(), self.parts.len());
        assert(parts_of(parts@) =~= self@.skip(base@.len() as int));
        Some(SyncPath { parts })
    }

    /// This path with `path` appended; an absolute `path` replaces it.
    pub fn join(&self, path: &SyncPath) -> (whole: SyncPath)
        ensures
            whole@ == joined(self@, path@),
    {
        if self.parts.len() == 0 {
            return path.clone();
        }
        assert(self@[0] == self.parts@[0]@);
        if path.parts.len() > 0 {
            assert(path@[0] == path.parts@[0]@);
            if let Component::Prefix(_) = &path.parts[0] {
                return path.clone();
            }
        }
        let mut parts: Vec<Component> = Vec::new();
        if let Component::Prefix(prefix) = &self.parts[0] {
            if prefix.is_verbatim() {
                push_copies(&mut parts, &self.parts, 0, self.parts.len());
                assert(parts_of(parts@) =~= self@);
                if path.parts.len() > 0 {
                    resolve_all(&mut parts, path);
                }
                let mut text = render(&parts);
                if path.parts.len() == 0 && (text.len() == 0 || !is_separator(
                    Separators::Both,
                    text[text.len() - 1],
                )) {
                    text.push(BACKSLASH);
                }
                return SyncPath::parse_bytes(PathStyle::Windows, text.as_slice());
            }
        }
        if path.parts.len() == 0 {
            return self.clone();
        }
        match &path.parts[0] {
            Component::RootDir => {
                if let Component::Prefix(_) = &self.parts[0] {
                    push_copies(&mut parts, &self.parts, 0, 1);
                }
                push_copies(&mut parts, &path.parts, 0, path.parts.len());
            },
            Component::CurDir => {
                push_copies(&mut parts, &self.parts, 0, self.parts.len());
                push_copies(&mut parts, &path.parts, 1, path.parts.len());
            },
            _ => {
                push_copies(&mut parts, &self.parts, 0, self.parts.len());
                push_copies(&mut parts, &path.parts, 0, path.parts.len());
            },
        }
        assert(parts_of(parts@) =~= joined(self@, path@));
        SyncPath { parts }
    }

    /// This path without its last component.
    pub fn parent(&self) -> (parent: Option<SyncPath>)
        ensures
            parent is Some <==> parent_of(self@) is Some,
            parent matches Some(path) ==> Some(path@) == parent_of(self@),
    {
        if self.parts.len() == 0 {
            return None;
        }
        let last: usize = self.parts.len() - 1;
        assert(self@.last() == self.parts@[last as int]@);
        match &self.parts[last] {
            Component::RootDir | Component::Prefix(_) => {
                return None;
            },
            _ => {},
        }
        let mut parts: Vec<Component> = Vec::new();
        push_copies(&mut parts, &self.parts, 0, last);
        assert(parts_of(parts@) =~= self@.drop_last());
        Some(SyncPath { parts })
    }

    /// The last component, if it is a name.
    pub fn file_name(&self) -> (name: Option<Vec<u8>>)
        ensures
            name is Some <==> file_name_of(self@) is Some,
            name matches Some(bytes) ==> Some(bytes@) == file_name_of(self@),
    {
        if self.parts.len() == 0 {
            return None;
        }
        let last: usize = self.parts.len() - 1;
        assert(self@.last() == self.parts@[last as int]@);
        match &self.parts[last] {
            Component::Normal(name) => Some(slice_to_vec(name.as_slice())),
            _ => None,
        }
    }

    /// Whether the last component is a name with an extension.
    pub fn has_extension(&self) -> (has: bool)
        ensures
            has == path_has_extension(self@),
    {
        match self.file_name() {
            Some(name) => {
                let mut i: usize = 1;
                while i < name.len()
                    invariant
                        1 <= i,
                        file_name_of(self@) == Some(name@),
                        forall|k: int| 0 < k < i && k < name.len() ==> name@[k] != DOT,
                    decreases name.len() - i,
                {
                    if name[i] == DOT {
                        assert(has_dot_inside(name@));
                        return true;
                    }
                    i += 1;
                }
                false
            },
            None => false,
        }
    }

    /// Whether some component is the given name.
    pub fn has_name(&self, name: &[u8]) -> (has: bool)
        ensures
            has == self@.contains(Part::Normal(name@)),
    {
        let mut i: usize = 0;
        while i < self.parts.len()
            invariant
                i <= self.parts.len(),
                forall|k: int| 0 <= k < i ==> self@[k] != Part::Normal(name@),
            decreases self.parts.len() - i,
        {
            assert(self@[i as int] == self.parts@[i as int]@);
            if let Component::Normal(own) = &self.parts[i] {
                if bytes_eq(own.as_slice(), name) {
                    return true;
                }
            }
            i += 1;
        }
        false
    }
}

} // verus!
